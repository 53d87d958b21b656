//! The compact back end: always-present settings, commit records kept as
//! lists of named values, and a graph whose occupied grid is a map from
//! grid row to the columns taken in it.
pub mod config_manager;
pub mod parseable_info;
pub mod svg_row;
