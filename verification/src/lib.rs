//! Repository-view logic of a Git desktop client: commit-graph layout and
//! drawing, branch trees, change lists, commit-message rules and settings.
pub mod text;
pub mod parseable_info;
pub mod svg_row;
pub mod config_manager;
pub mod backend;
pub mod desktop;
pub mod git_manager;
