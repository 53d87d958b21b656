//! The native desktop front end's own back-end modules.
pub mod config_manager;
