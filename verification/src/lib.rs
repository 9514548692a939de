//! Verified core of a terminal dashboard for Laravel development: log-entry
//! parsing, log-viewer state, command resolution, configuration drafts and
//! process restart bookkeeping.
pub mod text;
pub mod level;
pub mod json;
pub mod entry;
pub mod parser;
pub mod files;
pub mod logs_tab;
pub mod commands;
pub mod config;
pub mod number;
pub mod process;
pub mod tabs;
pub mod view;
