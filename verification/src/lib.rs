//! Launchkeeper's decision logic: trigger parsing, status and notification
//! rules, tray summaries, text formatting, and the small path and string
//! helpers the command-line tool and the app share.

pub mod about;
pub mod ai;
pub mod cli;
pub mod commands;
pub mod completions;
pub mod docs;
pub mod env;
pub mod error;
pub mod fmt;
pub mod i18n;
pub mod json;
pub mod model;
pub mod notify;
pub mod paths;
pub mod scan;
pub mod settings;
pub mod state;
pub mod text;
pub mod tray;
pub mod trigger_args;
