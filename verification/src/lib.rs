use vstd::prelude::*;

pub mod startup_diagnostics;
pub mod text;
pub mod json;
pub mod models;
pub mod calendar;
pub mod hook_command;
pub mod hooks_config;
pub mod hook_trust;
pub mod cli;
pub mod token_usage;
pub mod dashboard;
pub mod hook_stats;
pub mod tray_status;
pub mod settings;
pub mod shell;

verus! {
}
