//! Log analysis core: log levels, entries, statistics, rule evaluation and sessions.

pub mod text;
pub mod table;
pub mod time;
pub mod models;
pub mod statistics;
pub mod error;
pub mod config;
pub mod patterns;
pub mod analysis;
pub mod monitor;
pub mod session;
pub mod tui_state;
pub mod report;
pub mod laws;
