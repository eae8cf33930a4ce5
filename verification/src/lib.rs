//! Codex usage: the decisions behind a small desktop panel that shows how much
//! of its Codex allowance a user has spent.
pub mod text;
pub mod numtext;
pub mod calendar;
pub mod daykey;
pub mod local_usage;
pub mod json_text;
pub mod usage;
pub mod paths;
pub mod auth;
pub mod remote;
pub mod runners;
pub mod tray;
