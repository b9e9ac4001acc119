//! Developer toolkit logic for Flutter, Android, iOS and server-style projects:
//! command-output classification, project detection rules, purge planning and
//! emulator repair decisions.

pub mod app_detector;
pub mod commands;
pub mod device_manager;
pub mod json;
pub mod models;
pub mod paths;
pub mod runner;
pub mod session;
pub mod text;
pub mod yaml;
