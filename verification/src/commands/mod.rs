//! The logic behind each `mdev` command.

pub mod clear;
pub mod device_op;
pub mod device_outcome;
pub mod doall;
pub mod doctor;
pub mod emulator;
pub mod fix;
pub mod keystore;
pub mod kill;
pub mod purge;
pub mod reboot;
pub mod simulator;
pub mod tool_locator;
pub mod uninstall;
