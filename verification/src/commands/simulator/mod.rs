//! `mdev sim`: start and stop iOS simulators and Android emulators.
use vstd::prelude::*;
use crate::runner::Runner;

pub mod android;
pub mod ios;

verus! {

/// Options of `mdev sim`.
#[derive(Debug, Clone)]
pub struct SimulatorArgs {
    pub command: SimulatorCommands,
}

/// The subcommands of `mdev sim`.
#[derive(Debug, Clone)]
pub enum SimulatorCommands {
    /// Boot an iOS simulator and show it in Simulator.app. Reuses an
    /// already-booted simulator; otherwise picks the newest iOS runtime that
    /// has a device matching `--device`.
    Ios(ios::IosArgs),
    /// Start an Android emulator and wait until it finishes booting (`--off`
    /// stops it). Reuses the AVD if it is already running, and reports the
    /// emulator's own log when it fails to start.
    Android(android::AndroidArgs),
}

/// Runs the chosen subcommand; its exit code (0 or 1).
pub fn run<R: Runner>(args: &SimulatorArgs, runner: &R) -> (code: i32)
    ensures
        code == 0 || code == 1,
{
    match &args.command {
        SimulatorCommands::Ios(a) => ios::run(a, &mut crate::session::Session::new(runner)),
        SimulatorCommands::Android(a) => android::run(a, &mut crate::session::Session::new(runner)),
    }
}

} // verus!
