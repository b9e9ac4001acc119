//! `mdev fix`: repair a misbehaving development environment.
use vstd::prelude::*;
use crate::runner::Runner;

pub mod android;

verus! {

/// Options of `mdev fix`.
#[derive(Debug, Clone)]
pub struct FixArgs {
    pub command: FixCommands,
}

/// Subcommands of `mdev fix`.
#[derive(Debug, Clone)]
pub enum FixCommands {
    /// Repair a running Android emulator that lost its network (Wi-Fi shows "!", nothing loads).
    Android(android::AndroidArgs),
}

/// Runs `mdev fix`.
pub fn run<R: Runner>(args: &FixArgs, runner: &R) -> (code: i32)
    ensures
        code == 0 || code == 1,
{
    match &args.command {
        FixCommands::Android(android_args) => android::run(android_args, &mut crate::session::Session::new(runner)),
    }
}

} // verus!
