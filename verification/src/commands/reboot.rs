//! `mdev reboot`: restart the app on devices, or stop the project's dev server
//! and say how to start it again.
use vstd::prelude::*;
use crate::commands::device_op::{all_platforms_logged, run_on_all_platforms};
use crate::commands::device_outcome::{
    error_text, is_no_booted_error, is_not_running_error, multi_device_error, no_booted_error,
    no_devices_error, not_running_error, should_enumerate,
};
use crate::commands::kill::kill_server;
use crate::models::{AppInfo, DevicePlatform, NodePm, ProjectType, PyFw};
use crate::runner::{HostOs, Level, RunResult, Runner};
use crate::commands::device_op::{adb_args, adb_command, monkey_tail, sim_target};
use crate::session::{extends, is_run, opt_str, reply_of, since, strs_view, Call, Session};
use crate::text::cat;

verus! {

/// Options of `mdev reboot`.
#[derive(Debug, Clone)]
pub struct RebootArgs {
    /// Target a specific device by id (mobile projects only)
    pub device: Option<String>,
    /// Verbose output
    pub verbose: bool,
}

/// The outcome of an Android restart from the `am force-stop` reply and the
/// relaunch reply.
pub open spec fn restart_android_verdict(device_given: bool, stop: RunResult, launch: RunResult) -> Option<bool> {
    if stop.exit_code != 0 {
        if !device_given && (multi_device_error(stop) || no_devices_error(stop)) {
            None
        } else {
            Some(false)
        }
    } else {
        Some(launch.exit_code == 0)
    }
}

/// The outcome of an iOS restart from the `simctl terminate` reply and the
/// relaunch reply: an app that was not running is simply launched.
pub open spec fn restart_ios_verdict(device_given: bool, term: RunResult, launch: RunResult) -> Option<bool> {
    if term.exit_code != 0 && !device_given && no_booted_error(term) {
        None
    } else if term.exit_code != 0 && !not_running_error(term) {
        Some(false)
    } else {
        Some(launch.exit_code == 0)
    }
}

/// Whether the `simctl terminate` reply ends an iOS restart before the relaunch.
pub open spec fn restart_ios_stops(device_given: bool, term: RunResult) -> bool {
    term.exit_code != 0 && ((!device_given && no_booted_error(term)) || !not_running_error(term))
}

/// What `restart_on` asks of the runner (`t`) and answers (`res`):
/// - Android without a package id: nothing asked, `Some(false)`.
/// - Android: `adb [-s id] shell am force-stop <pkg>`; when that fails nothing
///   more, else `adb [-s id] shell monkey -p <pkg> -c
///   android.intent.category.LAUNCHER 1`; judged by `restart_android_verdict`.
/// - iOS: the host system first; on Linux or without a bundle id nothing more
///   and `Some(false)`; else `xcrun simctl terminate <target> <bundle>`, then,
///   unless that reply ends it (`restart_ios_stops`), `xcrun simctl launch
///   <target> <bundle>`; judged by `restart_ios_verdict`.
pub open spec fn restart_trace(
    app: AppInfo,
    platform: DevicePlatform,
    device: Option<Seq<char>>,
    t: Seq<Call>,
    res: Option<bool>,
) -> bool {
    match platform {
        DevicePlatform::Android => match app.android_package_id {
            None => t.len() == 0 && res == Some(false),
            Some(pkg) => {
                &&& t.len() >= 1
                &&& is_run(t[0], "adb"@, adb_args(device, seq!["shell"@, "am"@, "force-stop"@, pkg@]))
                &&& if reply_of(t[0]).exit_code != 0 {
                    t.len() == 1 && res == restart_android_verdict(device is Some, reply_of(t[0]), reply_of(t[0]))
                } else {
                    &&& t.len() == 2
                    &&& is_run(t[1], "adb"@, adb_args(device, monkey_tail(pkg@)))
                    &&& res == restart_android_verdict(device is Some, reply_of(t[0]), reply_of(t[1]))
                }
            },
        },
        DevicePlatform::Ios => {
            &&& t.len() >= 1
            &&& match t[0] {
                Call::Host { reply } => if reply == HostOs::Linux {
                    t.len() == 1 && res == Some(false)
                } else {
                    match app.ios_bundle_id {
                        None => t.len() == 1 && res == Some(false),
                        Some(b) => {
                            &&& t.len() >= 2
                            &&& is_run(t[1], "xcrun"@, seq!["simctl"@, "terminate"@, sim_target(device), b@])
                            &&& if restart_ios_stops(device is Some, reply_of(t[1])) {
                                t.len() == 2 && res == restart_ios_verdict(device is Some, reply_of(t[1]), reply_of(t[1]))
                            } else {
                                &&& t.len() == 3
                                &&& is_run(t[2], "xcrun"@, seq!["simctl"@, "launch"@, sim_target(device), b@])
                                &&& res == restart_ios_verdict(device is Some, reply_of(t[1]), reply_of(t[2]))
                            }
                        },
                    }
                },
                _ => false,
            }
        },
    }
}

/// Force-stops then relaunches the app on one target. Returns Some(true) on
/// success, Some(false) on real failure, None on device-ambiguity (caller
/// enumerates). See `restart_trace` for the requests it makes.
pub fn restart_on<R: Runner>(
    runner: &mut Session<R>,
    app_info: &AppInfo,
    platform: DevicePlatform,
    device_id: Option<&str>,
    verbose: bool,
) -> (res: Option<bool>)
    ensures
        extends(old(runner).calls(), final(runner).calls()),
        restart_trace(*app_info, platform, opt_str(device_id), since(old(runner).calls(), final(runner).calls()), res),
        device_id is Some ==> res is Some,
{
    let ghost start = runner.calls();
    let d = device_id.is_some();
    match platform {
        DevicePlatform::Android => {
            let pkg = match &app_info.android_package_id {
                Some(id) => id,
                None => {
                    runner.report(Level::Error, "No Android package ID detected.");
                    assert(since(start, runner.calls()) =~= Seq::<Call>::empty());
                    return Some(false);
                },
            };
            let label = match device_id {
                Some(id) => id,
                None => "android",
            };
            runner.report(Level::Detail, &cat(&["Restarting app on ", label, "..."]));
            let stop_tail = ["shell", "am", "force-stop", pkg.as_str()];
            assert(strs_view(stop_tail@) =~= seq!["shell"@, "am"@, "force-stop"@, pkg@]);
            let stop_args = adb_command(device_id, &stop_tail);
            let stop = runner.run("adb", stop_args.as_slice(), None);
            let ghost c0 = Call::Run { exe: "adb"@, args: strs_view(stop_args@), dir: None, reply: stop };
            if !stop.is_success() {
                if !d && should_enumerate(&stop) {
                    assert(since(start, runner.calls()) =~= seq![c0]);
                    return None;
                }
                let err = error_text(&stop);
                runner.report(Level::Error, &cat(&["✗ Failed to stop: ", label, " — ", err]));
                if verbose {
                    runner.report(Level::Error, err);
                }
                assert(since(start, runner.calls()) =~= seq![c0]);
                return Some(false);
            }
            let launch_tail = ["shell", "monkey", "-p", pkg.as_str(), "-c", "android.intent.category.LAUNCHER", "1"];
            assert(strs_view(launch_tail@) =~= monkey_tail(pkg@));
            let launch_args = adb_command(device_id, &launch_tail);
            let launch = runner.run("adb", launch_args.as_slice(), None);
            let ghost c1 = Call::Run { exe: "adb"@, args: strs_view(launch_args@), dir: None, reply: launch };
            let res = if launch.is_success() {
                runner.report(Level::Success, &cat(&["✓ Restarted app on ", label]));
                Some(true)
            } else {
                let err = error_text(&launch);
                runner.report(Level::Error, &cat(&["✗ Stopped but failed to launch: ", label, " — ", err]));
                if verbose {
                    runner.report(Level::Error, err);
                }
                Some(false)
            };
            assert(since(start, runner.calls()) =~= seq![c0, c1]);
            res
        },
        DevicePlatform::Ios => {
            let os = runner.host_os();
            let ghost host = Call::Host { reply: os };
            if os == HostOs::Linux {
                assert(since(start, runner.calls()) =~= seq![host]);
                return Some(false);
            }
            let bundle = match &app_info.ios_bundle_id {
                Some(id) => id,
                None => {
                    runner.report(Level::Error, "No iOS bundle ID detected.");
                    assert(since(start, runner.calls()) =~= seq![host]);
                    return Some(false);
                },
            };
            let target = match device_id {
                Some(id) => id,
                None => "booted",
            };
            let label = match device_id {
                Some(id) => id,
                None => "booted simulator",
            };
            runner.report(Level::Detail, &cat(&["Restarting app on ", label, "..."]));
            let term_args = ["simctl", "terminate", target, bundle.as_str()];
            assert(strs_view(term_args@) =~= seq!["simctl"@, "terminate"@, sim_target(opt_str(device_id)), bundle@]);
            let term = runner.run("xcrun", &term_args, None);
            let ghost c1 = Call::Run { exe: "xcrun"@, args: strs_view(term_args@), dir: None, reply: term };
            if !term.is_success() {
                if !d && is_no_booted_error(&term) {
                    assert(since(start, runner.calls()) =~= seq![host, c1]);
                    return None;
                }
                if !is_not_running_error(&term) {
                    let err = error_text(&term);
                    runner.report(Level::Error, &cat(&["✗ Failed to stop: ", label, " — ", err]));
                    if verbose {
                        runner.report(Level::Error, err);
                    }
                    assert(since(start, runner.calls()) =~= seq![host, c1]);
                    return Some(false);
                }
            }
            let launch_args = ["simctl", "launch", target, bundle.as_str()];
            assert(strs_view(launch_args@) =~= seq!["simctl"@, "launch"@, sim_target(opt_str(device_id)), bundle@]);
            let launch = runner.run("xcrun", &launch_args, None);
            let ghost c2 = Call::Run { exe: "xcrun"@, args: strs_view(launch_args@), dir: None, reply: launch };
            let res = if launch.is_success() {
                runner.report(Level::Success, &cat(&["✓ Restarted app on ", label]));
                Some(true)
            } else {
                let err = error_text(&launch);
                runner.report(Level::Error, &cat(&["✗ Stopped but failed to launch: ", label, " — ", err]));
                if verbose {
                    runner.report(Level::Error, err);
                }
                Some(false)
            };
            assert(since(start, runner.calls()) =~= seq![host, c1, c2]);
            res
        },
    }
}

/// `restart_on` on a fresh session over `runner`: the per-device step of the
/// fan-out across running devices.
pub fn restart_device<R: Runner>(
    runner: &R,
    app_info: &AppInfo,
    platform: DevicePlatform,
    device_id: Option<&str>,
    verbose: bool,
) -> (res: Option<bool>)
    ensures
        device_id is Some ==> res is Some,
        exists|t: Seq<Call>| #[trigger] restart_trace(*app_info, platform, opt_str(device_id), t, res),
{
    let mut s = Session::new(runner);
    let res = restart_on(&mut s, app_info, platform, device_id, verbose);
    assert(restart_trace(*app_info, platform, opt_str(device_id), since(Seq::<Call>::empty(), s.calls()), res));
    res
}

/// Restarts the app on the named device, or on every running device of the
/// platforms the project targets.
pub fn reboot_mobile<R: Runner>(runner: &mut Session<R>, app_info: &AppInfo, args: &RebootArgs) -> (code: i32)
    ensures
        extends(old(runner).calls(), final(runner).calls()),
        final(runner).source() == old(runner).source(),
        args.device is None ==> all_platforms_logged(restart_device::<R>, old(runner).source(), app_info, args.verbose, since(old(runner).calls(), final(runner).calls()), code),
        args.device is Some ==> code == 0 || code == 1,
{
    if let Some(device_id) = &args.device {
        let platform = DevicePlatform::from_device_id(device_id.as_str());
        let v = restart_device(runner.source_runner(), app_info, platform, Some(device_id.as_str()), args.verbose);
        return if v == Some(true) { 0 } else { 1 };
    }
    run_on_all_platforms(runner, app_info, args.verbose, restart_device::<R>)
}

/// The start command printed for each project type.
pub open spec fn start_command_spec(pt: ProjectType) -> Option<Seq<char>> {
    match pt {
        ProjectType::Node { manager } => Some(
            match manager {
                NodePm::Npm => "npm run dev"@,
                NodePm::Pnpm => "pnpm dev"@,
                NodePm::Yarn => "yarn dev"@,
                NodePm::Bun => "bun dev"@,
            },
        ),
        ProjectType::Rust => Some("cargo run"@),
        ProjectType::Go => Some("go run ."@),
        ProjectType::Ruby { rails: true } => Some("bin/rails server"@),
        ProjectType::Python { framework: Some(PyFw::Django) } => Some("python manage.py runserver"@),
        ProjectType::Python { framework: Some(PyFw::FastAPI) } => Some("uvicorn app:app --reload"@),
        _ => None,
    }
}

/// The conventional dev-server start command for a project type, when there is
/// an unambiguous one. `None` means we can't guess reliably.
pub fn start_command(pt: &ProjectType) -> (r: Option<&'static str>)
    ensures
        match r {
            Some(s) => start_command_spec(*pt) == Some(s@),
            None => start_command_spec(*pt) is None,
        },
{
    match pt {
        ProjectType::Node { manager } => Some(
            match manager {
                NodePm::Npm => "npm run dev",
                NodePm::Pnpm => "pnpm dev",
                NodePm::Yarn => "yarn dev",
                NodePm::Bun => "bun dev",
            },
        ),
        ProjectType::Rust => Some("cargo run"),
        ProjectType::Go => Some("go run ."),
        ProjectType::Ruby { rails: true } => Some("bin/rails server"),
        ProjectType::Python { framework } => match framework {
            Some(PyFw::Django) => Some("python manage.py runserver"),
            Some(PyFw::FastAPI) => Some("uvicorn app:app --reload"),
            _ => None,
        },
        _ => None,
    }
}

/// Runs `mdev reboot` for a detected project (`app_info`, found at `root`).
/// Mobile projects have the app force-stopped and relaunched; server-style
/// projects have their running dev server killed, and the command to start it
/// again is printed (the server is not started here).
pub fn run<R: Runner>(args: &RebootArgs, runner: &mut Session<R>, app_info: &AppInfo, root: &str) -> (code: i32)
    ensures
        extends(old(runner).calls(), final(runner).calls()),
        final(runner).source() == old(runner).source(),
        app_info.project_type is Unknown ==> code == 1 && final(runner).calls() == old(runner).calls(),
        (app_info.project_type is Flutter || app_info.project_type is Android || app_info.project_type is Ios) && args.device is Some ==> code == 0 || code == 1,
        (app_info.project_type is Flutter || app_info.project_type is Android || app_info.project_type is Ios) && args.device is None
            ==> all_platforms_logged(restart_device::<R>, old(runner).source(), app_info, args.verbose, since(old(runner).calls(), final(runner).calls()), code),
        !(app_info.project_type is Unknown) && !(app_info.project_type is Flutter || app_info.project_type is Android || app_info.project_type is Ios)
            ==> crate::commands::kill::kill_server_logged(since(old(runner).calls(), final(runner).calls()), code),
{
    match app_info.project_type {
        ProjectType::Unknown => {
            runner.report(Level::Error, "Could not detect a supported project in current directory.");
            1
        },
        ProjectType::Flutter | ProjectType::Android | ProjectType::Ios => reboot_mobile(runner, app_info, args),
        other => {
            let code = kill_server(runner, root, args.verbose);
            match start_command(&other) {
                Some(cmd) => runner.report(Level::Info, &cat(&["Start it again with: ", cmd])),
                None => runner.report(Level::Info, "Start it again with your project's usual dev server command."),
            }
            code
        },
    }
}

/// Each server ecosystem's conventional dev command: the lock file's manager
/// runs the `dev` script (`npm run dev` for npm), Cargo and Go run the
/// package, Rails its server, Django `manage.py runserver` and FastAPI
/// uvicorn with reload. Mobile projects, plain Ruby, generic Python and
/// unknown projects have no command that can be guessed.
pub proof fn lemma_start_commands(pt: ProjectType)
    ensures
        pt == (ProjectType::Node { manager: NodePm::Npm }) ==> start_command_spec(pt) == Some("npm run dev"@),
        pt == (ProjectType::Node { manager: NodePm::Pnpm }) ==> start_command_spec(pt) == Some("pnpm dev"@),
        pt == (ProjectType::Node { manager: NodePm::Yarn }) ==> start_command_spec(pt) == Some("yarn dev"@),
        pt == (ProjectType::Node { manager: NodePm::Bun }) ==> start_command_spec(pt) == Some("bun dev"@),
        pt == ProjectType::Rust ==> start_command_spec(pt) == Some("cargo run"@),
        pt == ProjectType::Go ==> start_command_spec(pt) == Some("go run ."@),
        pt == (ProjectType::Ruby { rails: true }) ==> start_command_spec(pt) == Some("bin/rails server"@),
        pt == (ProjectType::Python { framework: Some(PyFw::Django) })
            ==> start_command_spec(pt) == Some("python manage.py runserver"@),
        pt == (ProjectType::Python { framework: Some(PyFw::FastAPI) })
            ==> start_command_spec(pt) == Some("uvicorn app:app --reload"@),
        pt == ProjectType::Flutter || pt == ProjectType::Android || pt == ProjectType::Ios
            || pt == ProjectType::Unknown || pt == (ProjectType::Ruby { rails: false })
            || pt == (ProjectType::Python { framework: Some(PyFw::Generic) })
            || pt == (ProjectType::Python { framework: None }) ==> start_command_spec(pt) is None,
{
}

/// A restart succeeds exactly when the app was stopped (or, on iOS, was not
/// running) and then relaunched; an unnamed device that cannot be picked is
/// left to the caller.
pub proof fn lemma_restart_outcomes(device_given: bool, stop: RunResult, launch: RunResult)
    ensures
        restart_android_verdict(device_given, stop, launch) == Some(true) <==> stop.exit_code == 0 && launch.exit_code == 0,
        restart_android_verdict(device_given, stop, launch) is None
            <==> stop.exit_code != 0 && !device_given && (multi_device_error(stop) || no_devices_error(stop)),
        restart_ios_verdict(device_given, stop, launch) == Some(true)
            ==> launch.exit_code == 0 && (stop.exit_code == 0 || not_running_error(stop)),
        stop.exit_code == 0 ==> restart_ios_verdict(device_given, stop, launch) == Some(launch.exit_code == 0),
        stop.exit_code != 0 && not_running_error(stop) && (device_given || !no_booted_error(stop))
            ==> restart_ios_verdict(device_given, stop, launch) == Some(launch.exit_code == 0),
{
}

} // verus!
