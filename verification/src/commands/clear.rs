//! `mdev clear`: wipe the app's data on devices and simulators, then relaunch it.
use vstd::prelude::*;
use crate::commands::device_outcome::{
    error_text, is_no_booted_error, is_unknown_package, multi_device_error, no_booted_error,
    no_devices_error, should_enumerate, stdout_is_success, stdout_success, unknown_package_error,
};
use crate::app_detector::AppDetector;
use crate::commands::device_op::{all_platforms_logged, run_on_all_platforms, PlatformOutcome};
use crate::models::{AppInfo, DevicePlatform, ProjectType};
use crate::runner::{HostOs, Level, RunResult, Runner};
use crate::commands::device_op::{adb_args, adb_command, monkey_tail, sim_target};
use crate::session::{extends, is_run, opt_str, reply_of, since, strs_view, Call, Session};
use crate::text::{cat, trim, trim_str};

verus! {

/// Options of `mdev clear`.
#[derive(Debug, Clone, Default)]
pub struct ClearArgs {
    /// Target a specific device by id
    pub device: Option<String>,
    /// Verbose output
    pub verbose: bool,
}

/// The outcome of an Android clear from the `pm clear` reply and the relaunch
/// reply: `None` when no device was named and `adb` could not pick one; a
/// package the device does not know counts as cleared; otherwise the app must
/// both be cleared and relaunch.
pub open spec fn clear_android_verdict(device_given: bool, clear: RunResult, launch: RunResult) -> Option<bool> {
    if !device_given && (multi_device_error(clear) || no_devices_error(clear)) {
        None
    } else if !stdout_success(clear) {
        Some(unknown_package_error(clear))
    } else {
        Some(launch.exit_code == 0)
    }
}

/// The outcome of an iOS clear from the data-container reply, whether the
/// container could be emptied, and the relaunch reply.
pub open spec fn clear_ios_verdict(device_given: bool, container: RunResult, emptied: bool, launch: RunResult) -> Option<bool> {
    if container.exit_code != 0 {
        if !device_given && no_booted_error(container) {
            None
        } else {
            Some(false)
        }
    } else if !emptied {
        Some(false)
    } else {
        Some(launch.exit_code == 0)
    }
}

/// Whether the `pm clear` reply settles an Android clear without a relaunch.
pub open spec fn clear_android_settles(device_given: bool, clear: RunResult) -> bool {
    (!device_given && (multi_device_error(clear) || no_devices_error(clear))) || !stdout_success(clear)
}

/// What `clear_android` asks of the runner (`t`) and answers (`res`): nothing
/// without a package id (`Some(false)`); else `adb [-s id] shell pm clear
/// <pkg>`, then, unless that reply settles it (`clear_android_settles`), the
/// `monkey` relaunch; judged by `clear_android_verdict`.
pub open spec fn clear_android_trace(app: AppInfo, device: Option<Seq<char>>, t: Seq<Call>, res: Option<bool>) -> bool {
    match app.android_package_id {
        None => t.len() == 0 && res == Some(false),
        Some(pkg) => {
            &&& t.len() >= 1
            &&& is_run(t[0], "adb"@, adb_args(device, seq!["shell"@, "pm"@, "clear"@, pkg@]))
            &&& if clear_android_settles(device is Some, reply_of(t[0])) {
                t.len() == 1 && res == clear_android_verdict(device is Some, reply_of(t[0]), reply_of(t[0]))
            } else {
                &&& t.len() == 2
                &&& is_run(t[1], "adb"@, adb_args(device, monkey_tail(pkg@)))
                &&& res == clear_android_verdict(device is Some, reply_of(t[0]), reply_of(t[1]))
            }
        },
    }
}

/// The relaunch request `c` of an iOS clear and its outcome `res`.
pub open spec fn ios_launch_step(c: Call, target: Seq<char>, bundle: Seq<char>, res: Option<bool>) -> bool {
    is_run(c, "xcrun"@, seq!["simctl"@, "launch"@, target, bundle]) && res == Some(reply_of(c).exit_code == 0)
}

/// The requests `u` of an iOS clear once the data container `dir` is known:
/// whether it exists; if so its removal and, when that worked, its
/// re-creation; then, unless the removal failed (`Some(false)`), the
/// relaunch.
pub open spec fn container_trace(dir: Seq<char>, target: Seq<char>, bundle: Seq<char>, u: Seq<Call>, res: Option<bool>) -> bool {
    &&& u.len() >= 2
    &&& match u[0] {
        Call::PathExists { path, reply } => path == dir && if reply {
            match u[1] {
                Call::RemoveDirAll { path: removed, reply } => removed == dir && if reply is Ok {
                    &&& u.len() == 4
                    &&& u[2] matches Call::CreateDirAll { path: created, .. } && created == dir
                    &&& ios_launch_step(u[3], target, bundle, res)
                } else {
                    u.len() == 2 && res == Some(false)
                },
                _ => false,
            }
        } else {
            u.len() == 2 && ios_launch_step(u[1], target, bundle, res)
        },
        _ => false,
    }
}

/// What `clear_ios` asks of the runner (`t`) and answers (`res`): the host
/// system first; on Linux or without a bundle id nothing more and
/// `Some(false)`; else `xcrun simctl get_app_container <target> <bundle> data`,
/// failing with `None` (no device named and none booted) or `Some(false)`, or
/// going on with `container_trace` on the trimmed path it printed.
pub open spec fn clear_ios_trace(app: AppInfo, device: Option<Seq<char>>, t: Seq<Call>, res: Option<bool>) -> bool {
    &&& t.len() >= 1
    &&& match t[0] {
        Call::Host { reply } => if reply == HostOs::Linux {
            t.len() == 1 && res == Some(false)
        } else {
            match app.ios_bundle_id {
                None => t.len() == 1 && res == Some(false),
                Some(b) => {
                    &&& t.len() >= 2
                    &&& is_run(t[1], "xcrun"@, seq!["simctl"@, "get_app_container"@, sim_target(device), b@, "data"@])
                    &&& if reply_of(t[1]).exit_code != 0 {
                        &&& t.len() == 2
                        &&& res == (if device is None && no_booted_error(reply_of(t[1])) { None } else { Some(false) })
                    } else {
                        container_trace(trim(reply_of(t[1]).stdout@), sim_target(device), b@, t.subrange(2, t.len() as int), res)
                    }
                },
            }
        },
        _ => false,
    }
}

/// What `clear_on` asks and answers: `clear_android_trace` or `clear_ios_trace`.
pub open spec fn clear_trace(app: AppInfo, platform: DevicePlatform, device: Option<Seq<char>>, t: Seq<Call>, res: Option<bool>) -> bool {
    match platform {
        DevicePlatform::Android => clear_android_trace(app, device, t, res),
        DevicePlatform::Ios => clear_ios_trace(app, device, t, res),
    }
}

/// Clear app data on one target. Returns Some(true) on success, Some(false) on
/// real failure, None on device-ambiguity error (caller should enumerate).
pub fn clear_on<R: Runner>(
    runner: &mut Session<R>,
    app_info: &AppInfo,
    platform: DevicePlatform,
    device_id: Option<&str>,
    verbose: bool,
) -> (res: Option<bool>)
    ensures
        extends(old(runner).calls(), final(runner).calls()),
        clear_trace(*app_info, platform, opt_str(device_id), since(old(runner).calls(), final(runner).calls()), res),
        device_id is Some ==> res is Some,
{
    match platform {
        DevicePlatform::Android => clear_android(runner, app_info, device_id, verbose),
        DevicePlatform::Ios => clear_ios(runner, app_info, device_id, verbose),
    }
}

/// `clear_on` on a fresh session over `runner`: the per-device step of the
/// fan-out across running devices.
pub fn clear_device<R: Runner>(
    runner: &R,
    app_info: &AppInfo,
    platform: DevicePlatform,
    device_id: Option<&str>,
    verbose: bool,
) -> (res: Option<bool>)
    ensures
        device_id is Some ==> res is Some,
        exists|t: Seq<Call>| #[trigger] clear_trace(*app_info, platform, opt_str(device_id), t, res),
{
    let mut s = Session::new(runner);
    let res = clear_on(&mut s, app_info, platform, device_id, verbose);
    assert(clear_trace(*app_info, platform, opt_str(device_id), since(Seq::<Call>::empty(), s.calls()), res));
    res
}

/// Clears the app's data with `pm clear`, then relaunches it with `monkey`.
/// See `clear_android_trace` for the requests it makes.
pub fn clear_android<R: Runner>(
    runner: &mut Session<R>,
    app_info: &AppInfo,
    device_id: Option<&str>,
    verbose: bool,
) -> (res: Option<bool>)
    ensures
        extends(old(runner).calls(), final(runner).calls()),
        clear_android_trace(*app_info, opt_str(device_id), since(old(runner).calls(), final(runner).calls()), res),
        device_id is Some ==> res is Some,
{
    let ghost start = runner.calls();
    let pkg = match &app_info.android_package_id {
        Some(id) => id,
        None => {
            runner.report(Level::Error, "No Android package ID detected.");
            assert(since(start, runner.calls()) =~= Seq::<Call>::empty());
            return Some(false);
        },
    };
    let label = match device_id {
        Some(id) => id,
        None => "android",
    };
    runner.report(Level::Detail, &cat(&["Clearing ", label, "..."]));
    let tail = ["shell", "pm", "clear", pkg.as_str()];
    assert(strs_view(tail@) =~= seq!["shell"@, "pm"@, "clear"@, pkg@]);
    let args = adb_command(device_id, &tail);
    let clear_result = runner.run("adb", args.as_slice(), None);
    let ghost c0 = Call::Run { exe: "adb"@, args: strs_view(args@), dir: None, reply: clear_result };
    let d = device_id.is_some();
    if !d && should_enumerate(&clear_result) {
        assert(since(start, runner.calls()) =~= seq![c0]);
        return None;
    }
    if !stdout_is_success(&clear_result) {
        let v = is_unknown_package(&clear_result);
        if v {
            runner.report(Level::Success, &cat(&["✓ Not installed on ", label]));
        } else {
            let err = error_text(&clear_result);
            runner.report(Level::Error, &cat(&["✗ Failed to clear: ", label, " — ", err]));
            if verbose {
                runner.report(Level::Error, err);
            }
        }
        assert(since(start, runner.calls()) =~= seq![c0]);
        return Some(v);
    }
    let launch_tail = ["shell", "monkey", "-p", pkg.as_str(), "-c", "android.intent.category.LAUNCHER", "1"];
    assert(strs_view(launch_tail@) =~= monkey_tail(pkg@));
    let launch_args = adb_command(device_id, &launch_tail);
    let launch_result = runner.run("adb", launch_args.as_slice(), None);
    let ghost c1 = Call::Run { exe: "adb"@, args: strs_view(launch_args@), dir: None, reply: launch_result };
    let res = if launch_result.is_success() {
        runner.report(Level::Success, &cat(&["✓ Cleared and restarted ", label]));
        Some(true)
    } else {
        let err = error_text(&launch_result);
        runner.report(Level::Error, &cat(&["✗ Cleared but failed to launch: ", label, " — ", err]));
        if verbose {
            runner.report(Level::Error, err);
        }
        Some(false)
    };
    assert(since(start, runner.calls()) =~= seq![c0, c1]);
    res
}

/// Empties the app's simulator data container, then relaunches the app.
/// Simulators only exist on macOS: on Linux the answer is `Some(false)`.
/// See `clear_ios_trace` for the requests it makes.
pub fn clear_ios<R: Runner>(
    runner: &mut Session<R>,
    app_info: &AppInfo,
    device_id: Option<&str>,
    verbose: bool,
) -> (res: Option<bool>)
    ensures
        extends(old(runner).calls(), final(runner).calls()),
        clear_ios_trace(*app_info, opt_str(device_id), since(old(runner).calls(), final(runner).calls()), res),
        device_id is Some ==> res is Some,
{
    let ghost start = runner.calls();
    let os = runner.host_os();
    let ghost host = Call::Host { reply: os };
    if os == HostOs::Linux {
        assert(since(start, runner.calls()) =~= seq![host]);
        return Some(false);
    }
    let bundle = match &app_info.ios_bundle_id {
        Some(id) => id,
        None => {
            runner.report(Level::Error, "No iOS bundle ID detected.");
            assert(since(start, runner.calls()) =~= seq![host]);
            return Some(false);
        },
    };
    let target = match device_id {
        Some(id) => id,
        None => "booted",
    };
    let label = match device_id {
        Some(id) => id,
        None => "booted simulator",
    };
    runner.report(Level::Detail, &cat(&["Clearing ", label, "..."]));
    let d = device_id.is_some();
    let container_args = ["simctl", "get_app_container", target, bundle.as_str(), "data"];
    assert(strs_view(container_args@) =~= seq!["simctl"@, "get_app_container"@, sim_target(opt_str(device_id)), bundle@, "data"@]);
    let container_result = runner.run("xcrun", &container_args, None);
    let ghost c1 = Call::Run { exe: "xcrun"@, args: strs_view(container_args@), dir: None, reply: container_result };
    if !container_result.is_success() {
        if !d && is_no_booted_error(&container_result) {
            assert(since(start, runner.calls()) =~= seq![host, c1]);
            return None;
        }
        let err = error_text(&container_result);
        runner.report(Level::Error, &cat(&["✗ Failed to get container: ", label, " — ", err]));
        if verbose {
            runner.report(Level::Error, err);
        }
        assert(since(start, runner.calls()) =~= seq![host, c1]);
        return Some(false);
    }
    let container = trim_str(container_result.stdout.as_str());
    let ghost mid = runner.calls();
    let mut emptied = false;
    if runner.path_exists(container.as_str()) {
        if runner.remove_dir_all(container.as_str()).is_ok() {
            let _ = runner.create_dir_all(container.as_str());
            emptied = true;
        }
    } else {
        emptied = true;
    }
    let ghost probes = since(mid, runner.calls());
    if !emptied {
        runner.report(Level::Error, &cat(&["✗ Failed to clear container: ", label]));
        assert(since(start, runner.calls()) =~= seq![host, c1] + probes);
        assert(since(start, runner.calls()).subrange(2, since(start, runner.calls()).len() as int) =~= probes);
        return Some(false);
    }
    let launch_args = ["simctl", "launch", target, bundle.as_str()];
    assert(strs_view(launch_args@) =~= seq!["simctl"@, "launch"@, sim_target(opt_str(device_id)), bundle@]);
    let launch_result = runner.run("xcrun", &launch_args, None);
    let ghost c2 = Call::Run { exe: "xcrun"@, args: strs_view(launch_args@), dir: None, reply: launch_result };
    let res = if launch_result.is_success() {
        runner.report(Level::Success, &cat(&["✓ Cleared and restarted ", label]));
        Some(true)
    } else {
        let err = error_text(&launch_result);
        runner.report(Level::Error, &cat(&["✗ Cleared but failed to launch: ", label, " — ", err]));
        if verbose {
            runner.report(Level::Error, err);
        }
        Some(false)
    };
    assert(since(start, runner.calls()) =~= seq![host, c1] + probes.push(c2));
    assert(since(start, runner.calls()).subrange(2, since(start, runner.calls()).len() as int) =~= probes.push(c2));
    res
}

/// Runs on the project detected at or above `current_dir`: on the named
/// device, or on every running device of the platforms the project targets.
/// Returns 1 when no project is detected.
pub fn run<R: Runner>(args: &ClearArgs, runner: &mut Session<R>, current_dir: &str) -> (code: i32)
    ensures
        extends(old(runner).calls(), final(runner).calls()),
        exists|k: int, info: AppInfo| 0 <= k <= since(old(runner).calls(), final(runner).calls()).len()
            && crate::app_detector::detect_outcome(current_dir@, info, since(old(runner).calls(), final(runner).calls()).take(k))
            && #[trigger] run_for_outcome(final(runner).source(), *args, info, since(old(runner).calls(), final(runner).calls()).skip(k), code),
{
    let ghost start = runner.calls();
    let app_info = AppDetector::new().detect(runner, current_dir);
    let ghost mid = runner.calls();
    let code = run_for(args, runner, &app_info);
    proof {
        crate::session::lemma_since_prefix(start, mid, runner.calls());
        let k = since(start, mid).len() as int;
        assert(crate::app_detector::detect_outcome(current_dir@, app_info, since(start, runner.calls()).take(k)));
        assert(run_for_outcome(runner.source(), *args, app_info, since(start, runner.calls()).skip(k), code));
    }
    code
}

/// What `run_for` asked (`t`) and answered for `args` and the detected
/// project `info`: 1 without any request when no project is detected, 0 or 1
/// for a named device, else the combined exit code of every platform's devices
/// (`all_platforms_logged`).
pub open spec fn run_for_outcome<R: Runner>(runner: &R, args: ClearArgs, info: AppInfo, t: Seq<Call>, code: i32) -> bool {
    &&& info.project_type == ProjectType::Unknown ==> code == 1 && t.len() == 0
    &&& info.project_type != ProjectType::Unknown && args.device is Some ==> (code == 0 || code == 1) && t.len() == 0
    &&& info.project_type != ProjectType::Unknown && args.device is None
        ==> all_platforms_logged(clear_device::<R>, runner, &info, args.verbose, t, code)
}

/// Runs for the detected project `app_info`; see `run`.
pub fn run_for<R: Runner>(args: &ClearArgs, runner: &mut Session<R>, app_info: &AppInfo) -> (code: i32)
    ensures
        extends(old(runner).calls(), final(runner).calls()),
        final(runner).source() == old(runner).source(),
        run_for_outcome(old(runner).source(), *args, *app_info, since(old(runner).calls(), final(runner).calls()), code),
{
    if app_info.project_type == ProjectType::Unknown {
        runner.report(Level::Error, "Could not detect Flutter/Android/iOS project in current directory.");
        return 1;
    }
    if let Some(device_id) = &args.device {
        let platform = DevicePlatform::from_device_id(device_id.as_str());
        let v = clear_device(runner.source_runner(), app_info, platform, Some(device_id.as_str()), args.verbose);
        return if v == Some(true) { 0 } else { 1 };
    }
    run_on_all_platforms(runner, app_info, args.verbose, clear_device::<R>)
}

/// An Android clear succeeds exactly when `pm clear` reported success and the
/// app relaunched, or the device does not know the package; without a named
/// device, several devices or none leave it to the caller (`None`).
pub proof fn lemma_clear_android_outcomes(device_given: bool, clear: RunResult, launch: RunResult)
    ensures
        !device_given && (multi_device_error(clear) || no_devices_error(clear)) ==> clear_android_verdict(device_given, clear, launch) is None,
        (device_given || !(multi_device_error(clear) || no_devices_error(clear))) && stdout_success(clear)
            ==> clear_android_verdict(device_given, clear, launch) == Some(launch.exit_code == 0),
        (device_given || !(multi_device_error(clear) || no_devices_error(clear))) && !stdout_success(clear) && unknown_package_error(clear)
            ==> clear_android_verdict(device_given, clear, launch) == Some(true),
        !stdout_success(clear) && !unknown_package_error(clear) ==> clear_android_verdict(device_given, clear, launch) != Some(true),
        stdout_success(clear) && launch.exit_code != 0 ==> clear_android_verdict(device_given, clear, launch) != Some(true),
{
}

/// An iOS clear succeeds exactly when the data container was found and
/// emptied and the app relaunched; without a named simulator, none booted
/// leaves it to the caller (`None`).
pub proof fn lemma_clear_ios_outcomes(device_given: bool, container: RunResult, emptied: bool, launch: RunResult)
    ensures
        clear_ios_verdict(device_given, container, emptied, launch) == Some(true)
            <==> container.exit_code == 0 && emptied && launch.exit_code == 0,
        clear_ios_verdict(device_given, container, emptied, launch) is None
            <==> container.exit_code != 0 && !device_given && no_booted_error(container),
{
}

} // verus!
