//! `mdev uninstall`: remove the app from devices and simulators.
use vstd::prelude::*;
use crate::commands::device_outcome::{
    error_text, is_no_booted_error, is_unknown_package, multi_device_error, no_booted_error,
    no_devices_error, should_enumerate, stdout_is_success, stdout_success, unknown_package_error,
};
use crate::app_detector::AppDetector;
use crate::commands::device_op::{all_platforms_logged, run_on_all_platforms, PlatformOutcome};
use crate::models::{AppInfo, DevicePlatform, ProjectType};
use crate::runner::{HostOs, Level, RunResult, Runner};
use crate::commands::device_op::{adb_args, adb_command, sim_target};
use crate::session::{extends, is_run, opt_str, reply_of, since, strs_view, Call, Session};
use crate::text::{cat, chars_of, contains, contains_chars, lowercase, to_lowercase};

verus! {

/// Options of `mdev uninstall`.
#[derive(Debug, Clone, Default)]
pub struct UninstallArgs {
    /// Target a specific device by id
    pub device: Option<String>,
    /// Verbose output
    pub verbose: bool,
}

/// What an `adb uninstall` reply settles on its own: `Some(outcome)` when it is
/// final, `None` when `pm path` must be asked whether the package is still there.
pub open spec fn uninstall_first_verdict(device_given: bool, r: RunResult) -> Option<Option<bool>> {
    if !device_given && (multi_device_error(r) || no_devices_error(r)) {
        Some(None)
    } else if stdout_success(r) || unknown_package_error(r) {
        Some(Some(true))
    } else {
        None
    }
}

/// The outcome once `pm path` has answered after a failed uninstall: the app is
/// only reported as failed when the package is still installed.
pub open spec fn uninstall_path_verdict(device_given: bool, path: RunResult) -> Option<bool> {
    if multi_device_error(path) || no_devices_error(path) {
        if device_given { Some(false) } else { None }
    } else if contains(lowercase(path.stdout@), "package:"@) {
        Some(false)
    } else {
        Some(true)
    }
}

/// The outcome of an Android uninstall from the `adb uninstall` reply and, when
/// that reply is not final, the `pm path` reply.
pub open spec fn uninstall_android_verdict(device_given: bool, first: RunResult, path: RunResult) -> Option<bool> {
    match uninstall_first_verdict(device_given, first) {
        Some(v) => v,
        None => uninstall_path_verdict(device_given, path),
    }
}

/// Decides on an `adb uninstall` reply; see `uninstall_first_verdict`.
pub fn uninstall_first_outcome(device_given: bool, r: &RunResult) -> (v: Option<Option<bool>>)
    ensures
        v == uninstall_first_verdict(device_given, *r),
{
    if !device_given && should_enumerate(r) {
        Some(None)
    } else if stdout_is_success(r) || is_unknown_package(r) {
        Some(Some(true))
    } else {
        None
    }
}

/// Decides on the `pm path` reply; see `uninstall_path_verdict`.
pub fn uninstall_path_outcome(device_given: bool, path: &RunResult) -> (v: Option<bool>)
    ensures
        v == uninstall_path_verdict(device_given, *path),
{
    if should_enumerate(path) {
        if device_given { Some(false) } else { None }
    } else {
        let low = to_lowercase(path.stdout.as_str());
        let t = chars_of(low.as_str());
        let p = chars_of("package:");
        if contains_chars(t.as_slice(), p.as_slice()) {
            Some(false)
        } else {
            Some(true)
        }
    }
}

/// The outcome of `simctl uninstall`.
pub open spec fn uninstall_ios_verdict(device_given: bool, r: RunResult) -> Option<bool> {
    if r.exit_code == 0 {
        Some(true)
    } else if !device_given && no_booted_error(r) {
        None
    } else {
        Some(false)
    }
}

/// What `uninstall_on` asks of the runner (`t`) and answers (`res`):
/// - Android without a package id: nothing asked, `Some(false)`.
/// - Android: `adb [-s id] uninstall <pkg>`; when its reply settles the
///   outcome (`uninstall_first_verdict`) nothing more, else `adb [-s id] shell
///   pm path <pkg>`, judged by `uninstall_path_verdict`.
/// - iOS: the host system first; on Linux or without a bundle id nothing more
///   and `Some(false)`; else `xcrun simctl uninstall <target> <bundle>`,
///   judged by `uninstall_ios_verdict`.
pub open spec fn uninstall_trace(
    app: AppInfo,
    platform: DevicePlatform,
    device: Option<Seq<char>>,
    t: Seq<Call>,
    res: Option<bool>,
) -> bool {
    match platform {
        DevicePlatform::Android => match app.android_package_id {
            None => t.len() == 0 && res == Some(false),
            Some(pkg) => {
                &&& t.len() >= 1
                &&& is_run(t[0], "adb"@, adb_args(device, seq!["uninstall"@, pkg@]))
                &&& match uninstall_first_verdict(device is Some, reply_of(t[0])) {
                    Some(v) => t.len() == 1 && res == v,
                    None => {
                        &&& t.len() == 2
                        &&& is_run(t[1], "adb"@, adb_args(device, seq!["shell"@, "pm"@, "path"@, pkg@]))
                        &&& res == uninstall_path_verdict(device is Some, reply_of(t[1]))
                    },
                }
            },
        },
        DevicePlatform::Ios => {
            &&& t.len() >= 1
            &&& match t[0] {
                Call::Host { reply } => if reply == HostOs::Linux {
                    t.len() == 1 && res == Some(false)
                } else {
                    match app.ios_bundle_id {
                        None => t.len() == 1 && res == Some(false),
                        Some(b) => {
                            &&& t.len() == 2
                            &&& is_run(t[1], "xcrun"@, seq!["simctl"@, "uninstall"@, sim_target(device), b@])
                            &&& res == uninstall_ios_verdict(device is Some, reply_of(t[1]))
                        },
                    }
                },
                _ => false,
            }
        },
    }
}

/// Run a single uninstall. Returns:
///   Some(true)  = success (or the app was not installed)
///   Some(false) = failed for a reason other than device ambiguity
///   None        = ambiguous (multiple devices / no booted) — caller should enumerate
/// See `uninstall_trace` for the requests it makes.
pub fn uninstall_on<R: Runner>(
    runner: &mut Session<R>,
    app_info: &AppInfo,
    platform: DevicePlatform,
    device_id: Option<&str>,
    verbose: bool,
) -> (res: Option<bool>)
    ensures
        extends(old(runner).calls(), final(runner).calls()),
        uninstall_trace(*app_info, platform, opt_str(device_id), since(old(runner).calls(), final(runner).calls()), res),
        device_id is Some ==> res is Some,
{
    let ghost start = runner.calls();
    match platform {
        DevicePlatform::Android => {
            let pkg = match &app_info.android_package_id {
                Some(id) => id,
                None => {
                    runner.report(Level::Error, "No Android package ID detected.");
                    assert(since(start, runner.calls()) =~= Seq::<Call>::empty());
                    return Some(false);
                },
            };
            let label = match device_id {
                Some(id) => id,
                None => "android",
            };
            let tail = ["uninstall", pkg.as_str()];
            assert(strs_view(tail@) =~= seq!["uninstall"@, pkg@]);
            let args = adb_command(device_id, &tail);
            let result = runner.run("adb", args.as_slice(), None);
            let ghost c0 = Call::Run { exe: "adb"@, args: strs_view(args@), dir: None, reply: result };
            let d = device_id.is_some();
            let first = uninstall_first_outcome(d, &result);
            if let Some(v) = first {
                if v == Some(true) {
                    if stdout_is_success(&result) {
                        runner.report(Level::Success, &cat(&["✓ Uninstalled from ", label]));
                    } else {
                        runner.report(Level::Success, &cat(&["✓ Not installed on ", label]));
                    }
                }
                assert(since(start, runner.calls()) =~= seq![c0]);
                return v;
            }
            let path_tail = ["shell", "pm", "path", pkg.as_str()];
            assert(strs_view(path_tail@) =~= seq!["shell"@, "pm"@, "path"@, pkg@]);
            let path_args = adb_command(device_id, &path_tail);
            let path_result = runner.run("adb", path_args.as_slice(), None);
            let ghost c1 = Call::Run { exe: "adb"@, args: strs_view(path_args@), dir: None, reply: path_result };
            let v = uninstall_path_outcome(d, &path_result);
            if v == Some(false) {
                let err = if should_enumerate(&path_result) {
                    error_text(&path_result)
                } else {
                    error_text(&result)
                };
                runner.report(Level::Error, &cat(&["✗ Failed: ", label, " — ", err]));
                if verbose {
                    runner.report(Level::Error, err);
                }
            } else if v == Some(true) {
                runner.report(Level::Success, &cat(&["✓ Not installed on ", label]));
            }
            assert(since(start, runner.calls()) =~= seq![c0, c1]);
            v
        },
        DevicePlatform::Ios => {
            let os = runner.host_os();
            let ghost host = Call::Host { reply: os };
            if os == HostOs::Linux {
                assert(since(start, runner.calls()) =~= seq![host]);
                return Some(false);
            }
            let bundle = match &app_info.ios_bundle_id {
                Some(id) => id,
                None => {
                    runner.report(Level::Error, "No iOS bundle ID detected.");
                    assert(since(start, runner.calls()) =~= seq![host]);
                    return Some(false);
                },
            };
            let target = match device_id {
                Some(id) => id,
                None => "booted",
            };
            let label = match device_id {
                Some(id) => id,
                None => "booted simulator",
            };
            let args = ["simctl", "uninstall", target, bundle.as_str()];
            assert(strs_view(args@) =~= seq!["simctl"@, "uninstall"@, sim_target(opt_str(device_id)), bundle@]);
            let result = runner.run("xcrun", &args, None);
            let ghost c1 = Call::Run { exe: "xcrun"@, args: strs_view(args@), dir: None, reply: result };
            let res = if result.is_success() {
                runner.report(Level::Success, &cat(&["✓ Uninstalled from ", label]));
                Some(true)
            } else if device_id.is_none() && is_no_booted_error(&result) {
                None
            } else {
                let err = error_text(&result);
                runner.report(Level::Error, &cat(&["✗ Failed: ", label, " — ", err]));
                if verbose {
                    runner.report(Level::Error, err);
                }
                Some(false)
            };
            assert(since(start, runner.calls()) =~= seq![host, c1]);
            res
        },
    }
}

/// `uninstall_on` on a fresh session over `runner`: the per-device step of
/// the fan-out across running devices.
pub fn uninstall_device<R: Runner>(
    runner: &R,
    app_info: &AppInfo,
    platform: DevicePlatform,
    device_id: Option<&str>,
    verbose: bool,
) -> (res: Option<bool>)
    ensures
        device_id is Some ==> res is Some,
        exists|t: Seq<Call>| #[trigger] uninstall_trace(*app_info, platform, opt_str(device_id), t, res),
{
    let mut s = Session::new(runner);
    let res = uninstall_on(&mut s, app_info, platform, device_id, verbose);
    assert(uninstall_trace(*app_info, platform, opt_str(device_id), since(Seq::<Call>::empty(), s.calls()), res));
    res
}

/// Runs on the project detected at or above `current_dir`: on the named
/// device, or on every running device of the platforms the project targets.
/// Returns 1 when no project is detected.
pub fn run<R: Runner>(args: &UninstallArgs, runner: &mut Session<R>, current_dir: &str) -> (code: i32)
    ensures
        extends(old(runner).calls(), final(runner).calls()),
        exists|k: int, info: AppInfo| 0 <= k <= since(old(runner).calls(), final(runner).calls()).len()
            && crate::app_detector::detect_outcome(current_dir@, info, since(old(runner).calls(), final(runner).calls()).take(k))
            && #[trigger] run_for_outcome(final(runner).source(), *args, info, since(old(runner).calls(), final(runner).calls()).skip(k), code),
{
    let ghost start = runner.calls();
    let app_info = AppDetector::new().detect(runner, current_dir);
    let ghost mid = runner.calls();
    let code = run_for(args, runner, &app_info);
    proof {
        crate::session::lemma_since_prefix(start, mid, runner.calls());
        let k = since(start, mid).len() as int;
        assert(crate::app_detector::detect_outcome(current_dir@, app_info, since(start, runner.calls()).take(k)));
        assert(run_for_outcome(runner.source(), *args, app_info, since(start, runner.calls()).skip(k), code));
    }
    code
}

/// What `run_for` asked (`t`) and answered for `args` and the detected
/// project `info`: 1 without any request when no project is detected, 0 or 1
/// for a named device, else the combined exit code of every platform's devices
/// (`all_platforms_logged`).
pub open spec fn run_for_outcome<R: Runner>(runner: &R, args: UninstallArgs, info: AppInfo, t: Seq<Call>, code: i32) -> bool {
    &&& info.project_type == ProjectType::Unknown ==> code == 1 && t.len() == 0
    &&& info.project_type != ProjectType::Unknown && args.device is Some ==> (code == 0 || code == 1) && t.len() == 0
    &&& info.project_type != ProjectType::Unknown && args.device is None
        ==> all_platforms_logged(uninstall_device::<R>, runner, &info, args.verbose, t, code)
}

/// Runs for the detected project `app_info`; see `run`.
pub fn run_for<R: Runner>(args: &UninstallArgs, runner: &mut Session<R>, app_info: &AppInfo) -> (code: i32)
    ensures
        extends(old(runner).calls(), final(runner).calls()),
        final(runner).source() == old(runner).source(),
        run_for_outcome(old(runner).source(), *args, *app_info, since(old(runner).calls(), final(runner).calls()), code),
{
    if app_info.project_type == ProjectType::Unknown {
        runner.report(Level::Error, "Could not detect Flutter/Android/iOS project in current directory.");
        return 1;
    }
    if let Some(device_id) = &args.device {
        let platform = DevicePlatform::from_device_id(device_id.as_str());
        let v = uninstall_device(runner.source_runner(), app_info, platform, Some(device_id.as_str()), args.verbose);
        return if v == Some(true) { 0 } else { 1 };
    }
    run_on_all_platforms(runner, app_info, args.verbose, uninstall_device::<R>)
}

/// An Android uninstall succeeds when `adb uninstall` reported success or the
/// device does not know the package, and otherwise exactly when `pm path` no
/// longer lists the package; without a named device, several devices or
/// none leave it to the caller (`None`).
pub proof fn lemma_uninstall_android_outcomes(device_given: bool, first: RunResult, path: RunResult)
    ensures
        !device_given && (multi_device_error(first) || no_devices_error(first))
            ==> uninstall_android_verdict(device_given, first, path) is None,
        (device_given || !(multi_device_error(first) || no_devices_error(first))) && (stdout_success(first) || unknown_package_error(first))
            ==> uninstall_android_verdict(device_given, first, path) == Some(true),
        !(multi_device_error(first) || no_devices_error(first)) && !stdout_success(first) && !unknown_package_error(first)
            && !(multi_device_error(path) || no_devices_error(path))
            ==> uninstall_android_verdict(device_given, first, path) == Some(!contains(lowercase(path.stdout@), "package:"@)),
{
}

/// An iOS uninstall succeeds exactly when `simctl uninstall` exits 0; without
/// a named simulator, none booted leaves it to the caller (`None`).
pub proof fn lemma_uninstall_ios_outcomes(device_given: bool, r: RunResult)
    ensures
        uninstall_ios_verdict(device_given, r) == Some(true) <==> r.exit_code == 0,
        uninstall_ios_verdict(device_given, r) is None <==> r.exit_code != 0 && !device_given && no_booted_error(r),
{
}

} // verus!
