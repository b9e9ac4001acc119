//! `mdev kill`: stop the app on devices, or the project's dev server.
use vstd::prelude::*;
use crate::commands::device_op::{platform_logged, run_on_platform, target_platforms, PlatformOutcome};
use crate::commands::device_outcome::{
    error_text, is_multi_device_error, is_no_booted_error, is_not_running_error, multi_device_error,
    no_booted_error, not_running_error,
};
use crate::models::{AppInfo, DevicePlatform, ProjectType};
use crate::paths::{path_starts_with, path_starts_with_exec};
use crate::runner::{HostOs, Level, RunResult, Runner};
use crate::commands::device_op::{adb_args, adb_command, sim_target};
use crate::session::{extends, is_run, opt_str, reply_of, since, strs_view, Call, Session};
use crate::text::{
    all_digits, cat, chars_of, decimal, decimal_text, is_ascii_digit, lines, lines_of, parse_u32,
    parse_u32_spec, split, split_chars, string_of,
};

verus! {

/// Options of `mdev kill`.
#[derive(Debug, Clone)]
pub struct KillArgs {
    /// Target a specific device by id (mobile projects only)
    pub device: Option<String>,
    /// Verbose output
    pub verbose: bool,
}

/// The outcome of `am force-stop` (Android) from its reply.
pub open spec fn force_stop_android_verdict(device_given: bool, r: RunResult) -> Option<bool> {
    if r.exit_code == 0 {
        Some(true)
    } else if !device_given && multi_device_error(r) {
        None
    } else {
        Some(false)
    }
}

/// The outcome of `simctl terminate` from its reply: an app that was not
/// running counts as stopped.
pub open spec fn force_stop_ios_verdict(device_given: bool, r: RunResult) -> Option<bool> {
    if r.exit_code == 0 {
        Some(true)
    } else if !device_given && no_booted_error(r) {
        None
    } else {
        Some(not_running_error(r))
    }
}

/// What `force_stop_on` asks of the runner (`t`) and answers (`res`) for a
/// project `app` on `platform`, with `device` named or not:
/// - Android without a package id: nothing asked, `Some(false)`.
/// - Android: `adb [-s id] shell am force-stop <pkg>`, judged by
///   `force_stop_android_verdict` on its reply.
/// - iOS: the host system first; on Linux or without a bundle id nothing more
///   and `Some(false)`; else `xcrun simctl terminate <target> <bundle>`,
///   judged by `force_stop_ios_verdict` on its reply.
pub open spec fn force_stop_trace(
    app: AppInfo,
    platform: DevicePlatform,
    device: Option<Seq<char>>,
    t: Seq<Call>,
    res: Option<bool>,
) -> bool {
    match platform {
        DevicePlatform::Android => match app.android_package_id {
            None => t.len() == 0 && res == Some(false),
            Some(pkg) => {
                &&& t.len() == 1
                &&& is_run(t[0], "adb"@, adb_args(device, seq!["shell"@, "am"@, "force-stop"@, pkg@]))
                &&& res == force_stop_android_verdict(device is Some, reply_of(t[0]))
            },
        },
        DevicePlatform::Ios => {
            &&& t.len() >= 1
            &&& match t[0] {
                Call::Host { reply } => if reply == HostOs::Linux {
                    t.len() == 1 && res == Some(false)
                } else {
                    match app.ios_bundle_id {
                        None => t.len() == 1 && res == Some(false),
                        Some(b) => {
                            &&& t.len() == 2
                            &&& is_run(t[1], "xcrun"@, seq!["simctl"@, "terminate"@, sim_target(device), b@])
                            &&& res == force_stop_ios_verdict(device is Some, reply_of(t[1]))
                        },
                    }
                },
                _ => false,
            }
        },
    }
}

/// Stops the app on one target. Returns Some(true) on success (app stopped or
/// already not running), Some(false) on real failure, None on device-ambiguity
/// (caller enumerates). See `force_stop_trace` for the requests it makes.
pub fn force_stop_on<R: Runner>(
    runner: &mut Session<R>,
    app_info: &AppInfo,
    platform: DevicePlatform,
    device_id: Option<&str>,
    verbose: bool,
) -> (res: Option<bool>)
    ensures
        extends(old(runner).calls(), final(runner).calls()),
        force_stop_trace(*app_info, platform, opt_str(device_id), since(old(runner).calls(), final(runner).calls()), res),
        device_id is Some ==> res is Some,
{
    let ghost start = runner.calls();
    let d = device_id.is_some();
    match platform {
        DevicePlatform::Android => {
            let pkg = match &app_info.android_package_id {
                Some(id) => id,
                None => {
                    runner.report(Level::Error, "No Android package ID detected.");
                    assert(since(start, runner.calls()) =~= Seq::<Call>::empty());
                    return Some(false);
                },
            };
            let label = match device_id {
                Some(id) => id,
                None => "android",
            };
            runner.report(Level::Detail, &cat(&["Stopping app on ", label, "..."]));
            let tail = ["shell", "am", "force-stop", pkg.as_str()];
            assert(strs_view(tail@) =~= seq!["shell"@, "am"@, "force-stop"@, pkg@]);
            let args = adb_command(device_id, &tail);
            let result = runner.run("adb", args.as_slice(), None);
            assert(since(start, runner.calls()) =~= seq![
                Call::Run { exe: "adb"@, args: strs_view(args@), dir: None, reply: result },
            ]);
            let res = if result.is_success() {
                runner.report(Level::Success, &cat(&["✓ Stopped app on ", label]));
                Some(true)
            } else if !d && is_multi_device_error(&result) {
                None
            } else {
                let err = error_text(&result);
                runner.report(Level::Error, &cat(&["✗ Failed: ", label, " — ", err]));
                if verbose {
                    runner.report(Level::Error, err);
                }
                Some(false)
            };
            assert(since(start, runner.calls()) =~= seq![
                Call::Run { exe: "adb"@, args: strs_view(args@), dir: None, reply: result },
            ]);
            res
        },
        DevicePlatform::Ios => {
            let os = runner.host_os();
            let ghost host = Call::Host { reply: os };
            if os == HostOs::Linux {
                assert(since(start, runner.calls()) =~= seq![host]);
                return Some(false);
            }
            let bundle = match &app_info.ios_bundle_id {
                Some(id) => id,
                None => {
                    runner.report(Level::Error, "No iOS bundle ID detected.");
                    assert(since(start, runner.calls()) =~= seq![host]);
                    return Some(false);
                },
            };
            let target = match device_id {
                Some(id) => id,
                None => "booted",
            };
            let label = match device_id {
                Some(id) => id,
                None => "booted simulator",
            };
            runner.report(Level::Detail, &cat(&["Stopping app on ", label, "..."]));
            let args = ["simctl", "terminate", target, bundle.as_str()];
            assert(strs_view(args@) =~= seq!["simctl"@, "terminate"@, sim_target(opt_str(device_id)), bundle@]);
            let result = runner.run("xcrun", &args, None);
            let ghost call = Call::Run { exe: "xcrun"@, args: strs_view(args@), dir: None, reply: result };
            let res = if result.is_success() {
                runner.report(Level::Success, &cat(&["✓ Stopped app on ", label]));
                Some(true)
            } else if !d && is_no_booted_error(&result) {
                None
            } else if is_not_running_error(&result) {
                runner.report(Level::Warn, &cat(&["• App not running on ", label]));
                Some(true)
            } else {
                let err = error_text(&result);
                runner.report(Level::Error, &cat(&["✗ Failed: ", label, " — ", err]));
                if verbose {
                    runner.report(Level::Error, err);
                }
                Some(false)
            };
            assert(since(start, runner.calls()) =~= seq![host, call]);
            res
        },
    }
}

/// `force_stop_on` on a fresh session over `runner`: the per-device step of
/// the fan-out across running devices.
pub fn force_stop_device<R: Runner>(
    runner: &R,
    app_info: &AppInfo,
    platform: DevicePlatform,
    device_id: Option<&str>,
    verbose: bool,
) -> (res: Option<bool>)
    ensures
        device_id is Some ==> res is Some,
        exists|t: Seq<Call>| #[trigger] force_stop_trace(*app_info, platform, opt_str(device_id), t, res),
{
    let mut s = Session::new(runner);
    let res = force_stop_on(&mut s, app_info, platform, device_id, verbose);
    assert(force_stop_trace(*app_info, platform, opt_str(device_id), since(Seq::<Call>::empty(), s.calls()), res));
    res
}

/// The exit code of a mobile kill across platforms: 1 when there was nothing
/// to target or some platform did not end with every device stopped.
pub open spec fn kill_mobile_exit(outcomes: Seq<PlatformOutcome>) -> i32 {
    if outcomes.len() == 0 || exists|i: int| 0 <= i < outcomes.len() && outcomes[i] != PlatformOutcome::AllOk {
        1
    } else {
        0
    }
}

/// The host question `kill_mobile` asks, made only when the project has an
/// iOS bundle id.
pub open spec fn host_part(host: Option<HostOs>) -> Seq<Call> {
    match host {
        Some(h) => seq![Call::Host { reply: h }],
        None => Seq::empty(),
    }
}

/// `kill_mobile_logged` with the host answer, the requests of each platform
/// and the outcomes named.
pub open spec fn kill_mobile_by<R: Runner>(
    runner: &R,
    app_info: &AppInfo,
    verbose: bool,
    t: Seq<Call>,
    code: i32,
    host: Option<HostOs>,
    segs: Seq<Seq<Call>>,
    outcomes: Seq<PlatformOutcome>,
) -> bool {
    let plats = target_platforms(*app_info, host matches Some(h) && h != HostOs::Linux);
    &&& (host is Some) == (app_info.ios_bundle_id is Some)
    &&& t == host_part(host) + segs.flatten()
    &&& segs.len() == plats.len()
    &&& outcomes.len() == plats.len()
    &&& forall|i: int| 0 <= i < plats.len() ==> #[trigger] platform_logged(force_stop_device::<R>, runner, app_info, plats[i], verbose, segs[i], outcomes[i])
    &&& code == kill_mobile_exit(outcomes)
}

/// What `kill_mobile` without a named device asked (`t`) and answered
/// (`code`): the host question when there is a bundle id, then one
/// `platform_logged` run of the force-stop per targeted platform, in order.
pub open spec fn kill_mobile_logged<R: Runner>(runner: &R, app_info: &AppInfo, verbose: bool, t: Seq<Call>, code: i32) -> bool {
    exists|host: Option<HostOs>, segs: Seq<Seq<Call>>, outcomes: Seq<PlatformOutcome>|
        #[trigger] kill_mobile_by(runner, app_info, verbose, t, code, host, segs, outcomes)
}

/// Force-stops the app on the named device, or on every running device of the
/// platforms the project targets.
pub fn kill_mobile<R: Runner>(runner: &mut Session<R>, app_info: &AppInfo, args: &KillArgs) -> (code: i32)
    ensures
        code == 0 || code == 1,
        extends(old(runner).calls(), final(runner).calls()),
        final(runner).source() == old(runner).source(),
        args.device is None && app_info.android_package_id is None && app_info.ios_bundle_id is None ==> code == 1,
        args.device is None ==> kill_mobile_logged(old(runner).source(), app_info, args.verbose, since(old(runner).calls(), final(runner).calls()), code),
{
    let ghost start = runner.calls();
    let ghost raw = runner.source();
    if let Some(device_id) = &args.device {
        let platform = DevicePlatform::from_device_id(device_id.as_str());
        let v = force_stop_device(runner.source_runner(), app_info, platform, Some(device_id.as_str()), args.verbose);
        return if v == Some(true) { 0 } else { 1 };
    }
    let has_android = app_info.android_package_id.is_some();
    let mut has_ios = false;
    let ghost mut host: Option<HostOs> = None;
    if app_info.ios_bundle_id.is_some() {
        let h = runner.host_os();
        proof { host = Some(h); }
        has_ios = h != HostOs::Linux;
    }
    let ghost plats = target_platforms(*app_info, host matches Some(h) && h != HostOs::Linux);
    let ghost mut segs: Seq<Seq<Call>> = Seq::empty();
    let ghost mut outcomes: Seq<PlatformOutcome> = Seq::empty();
    proof {
        assert(segs.flatten() =~= Seq::<Call>::empty());
        assert(since(start, runner.calls()) =~= host_part(host) + segs.flatten());
    }
    let mut any_fail = false;
    if has_android {
        let ghost before = runner.calls();
        let o = run_on_platform(runner, app_info, DevicePlatform::Android, args.verbose, force_stop_device::<R>);
        proof {
            let seg = since(before, runner.calls());
            segs.lemma_flatten_push(seg);
            crate::session::lemma_since_prefix(start, before, runner.calls());
            assert(since(start, runner.calls()) =~= since(start, before) + seg);
            segs = segs.push(seg);
            outcomes = outcomes.push(o);
            assert(outcomes[0] == o);
            assert(plats[0] == DevicePlatform::Android);
        }
        if o != PlatformOutcome::AllOk {
            any_fail = true;
        }
    }
    assert(any_fail == exists|i: int| 0 <= i < outcomes.len() && outcomes[i] != PlatformOutcome::AllOk);
    if has_ios {
        let ghost before = runner.calls();
        let o = run_on_platform(runner, app_info, DevicePlatform::Ios, args.verbose, force_stop_device::<R>);
        let ghost before_out = outcomes;
        let ghost before_segs = segs;
        proof {
            let seg = since(before, runner.calls());
            segs.lemma_flatten_push(seg);
            crate::session::lemma_since_prefix(start, before, runner.calls());
            assert(since(start, runner.calls()) =~= since(start, before) + seg);
            segs = segs.push(seg);
            outcomes = outcomes.push(o);
            assert(outcomes[outcomes.len() - 1] == o);
            assert forall|i: int| 0 <= i < before_out.len() implies outcomes[i] == before_out[i] && segs[i] == before_segs[i] by {}
        }
        if o != PlatformOutcome::AllOk {
            any_fail = true;
        }
    }
    proof {
        assert(has_ios == (host matches Some(h) && h != HostOs::Linux));
        assert(plats.len() == outcomes.len());
        assert(segs.len() == outcomes.len());
        assert(since(start, runner.calls()) == host_part(host) + segs.flatten());
        assert forall|i: int| 0 <= i < plats.len() implies #[trigger] platform_logged(force_stop_device::<R>, raw, app_info, plats[i], args.verbose, segs[i], outcomes[i]) by {
        }
        assert(kill_mobile_by(raw, app_info, args.verbose, since(start, runner.calls()), kill_mobile_exit(outcomes), host, segs, outcomes));
    }
    if !has_android && !has_ios {
        runner.report(Level::Error, "No Android package ID or iOS bundle ID detected.");
        assert(kill_mobile_exit(outcomes) == 1);
        return 1;
    }
    let code = if any_fail { 1 } else { 0 };
    assert(kill_mobile_exit(outcomes) == code);
    code
}

/// A listening process of the current project: pid, command, port.
#[derive(Debug, Clone, PartialEq)]
pub struct Server {
    pub pid: u32,
    pub command: String,
    pub port: String,
}

/// A listening socket as plain values: pid, command, port.
pub type Listener = (u32, Seq<char>, Seq<char>);

impl View for Server {
    type V = Listener;

    open spec fn view(&self) -> Listener {
        (self.pid, self.command@, self.port@)
    }
}

/// The port of an lsof socket name such as `*:3000`, `127.0.0.1:8000` or
/// `[::1]:3000`: the digits after the last `:`.
pub open spec fn port_of(name: Seq<char>) -> Option<Seq<char>> {
    let last = split(name, ':').last();
    if last.len() > 0 && all_digits(last) {
        Some(last)
    } else {
        None
    }
}

/// Extract the numeric port from an lsof socket name like `*:3000`,
/// `127.0.0.1:8000`, or `[::1]:3000`.
pub fn port_from_name(name: &str) -> (r: Option<String>)
    ensures
        match r {
            Some(p) => port_of(name@) == Some(p@),
            None => port_of(name@) is None,
        },
{
    let v = chars_of(name);
    let pieces = split_chars(v.as_slice(), ':');
    let last = &pieces[pieces.len() - 1];
    assert(pieces.deep_view().last() =~= last@);
    if last.len() == 0 {
        return None;
    }
    let ghost lastv = split(name@, ':').last();
    assert(lastv == last@);
    let mut i: usize = 0;
    while i < last.len()
        invariant
            i <= last@.len(),
            lastv == last@,
            lastv == split(name@, ':').last(),
            forall|k: int| 0 <= k < i ==> crate::text::is_digit(#[trigger] last@[k]),
        decreases last.len() - i,
    {
        if !is_ascii_digit(last[i]) {
            return None;
        }
        i = i + 1;
    }
    Some(string_of(last.as_slice()))
}

/// Reader state over `lsof -F` lines: current pid, current command, and the
/// listening sockets read so far.
pub type LsofState = (Option<u32>, Seq<char>, Seq<Listener>);

/// One `lsof -Fpcn` line: `p<pid>` and `c<command>` describe a process, each
/// following `n<host:port>` is a listening socket of that process.
pub open spec fn lsof_step(st: LsofState, line: Seq<char>) -> LsofState {
    if line.len() == 0 {
        st
    } else {
        let val = line.drop_first();
        if line[0] == 'p' {
            (parse_u32_spec(val), Seq::empty(), st.2)
        } else if line[0] == 'c' {
            (st.0, val, st.2)
        } else if line[0] == 'n' {
            match (st.0, port_of(val)) {
                (Some(pid), Some(port)) => (st.0, st.1, st.2.push((pid, st.1, port))),
                _ => st,
            }
        } else {
            st
        }
    }
}

/// The reader state after `ls`.
pub open spec fn lsof_state(ls: Seq<Seq<char>>) -> LsofState
    decreases ls.len(),
{
    if ls.len() == 0 {
        (None, Seq::empty(), Seq::empty())
    } else {
        lsof_step(lsof_state(ls.drop_last()), ls.last())
    }
}

/// The listening sockets that `lsof -nP -iTCP -sTCP:LISTEN -Fpcn` output lists.
pub open spec fn lsof_listeners(out: Seq<char>) -> Seq<Listener> {
    lsof_state(lines(out)).2
}

/// Reads `lsof -Fpcn` output; see `lsof_listeners`.
pub fn parse_lsof_listeners(out: &str) -> (r: Vec<Server>)
    ensures
        r@.map_values(|s: Server| s@) == lsof_listeners(out@),
{
    let v = chars_of(out);
    let ls = lines_of(v.as_slice());
    let ghost lv = ls.deep_view();
    let mut pid: Option<u32> = None;
    let mut command: Vec<char> = Vec::new();
    let mut entries: Vec<Server> = Vec::new();
    let mut i: usize = 0;
    while i < ls.len()
        invariant
            i <= ls@.len(),
            lv == ls.deep_view(),
            lv == lines(out@),
            (pid, command@, entries@.map_values(|s: Server| s@)) == lsof_state(lv.take(i as int)),
        decreases ls.len() - i,
    {
        assert(lv.take(i + 1).drop_last() =~= lv.take(i as int));
        assert(lv[i as int] == ls@[i as int]@);
        let line = &ls[i];
        if line.len() > 0 {
            let val = slice_rest(line);
            let tag = line[0];
            if tag == 'p' {
                let vs = string_of(val.as_slice());
                pid = parse_u32(vs.as_str());
                command = Vec::new();
            } else if tag == 'c' {
                command = val;
            } else if tag == 'n' {
                let vs = string_of(val.as_slice());
                if let Some(p) = pid {
                    if let Some(port) = port_from_name(vs.as_str()) {
                        let ghost before = entries@.map_values(|s: Server| s@);
                        let s = Server { pid: p, command: string_of(command.as_slice()), port };
                        entries.push(s);
                        assert(entries@.map_values(|s: Server| s@) =~= before.push((p, command@, port@)));
                    }
                }
            }
        }
        i = i + 1;
    }
    assert(lv.take(ls@.len() as int) =~= lv);
    entries
}

/// `line` without its first character.
fn slice_rest(line: &Vec<char>) -> (r: Vec<char>)
    requires
        line@.len() > 0,
    ensures
        r@ == line@.drop_first(),
{
    let r = crate::text::slice_of(line.as_slice(), 1, line.len());
    assert(r@ =~= line@.drop_first());
    r
}

/// The sockets of `entries` whose process runs inside the project (`inside`),
/// each (pid, port) pair once, first occurrence kept.
pub open spec fn select_servers(entries: Seq<Listener>, inside: spec_fn(u32) -> bool) -> Seq<Listener>
    decreases entries.len(),
{
    if entries.len() == 0 {
        Seq::empty()
    } else {
        let prev = select_servers(entries.drop_last(), inside);
        let e = entries.last();
        if inside(e.0) && !(exists|i: int| 0 <= i < prev.len() && #[trigger] prev[i].0 == e.0 && prev[i].2 == e.2) {
            prev.push(e)
        } else {
            prev
        }
    }
}

proof fn lemma_select_agrees(entries: Seq<Listener>, f: spec_fn(u32) -> bool, g: spec_fn(u32) -> bool)
    requires
        forall|i: int| 0 <= i < entries.len() ==> f(#[trigger] entries[i].0) == g(entries[i].0),
    ensures
        select_servers(entries, f) == select_servers(entries, g),
    decreases entries.len(),
{
    if entries.len() > 0 {
        assert forall|i: int| 0 <= i < entries.drop_last().len() implies f(#[trigger] entries.drop_last()[i].0) == g(entries.drop_last()[i].0) by {
            assert(entries.drop_last()[i] == entries[i]);
        }
        lemma_select_agrees(entries.drop_last(), f, g);
        assert(f(entries[entries.len() - 1].0) == g(entries[entries.len() - 1].0));
    }
}

/// The cached verdict for `pid`, if any.
fn cached(cache: &Vec<(u32, bool)>, pid: u32) -> (r: Option<bool>)
    ensures
        match r {
            Some(b) => exists|i: int| 0 <= i < cache@.len() && cache@[i] == (pid, b),
            None => forall|i: int| 0 <= i < cache@.len() ==> (#[trigger] cache@[i]).0 != pid,
        },
{
    let mut i: usize = 0;
    while i < cache.len()
        invariant
            i <= cache@.len(),
            forall|k: int| 0 <= k < i ==> (#[trigger] cache@[k]).0 != pid,
        decreases cache.len() - i,
    {
        if cache[i].0 == pid {
            return Some(cache[i].1);
        }
        i = i + 1;
    }
    None
}

/// Find every process LISTENing on a TCP port whose working directory is
/// inside `root`. Uses `lsof` (no-op returning empty when `lsof` is absent).
pub fn find_project_servers<R: Runner>(runner: &mut Session<R>, root: &str) -> (servers: Vec<Server>)
    ensures
        extends(old(runner).calls(), final(runner).calls()),
        final(runner).source() == old(runner).source(),
        exists|r: RunResult, inside: spec_fn(u32) -> bool|
            since(old(runner).calls(), final(runner).calls())[0] == listeners_probe(r)
            && servers@.map_values(|s: Server| s@) == #[trigger] found_servers(r, inside),
{
    let (servers, Ghost(t)) = find_project_servers_traced(runner, root);
    servers
}

/// `find_project_servers`, with the `lsof` reply it read and which processes it
/// found inside the project.
fn find_project_servers_traced<R: Runner>(runner: &mut Session<R>, root: &str) -> (out: (Vec<Server>, Ghost<(RunResult, spec_fn(u32) -> bool)>))
    ensures
        extends(old(runner).calls(), final(runner).calls()),
        final(runner).source() == old(runner).source(),
        since(old(runner).calls(), final(runner).calls()).len() >= 1,
        since(old(runner).calls(), final(runner).calls())[0] == listeners_probe(out.1@.0),
        out.0@.map_values(|s: Server| s@) == found_servers(out.1@.0, out.1@.1),
{
    let listing_args = ["-nP", "-iTCP", "-sTCP:LISTEN", "-Fpcn"];
    let res = runner.run("lsof", &listing_args, None);
    let ghost listed = runner.calls();
    proof {
        assert(strs_view(listing_args@) =~= seq!["-nP"@, "-iTCP"@, "-sTCP:LISTEN"@, "-Fpcn"@]);
        assert(since(old(runner).calls(), listed)[0] == listeners_probe(res));
    }
    if !res.is_success() {
        let ghost f = |p: u32| false;
        assert(Seq::<Server>::empty().map_values(|s: Server| s@) =~= found_servers(res, f));
        return (Vec::new(), Ghost((res, f)));
    }
    let entries = parse_lsof_listeners(res.stdout.as_str());
    let ghost ev = entries@.map_values(|s: Server| s@);
    let mut cache: Vec<(u32, bool)> = Vec::new();
    let ghost mut known: Map<u32, bool> = Map::empty();
    let mut servers: Vec<Server> = Vec::new();
    let mut k: usize = 0;
    while k < entries.len()
        invariant
            extends(old(runner).calls(), listed),
            extends(listed, runner.calls()),
            listed.len() == old(runner).calls().len() + 1,
            since(old(runner).calls(), listed)[0] == listeners_probe(res),
            runner.source() == old(runner).source(),
            k <= entries@.len(),
            ev == entries@.map_values(|s: Server| s@),
            forall|i: int| 0 <= i < cache@.len() ==> known.contains_key(#[trigger] cache@[i].0) && known[cache@[i].0] == cache@[i].1,
            forall|p: u32| #[trigger] known.contains_key(p) ==> exists|i: int| 0 <= i < cache@.len() && cache@[i].0 == p,
            forall|j: int| 0 <= j < k ==> known.contains_key(#[trigger] ev[j].0),
            servers@.map_values(|s: Server| s@) == select_servers(ev.take(k as int), |p: u32| known.contains_key(p) && known[p]),
        decreases entries.len() - k,
    {
        let e = &entries[k];
        let ghost old_known = known;
        let ok = match cached(&cache, e.pid) {
            Some(b) => {
                proof {
                    let i = choose|i: int| 0 <= i < cache@.len() && cache@[i] == (e.pid, b);
                    assert(known.contains_key(cache@[i].0));
                }
                b
            },
            None => {
                let b = cwd_under(runner, e.pid, root);
                let ghost old_cache = cache@;
                cache.push((e.pid, b));
                proof {
                    known = known.insert(e.pid, b);
                    assert forall|p: u32| #[trigger] known.contains_key(p) implies exists|i: int| 0 <= i < cache@.len() && cache@[i].0 == p by {
                        if p == e.pid {
                            assert(cache@[old_cache.len() as int].0 == p);
                        } else {
                            assert(old_known.contains_key(p));
                            let i = choose|i: int| 0 <= i < old_cache.len() && old_cache[i].0 == p;
                            assert(cache@[i] == old_cache[i]);
                        }
                    }
                    assert forall|i: int| 0 <= i < cache@.len() implies known.contains_key(#[trigger] cache@[i].0) && known[cache@[i].0] == cache@[i].1 by {
                        if i < old_cache.len() {
                            assert(cache@[i] == old_cache[i]);
                            assert(old_cache[i].0 != e.pid);
                        }
                    }
                }
                b
            },
        };
        let ghost f_old = |p: u32| old_known.contains_key(p) && old_known[p];
        let ghost f_new = |p: u32| known.contains_key(p) && known[p];
        proof {
            assert(known.contains_key(e.pid) && known[e.pid] == ok);
            assert forall|i: int| 0 <= i < ev.take(k as int).len() implies f_old(#[trigger] ev.take(k as int)[i].0) == f_new(ev.take(k as int)[i].0) by {
                assert(old_known.contains_key(ev[i].0));
            }
            lemma_select_agrees(ev.take(k as int), f_old, f_new);
            assert(ev.take(k + 1).drop_last() =~= ev.take(k as int));
            assert(ev[k as int] == e@);
        }
        let mut dup = false;
        let mut m: usize = 0;
        while m < servers.len()
            invariant
                m <= servers@.len(),
                dup == exists|i: int| 0 <= i < m && servers@[i].pid == e.pid && servers@[i].port@ == e.port@,
            decreases servers.len() - m,
        {
            if servers[m].pid == e.pid && crate::text::str_eq(servers[m].port.as_str(), e.port.as_str()) {
                dup = true;
            }
            m = m + 1;
        }
        proof {
            let sv = servers@.map_values(|s: Server| s@);
            if dup {
                let i = choose|i: int| 0 <= i < servers@.len() && servers@[i].pid == e.pid && servers@[i].port@ == e.port@;
                assert(sv[i].0 == e@.0 && sv[i].2 == e@.2);
            } else {
                assert forall|i: int| 0 <= i < sv.len() implies !(#[trigger] sv[i].0 == e@.0 && sv[i].2 == e@.2) by {
                    assert(sv[i] == servers@[i]@);
                }
            }
        }
        if ok && !dup {
            let ghost before = servers@.map_values(|s: Server| s@);
            servers.push(Server { pid: e.pid, command: e.command.clone(), port: e.port.clone() });
            assert(servers@.map_values(|s: Server| s@) =~= before.push(e@));
        }
        k = k + 1;
    }
    assert(ev.take(entries@.len() as int) =~= ev);
    let ghost inside = |p: u32| known.contains_key(p) && known[p];
    assert(servers@.map_values(|s: Server| s@) == found_servers(res, inside));
    assert(since(old(runner).calls(), runner.calls())[0] == listed[old(runner).calls().len() as int]);
    (servers, Ghost((res, inside)))
}

/// The servers found from the `lsof` listener reply `r` when `inside` tells
/// which processes run inside the project.
pub open spec fn found_servers(r: RunResult, inside: spec_fn(u32) -> bool) -> Seq<Listener> {
    if r.exit_code == 0 {
        select_servers(lsof_listeners(r.stdout@), inside)
    } else {
        Seq::empty()
    }
}

/// Some `n<path>` line of `lsof -Fn` output names a path at or below `root`.
pub open spec fn cwd_listed_under(out: Seq<char>, root: Seq<char>) -> bool {
    exists|i: int| 0 <= i < lines(out).len() && #[trigger] lines(out)[i].len() > 0 && lines(out)[i][0] == 'n'
        && path_starts_with(lines(out)[i].drop_first(), root)
}

/// The request for the working directory of process `pid`, answered `r`.
pub open spec fn cwd_probe(pid: u32, r: RunResult) -> Call {
    Call::Run {
        exe: "lsof"@,
        args: seq!["-a"@, "-p"@, decimal(pid as nat), "-d"@, "cwd"@, "-Fn"@],
        dir: None,
        reply: r,
    }
}

/// The request for the listening TCP sockets, answered `r`.
pub open spec fn listeners_probe(r: RunResult) -> Call {
    Call::Run { exe: "lsof"@, args: seq!["-nP"@, "-iTCP"@, "-sTCP:LISTEN"@, "-Fpcn"@], dir: None, reply: r }
}

/// The request that stops the server `s`, answered `r`.
pub open spec fn kill_request(s: Listener, r: RunResult) -> Call {
    Call::Run { exe: "kill"@, args: seq!["-TERM"@, decimal(s.0 as nat)], dir: None, reply: r }
}

/// True if process `pid`'s current working directory is at or below `root`.
pub fn cwd_under<R: Runner>(runner: &mut Session<R>, pid: u32, root: &str) -> (b: bool)
    ensures
        final(runner).source() == old(runner).source(),
        exists|r: RunResult| final(runner).calls() == old(runner).calls().push(#[trigger] cwd_probe(pid, r))
            && b == (r.exit_code == 0 && cwd_listed_under(r.stdout@, root@)),
{
    let pid_text = decimal_text(pid as u64);
    let probe_args = ["-a", "-p", pid_text.as_str(), "-d", "cwd", "-Fn"];
    let res = runner.run("lsof", &probe_args, None);
    proof {
        assert(strs_view(probe_args@) =~= seq!["-a"@, "-p"@, decimal(pid as nat), "-d"@, "cwd"@, "-Fn"@]);
        assert(runner.calls() == old(runner).calls().push(cwd_probe(pid, res)));
    }
    if !res.is_success() {
        let ghost c = cwd_listed_under(res.stdout@, root@);
        assert(false == (res.exit_code == 0 && c));
        return false;
    }
    let v = chars_of(res.stdout.as_str());
    let ls = lines_of(v.as_slice());
    let ghost lv = ls.deep_view();
    let mut i: usize = 0;
    while i < ls.len()
        invariant
            runner.calls() == old(runner).calls().push(cwd_probe(pid, res)),
            runner.source() == old(runner).source(),
            i <= ls@.len(),
            lv == ls.deep_view(),
            lv == lines(res.stdout@),
            res.exit_code == 0,
            forall|k: int| 0 <= k < i ==> !(#[trigger] lv[k].len() > 0 && lv[k][0] == 'n' && path_starts_with(lv[k].drop_first(), root@)),
        decreases ls.len() - i,
    {
        assert(lv[i as int] == ls@[i as int]@);
        let line = &ls[i];
        if line.len() > 0 && line[0] == 'n' {
            let rest = slice_rest(line);
            let path = string_of(rest.as_slice());
            if path_starts_with_exec(path.as_str(), root) {
                assert(lv[i as int].len() > 0 && lv[i as int][0] == 'n' && path_starts_with(lv[i as int].drop_first(), root@));
                assert(true == (res.exit_code == 0 && cwd_listed_under(res.stdout@, root@)));
                return true;
            }
        }
        i = i + 1;
    }
    assert(false == (res.exit_code == 0 && cwd_listed_under(res.stdout@, root@)));
    false
}

/// The exit code of a server kill: 1 when some `kill -TERM` failed.
pub open spec fn kill_server_exit(kill_replies: Seq<RunResult>) -> i32 {
    if exists|i: int| 0 <= i < kill_replies.len() && kill_replies[i].exit_code != 0 {
        1
    } else {
        0
    }
}

/// One way a server kill can end in `code`: on Windows it is refused;
/// elsewhere each server found (from the `lsof` reply `r`, with `inside`
/// telling which processes run in the project) got one `kill` reply.
pub open spec fn kill_server_trace(windows: bool, r: RunResult, inside: spec_fn(u32) -> bool, replies: Seq<RunResult>, code: i32) -> bool {
    if windows {
        code == 1
    } else {
        replies.len() == found_servers(r, inside).len() && code == kill_server_exit(replies)
    }
}

/// What a server kill asked (`t`) and answered (`code`): the host question;
/// on Windows nothing more, and 1; elsewhere first the `lsof` listing of the
/// listening sockets and last one `kill -TERM` per server found, in order.
pub open spec fn kill_server_logged(t: Seq<Call>, code: i32) -> bool {
    &&& t.len() >= 1 && t[0] is Host
    &&& if t[0] == (Call::Host { reply: HostOs::Windows }) {
        t.len() == 1 && code == 1
    } else {
        exists|r: RunResult, inside: spec_fn(u32) -> bool, replies: Seq<RunResult>|
            #[trigger] kill_server_trace(false, r, inside, replies, code)
            && t.len() >= 2 + replies.len()
            && t[1] == listeners_probe(r)
            && forall|k: int| 0 <= k < replies.len() ==> t[t.len() - replies.len() + k] == kill_request(found_servers(r, inside)[k], replies[k])
    }
}

/// Kills the dev-server processes of the project at `root`: each listening
/// process whose working directory is inside the project gets `kill -TERM`.
/// Not supported on Windows.
pub fn kill_server<R: Runner>(runner: &mut Session<R>, root: &str, verbose: bool) -> (code: i32)
    ensures
        extends(old(runner).calls(), final(runner).calls()),
        final(runner).source() == old(runner).source(),
        kill_server_logged(since(old(runner).calls(), final(runner).calls()), code),
{
    let ghost start = runner.calls();
    let host = runner.host_os();
    if host == HostOs::Windows {
        runner.report(Level::Error, "`mdev kill` for server projects is not supported on Windows yet.");
        assert(since(start, runner.calls()) =~= seq![Call::Host { reply: host }]);
        return 1;
    }
    let ghost asked = runner.calls();
    runner.report(Level::Detail, "Finding running server for this project...");
    let (servers, Ghost(found)) = find_project_servers_traced(runner, root);
    let ghost kills = runner.calls();
    proof {
        crate::session::lemma_since_prefix(start, asked, kills);
        assert(since(start, kills)[0] == Call::Host { reply: host });
        assert(since(start, kills)[1] == since(asked, kills)[0]);
    }
    if servers.len() == 0 {
        runner.report(Level::Warn, "No running server found for this project.");
        assert(kill_server_trace(false, found.0, found.1, Seq::empty(), 0));
        return 0;
    }
    let ghost mut replies: Seq<RunResult> = Seq::empty();
    let mut any_fail = false;
    let mut i: usize = 0;
    while i < servers.len()
        invariant
            i <= servers@.len(),
            servers@.map_values(|s: Server| s@) == found_servers(found.0, found.1),
            replies.len() == i,
            extends(start, kills),
            extends(kills, runner.calls()),
            runner.source() == old(runner).source(),
            start == old(runner).calls(),
            runner.calls().len() == kills.len() + i,
            forall|k: int| 0 <= k < i ==> #[trigger] runner.calls()[kills.len() + k] == kill_request(found_servers(found.0, found.1)[k], replies[k]),
            any_fail == exists|k: int| 0 <= k < replies.len() && replies[k].exit_code != 0,
        decreases servers.len() - i,
    {
        let s = &servers[i];
        let pid = decimal_text(s.pid as u64);
        let label = cat(&[s.command.as_str(), " (pid ", pid.as_str(), ", port ", s.port.as_str(), ")"]);
        let ghost calls_before = runner.calls();
        let kill_args = ["-TERM", pid.as_str()];
        let result = runner.run("kill", &kill_args, None);
        let ghost before = replies;
        proof {
            assert(strs_view(kill_args@) =~= seq!["-TERM"@, decimal(s.pid as nat)]);
            assert(s@ == found_servers(found.0, found.1)[i as int]);
            assert forall|k: int| 0 <= k < i implies #[trigger] runner.calls()[kills.len() + k] == kill_request(found_servers(found.0, found.1)[k], before[k]) by {
                assert(runner.calls()[kills.len() + k] == calls_before[kills.len() + k]);
            }
            replies = replies.push(result);
            assert forall|k: int| 0 <= k < before.len() implies replies[k] == before[k] by {}
            assert(replies[before.len() as int] == result);
            if exists|k: int| 0 <= k < replies.len() && replies[k].exit_code != 0 {
                let k = choose|k: int| 0 <= k < replies.len() && replies[k].exit_code != 0;
                if k < before.len() {
                    assert(before[k].exit_code != 0);
                }
            }
        }
        if result.is_success() {
            runner.report(Level::Success, &cat(&["✓ Killed ", label.as_str()]));
        } else {
            let err = error_text(&result);
            runner.report(Level::Error, &cat(&["✗ Failed to kill ", label.as_str(), " — ", err]));
            if verbose {
                runner.report(Level::Error, err);
            }
            any_fail = true;
        }
        i = i + 1;
    }
    let code = if any_fail { 1 } else { 0 };
    assert(kill_server_trace(false, found.0, found.1, replies, code));
    proof {
        let t = since(start, runner.calls());
        crate::session::lemma_since_prefix(start, kills, runner.calls());
        assert(t[0] == since(start, kills)[0]);
        assert(t[1] == since(start, kills)[1]);
        assert forall|k: int| 0 <= k < replies.len() implies t[t.len() - replies.len() + k] == kill_request(found_servers(found.0, found.1)[k], replies[k]) by {
            assert(t[t.len() - replies.len() + k] == runner.calls()[kills.len() + k]);
        }
    }
    code
}

/// Runs `mdev kill` for a detected project (`app_info`, found at `root`):
/// mobile projects have the app stopped on devices, other projects have their
/// dev server killed.
pub fn run<R: Runner>(args: &KillArgs, runner: &mut Session<R>, app_info: &AppInfo, root: &str) -> (code: i32)
    ensures
        extends(old(runner).calls(), final(runner).calls()),
        final(runner).source() == old(runner).source(),
        app_info.project_type is Unknown ==> code == 1 && final(runner).calls() == old(runner).calls(),
        (app_info.project_type is Flutter || app_info.project_type is Android || app_info.project_type is Ios) ==> code == 0 || code == 1,
        (app_info.project_type is Flutter || app_info.project_type is Android || app_info.project_type is Ios) && args.device is None && app_info.android_package_id is None
            && app_info.ios_bundle_id is None ==> code == 1,
        (app_info.project_type is Flutter || app_info.project_type is Android || app_info.project_type is Ios) && args.device is None
            ==> kill_mobile_logged(old(runner).source(), app_info, args.verbose, since(old(runner).calls(), final(runner).calls()), code),
        !(app_info.project_type is Unknown) && !(app_info.project_type is Flutter || app_info.project_type is Android || app_info.project_type is Ios)
            ==> kill_server_logged(since(old(runner).calls(), final(runner).calls()), code),
{
    match app_info.project_type {
        ProjectType::Unknown => {
            runner.report(Level::Error, "Could not detect a supported project in current directory.");
            1
        },
        ProjectType::Flutter | ProjectType::Android | ProjectType::Ios => kill_mobile(runner, app_info, args),
        _ => kill_server(runner, root, args.verbose),
    }
}

/// Reading `lsof -Fpcn` output: a `p` line starts a process (with no command
/// yet), a `c` line names it, and an `n` line whose socket name ends in a port
/// adds one listener of the current process with that command and port; an
/// `n` line before any process, or without a port, and any other line add
/// nothing. Listeners already read are never dropped.
pub proof fn lemma_lsof_lines(ls: Seq<Seq<char>>)
    requires
        ls.len() > 0,
    ensures
        ({
            let before = lsof_state(ls.drop_last());
            let after = lsof_state(ls);
            let line = ls.last();
            &&& after.2.len() >= before.2.len()
            &&& after.2.take(before.2.len() as int) == before.2
            &&& (line.len() > 0 && line[0] == 'p') ==> after == (parse_u32_spec(line.drop_first()), Seq::<char>::empty(), before.2)
            &&& (line.len() > 0 && line[0] == 'c') ==> after == (before.0, line.drop_first(), before.2)
            &&& (line.len() > 0 && line[0] == 'n' && before.0 is Some && port_of(line.drop_first()) is Some)
                ==> after == (before.0, before.1, before.2.push((before.0->0, before.1, port_of(line.drop_first())->0)))
            &&& (line.len() > 0 && line[0] == 'n' && (before.0 is None || port_of(line.drop_first()) is None))
                ==> after == before
        }),
{
    let before = lsof_state(ls.drop_last());
    let after = lsof_state(ls);
    assert(after.2.take(before.2.len() as int) =~= before.2);
}

/// A port read from an lsof socket name is the non-empty run of digits after
/// its last `:`.
pub proof fn lemma_port_is_digits(name: Seq<char>)
    ensures
        port_of(name) matches Some(p) ==> p.len() > 0 && all_digits(p) && p == split(name, ':').last(),
{
}

/// Force-stopping succeeds whenever the tool exits 0; on iOS an app that was
/// not running counts as stopped; an unnamed device that cannot be picked
/// (several Android devices, no booted simulator) is left to the caller.
pub proof fn lemma_force_stop_outcomes(device_given: bool, r: RunResult)
    ensures
        r.exit_code == 0 ==> force_stop_android_verdict(device_given, r) == Some(true),
        r.exit_code == 0 ==> force_stop_ios_verdict(device_given, r) == Some(true),
        r.exit_code != 0 ==> force_stop_android_verdict(device_given, r) != Some(true),
        force_stop_android_verdict(device_given, r) is None <==> r.exit_code != 0 && !device_given && multi_device_error(r),
        r.exit_code != 0 && (device_given || !no_booted_error(r)) ==> force_stop_ios_verdict(device_given, r) == Some(not_running_error(r)),
        force_stop_ios_verdict(device_given, r) is None <==> r.exit_code != 0 && !device_given && no_booted_error(r),
{
}

/// The servers killed are exactly the listening sockets whose process runs
/// in the project: each one selected is such a socket, every such socket's
/// process and port is selected, and no process and port is selected twice.
pub proof fn lemma_select_servers(entries: Seq<Listener>, inside: spec_fn(u32) -> bool)
    ensures
        forall|i: int| 0 <= i < select_servers(entries, inside).len()
            ==> inside((#[trigger] select_servers(entries, inside)[i]).0) && entries.contains(select_servers(entries, inside)[i]),
        forall|k: int| 0 <= k < entries.len() && inside((#[trigger] entries[k]).0) ==> exists|i: int|
            0 <= i < select_servers(entries, inside).len() && select_servers(entries, inside)[i].0 == entries[k].0
                && select_servers(entries, inside)[i].2 == entries[k].2,
        forall|i: int, j: int| 0 <= i < j < select_servers(entries, inside).len()
            ==> !((#[trigger] select_servers(entries, inside)[i]).0 == (#[trigger] select_servers(entries, inside)[j]).0
                && select_servers(entries, inside)[i].2 == select_servers(entries, inside)[j].2),
    decreases entries.len(),
{
    if entries.len() > 0 {
        let prev = entries.drop_last();
        lemma_select_servers(prev, inside);
        let p = select_servers(prev, inside);
        let r = select_servers(entries, inside);
        let e = entries.last();
        assert forall|i: int| 0 <= i < r.len() implies inside((#[trigger] r[i]).0) && entries.contains(r[i]) by {
            if i < p.len() {
                assert(r[i] == p[i]);
                let k = choose|k: int| 0 <= k < prev.len() && prev[k] == p[i];
                assert(entries[k] == prev[k]);
            } else {
                assert(entries[entries.len() - 1] == e);
            }
        }
        assert forall|k: int| 0 <= k < entries.len() && inside((#[trigger] entries[k]).0) implies exists|i: int|
            0 <= i < r.len() && r[i].0 == entries[k].0 && r[i].2 == entries[k].2 by {
            if k < entries.len() - 1 {
                assert(prev[k] == entries[k]);
                let i = choose|i: int| 0 <= i < p.len() && p[i].0 == prev[k].0 && p[i].2 == prev[k].2;
                assert(r[i] == p[i]);
            } else {
                if exists|i: int| 0 <= i < p.len() && #[trigger] p[i].0 == e.0 && p[i].2 == e.2 {
                    let i = choose|i: int| 0 <= i < p.len() && #[trigger] p[i].0 == e.0 && p[i].2 == e.2;
                    assert(r[i] == p[i]);
                } else {
                    assert(r[p.len() as int] == e);
                }
            }
        }
    }
}

/// A server kill exits 0 exactly when every `kill` succeeded.
pub proof fn lemma_kill_server_exit(kill_replies: Seq<RunResult>)
    ensures
        kill_server_exit(kill_replies) == 0 <==> forall|i: int| 0 <= i < kill_replies.len() ==> kill_replies[i].exit_code == 0,
{
}

} // verus!
