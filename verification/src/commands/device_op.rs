//! Runs a per-device operation on every running device of the platforms a
//! project targets.
use vstd::prelude::*;
use crate::device_manager::{device_listing, list_running_devices_logged};
use crate::models::{device_views, AppInfo, Device, DevicePlatform, DeviceView};
use crate::runner::{HostOs, Level, RunResult, Runner};
use crate::text::cat;
use crate::session::{extends, opt_str, since, strs_view, Call, Session};

verus! {

/// The arguments of an `adb` command: `-s id` first when a device is named,
/// then `tail`.
pub open spec fn adb_args(device: Option<Seq<char>>, tail: Seq<Seq<char>>) -> Seq<Seq<char>> {
    match device {
        Some(id) => seq!["-s"@, id] + tail,
        None => tail,
    }
}

/// The relaunch arguments of `monkey` for `pkg`.
pub open spec fn monkey_tail(pkg: Seq<char>) -> Seq<Seq<char>> {
    seq!["shell"@, "monkey"@, "-p"@, pkg, "-c"@, "android.intent.category.LAUNCHER"@, "1"@]
}

/// The `simctl` target: the named simulator, else the booted one.
pub open spec fn sim_target(device: Option<Seq<char>>) -> Seq<char> {
    match device {
        Some(id) => id,
        None => "booted"@,
    }
}

/// Builds the arguments of an `adb` command; see `adb_args`.
pub fn adb_command<'b>(device_id: Option<&'b str>, tail: &[&'b str]) -> (v: Vec<&'b str>)
    ensures
        strs_view(v@) == adb_args(opt_str(device_id), strs_view(tail@)),
{
    let mut v: Vec<&'b str> = Vec::new();
    if let Some(id) = device_id {
        v.push("-s");
        v.push(id);
    }
    let ghost head = strs_view(v@);
    assert(head == adb_args(opt_str(device_id), Seq::<Seq<char>>::empty())) by {
        if device_id is Some {
            assert(head =~= seq!["-s"@, device_id->0@]);
            assert(seq!["-s"@, device_id->0@] + Seq::<Seq<char>>::empty() =~= seq!["-s"@, device_id->0@]);
        } else {
            assert(head =~= Seq::<Seq<char>>::empty());
        }
    }
    let mut i: usize = 0;
    while i < tail.len()
        invariant
            i <= tail@.len(),
            strs_view(v@) == head + strs_view(tail@.take(i as int)),
        decreases tail.len() - i,
    {
        let ghost before = v@;
        v.push(tail[i]);
        assert(strs_view(tail@.take(i + 1)) =~= strs_view(tail@.take(i as int)).push(tail@[i as int]@));
        assert(strs_view(v@) =~= strs_view(before).push(tail@[i as int]@));
        i = i + 1;
    }
    assert(tail@.take(i as int) =~= tail@);
    proof {
        match device_id {
            Some(id) => {
                assert(strs_view(v@) =~= seq!["-s"@, id@] + strs_view(tail@));
            },
            None => {
                assert(strs_view(v@) =~= strs_view(tail@));
            },
        }
    }
    v
}

/// Result of running an operation across every device of one platform.
#[derive(Debug, Clone, Copy, PartialEq, Eq, Structural)]
pub enum PlatformOutcome {
    /// Every targeted device succeeded.
    AllOk,
    /// At least one targeted device failed.
    Failed,
    /// The platform has no running devices — nothing was attempted.
    NoDevices,
}

/// The devices of `devs` that run on `platform`, in order.
pub open spec fn devices_on(devs: Seq<DeviceView>, platform: DevicePlatform) -> Seq<DeviceView>
    decreases devs.len(),
{
    if devs.len() == 0 {
        Seq::empty()
    } else {
        let prev = devices_on(devs.drop_last(), platform);
        if devs.last().2 == platform {
            prev.push(devs.last())
        } else {
            prev
        }
    }
}

/// The outcome for one platform from the answer of the probe without a device
/// (`first`) and, when the probe could not pick a device, the answers of the
/// running devices of the platform, one each.
pub open spec fn platform_outcome(first: Option<bool>, answers: Seq<Option<bool>>) -> PlatformOutcome {
    match first {
        Some(true) => PlatformOutcome::AllOk,
        Some(false) => PlatformOutcome::Failed,
        None => if answers.len() == 0 {
            PlatformOutcome::NoDevices
        } else if forall|i: int| 0 <= i < answers.len() ==> answers[i] == Some(true) {
            PlatformOutcome::AllOk
        } else {
            PlatformOutcome::Failed
        },
    }
}

/// `op` may answer `ans` for the device with id `id`.
pub open spec fn answered_for<R: Runner, F: Fn(&R, &AppInfo, DevicePlatform, Option<&str>, bool) -> Option<bool>>(
    op: F,
    runner: &R,
    app_info: &AppInfo,
    platform: DevicePlatform,
    verbose: bool,
    id: Seq<char>,
    ans: Option<bool>,
) -> bool {
    exists|s: &str| s@ == id && #[trigger] call_ensures(op, (runner, app_info, platform, Some(s), verbose), ans)
}

/// How running `op` across `platform` came to `outcome`: the call without a
/// device answered `first`; when that was `None`, `op` was called on each
/// device of `devices` that runs on `platform`, in order, and gave `answers`.
pub open spec fn platform_steps<R: Runner, F: Fn(&R, &AppInfo, DevicePlatform, Option<&str>, bool) -> Option<bool>>(
    op: F,
    runner: &R,
    app_info: &AppInfo,
    platform: DevicePlatform,
    verbose: bool,
    first: Option<bool>,
    answers: Seq<Option<bool>>,
    devices: Seq<DeviceView>,
    outcome: PlatformOutcome,
) -> bool {
    &&& platform_outcome(first, answers) == outcome
    &&& call_ensures(op, (runner, app_info, platform, None::<&str>, verbose), first)
    &&& first is None ==> {
        let targets = devices_on(devices, platform);
        &&& answers.len() == targets.len()
        &&& forall|i: int| 0 <= i < answers.len() ==> #[trigger] answered_for(op, runner, app_info, platform, verbose, targets[i].0, answers[i])
    }
    &&& first is Some ==> answers.len() == 0
}

/// What `run_on_platform` asked itself (`t`) and came to: when the call of
/// `op` without a device decided, nothing; otherwise the listing of the
/// running devices (`device_listing`), whose devices of `platform` were then
/// handed to `op` one by one.
pub open spec fn platform_logged<R: Runner, F: Fn(&R, &AppInfo, DevicePlatform, Option<&str>, bool) -> Option<bool>>(
    op: F,
    runner: &R,
    app_info: &AppInfo,
    platform: DevicePlatform,
    verbose: bool,
    t: Seq<Call>,
    outcome: PlatformOutcome,
) -> bool {
    exists|first: Option<bool>, answers: Seq<Option<bool>>, devices: Seq<DeviceView>|
        #[trigger] platform_steps(op, runner, app_info, platform, verbose, first, answers, devices, outcome)
        && (first is Some ==> t.len() == 0)
        && (first is None ==> device_listing(t, devices))
}

/// `outcome` is what running `op` across `platform` came to for some requests
/// of its own.
pub open spec fn platform_run<R: Runner, F: Fn(&R, &AppInfo, DevicePlatform, Option<&str>, bool) -> Option<bool>>(
    op: F,
    runner: &R,
    app_info: &AppInfo,
    platform: DevicePlatform,
    verbose: bool,
    outcome: PlatformOutcome,
) -> bool {
    exists|t: Seq<Call>| #[trigger] platform_logged(op, runner, app_info, platform, verbose, t, outcome)
}

/// The platforms a project targets: Android when it has a package id, iOS when
/// it has a bundle id and simulators can exist on the host.
pub open spec fn target_platforms(app_info: AppInfo, ios_possible: bool) -> Seq<DevicePlatform> {
    let a: Seq<DevicePlatform> = if app_info.android_package_id is Some {
        seq![DevicePlatform::Android]
    } else {
        Seq::empty()
    };
    if app_info.ios_bundle_id is Some && ios_possible {
        a.push(DevicePlatform::Ios)
    } else {
        a
    }
}

/// The exit code for the per-platform outcomes: 0 when some platform had a
/// device and none failed; 1 when there was no platform, no platform had a
/// device, or one failed. A platform without devices is skipped, not failed.
pub open spec fn all_platforms_exit(outcomes: Seq<PlatformOutcome>) -> i32 {
    if (exists|i: int| 0 <= i < outcomes.len() && outcomes[i] != PlatformOutcome::NoDevices)
        && !(exists|i: int| 0 <= i < outcomes.len() && outcomes[i] == PlatformOutcome::Failed) {
        0
    } else {
        1
    }
}

/// One way running `op` on every targeted platform can end in exit code
/// `code`: the platforms targeted (iOS only where simulators can exist) gave
/// `outcomes`, one each, in order.
pub open spec fn all_platforms_trace<R: Runner, F: Fn(&R, &AppInfo, DevicePlatform, Option<&str>, bool) -> Option<bool>>(
    op: F,
    runner: &R,
    app_info: &AppInfo,
    verbose: bool,
    ios_possible: bool,
    outcomes: Seq<PlatformOutcome>,
    code: i32,
) -> bool {
    let plats = target_platforms(*app_info, ios_possible);
    &&& outcomes.len() == plats.len()
    &&& forall|i: int| 0 <= i < outcomes.len() ==> #[trigger] platform_run(op, runner, app_info, plats[i], verbose, outcomes[i])
    &&& code == all_platforms_exit(outcomes)
}

/// What `run_on_all_platforms` asked itself (`t`) and answered (`code`): the
/// host question, which decides whether iOS is targeted, then one
/// `platform_logged` run per targeted platform, in order.
pub open spec fn all_platforms_logged<R: Runner, F: Fn(&R, &AppInfo, DevicePlatform, Option<&str>, bool) -> Option<bool>>(
    op: F,
    runner: &R,
    app_info: &AppInfo,
    verbose: bool,
    t: Seq<Call>,
    code: i32,
) -> bool {
    exists|host: HostOs, segs: Seq<Seq<Call>>, outcomes: Seq<PlatformOutcome>|
        #[trigger] all_platforms_by(op, runner, app_info, verbose, t, code, host, segs, outcomes)
}

/// The platforms a project targets on a host that answered `host`.
pub open spec fn host_targets(app_info: AppInfo, host: HostOs) -> Seq<DevicePlatform> {
    target_platforms(app_info, host != HostOs::Linux)
}

/// `all_platforms_logged` with the host, the requests of each platform and
/// the outcomes named.
pub open spec fn all_platforms_by<R: Runner, F: Fn(&R, &AppInfo, DevicePlatform, Option<&str>, bool) -> Option<bool>>(
    op: F,
    runner: &R,
    app_info: &AppInfo,
    verbose: bool,
    t: Seq<Call>,
    code: i32,
    host: HostOs,
    segs: Seq<Seq<Call>>,
    outcomes: Seq<PlatformOutcome>,
) -> bool {
    let plats = host_targets(*app_info, host);
    &&& t == seq![Call::Host { reply: host }] + segs.flatten()
    &&& segs.len() == plats.len()
    &&& outcomes.len() == plats.len()
    &&& forall|i: int| 0 <= i < plats.len() ==> #[trigger] platform_logged(op, runner, app_info, plats[i], verbose, segs[i], outcomes[i])
    &&& code == all_platforms_exit(outcomes)
}

/// What `run_on_all_platforms` records gives one `all_platforms_trace`.
pub proof fn lemma_logged_platforms<R: Runner, F: Fn(&R, &AppInfo, DevicePlatform, Option<&str>, bool) -> Option<bool>>(
    op: F,
    runner: &R,
    app_info: &AppInfo,
    verbose: bool,
    t: Seq<Call>,
    code: i32,
)
    requires
        all_platforms_logged(op, runner, app_info, verbose, t, code),
    ensures
        exists|ios_possible: bool, outcomes: Seq<PlatformOutcome>|
            #[trigger] all_platforms_trace(op, runner, app_info, verbose, ios_possible, outcomes, code),
{
    let (host, segs, outcomes) = choose|host: HostOs, segs: Seq<Seq<Call>>, outcomes: Seq<PlatformOutcome>|
        #[trigger] all_platforms_by(op, runner, app_info, verbose, t, code, host, segs, outcomes);
    assert(all_platforms_by(op, runner, app_info, verbose, t, code, host, segs, outcomes));
    let plats = host_targets(*app_info, host);
    assert(outcomes.len() == plats.len());
    assert forall|i: int| 0 <= i < outcomes.len() implies #[trigger] platform_run(op, runner, app_info, plats[i], verbose, outcomes[i]) by {
        assert(platform_logged(op, runner, app_info, plats[i], verbose, segs[i], outcomes[i]));
    }
    assert(all_platforms_trace(op, runner, app_info, verbose, host != HostOs::Linux, outcomes, code));
}

/// Whether every answer so far was `Some(true)`.
fn all_true(answers: Ghost<Seq<Option<bool>>>, ok: usize, n: usize) -> (b: bool)
    requires
        ok <= n == answers@.len(),
        ok == answers@.filter(|a: Option<bool>| a == Some(true)).len(),
    ensures
        b == forall|i: int| 0 <= i < n ==> answers@[i] == Some(true),
{
    proof {
        lemma_count_true(answers@);
    }
    ok == n
}

proof fn lemma_count_true(a: Seq<Option<bool>>)
    ensures
        a.filter(|x: Option<bool>| x == Some(true)).len() <= a.len(),
        (a.filter(|x: Option<bool>| x == Some(true)).len() == a.len()) == (forall|i: int|
            0 <= i < a.len() ==> a[i] == Some(true)),
    decreases a.len(),
{
    reveal(Seq::filter);
    if a.len() > 0 {
        lemma_count_true(a.drop_last());
        let p = |x: Option<bool>| x == Some(true);
        if forall|i: int| 0 <= i < a.len() ==> a[i] == Some(true) {
            assert forall|i: int| 0 <= i < a.drop_last().len() implies a.drop_last()[i] == Some(true) by {
                assert(a[i] == Some(true));
            }
        }
        if forall|i: int| 0 <= i < a.drop_last().len() ==> a.drop_last()[i] == Some(true) {
            if a.last() == Some(true) {
                assert forall|i: int| 0 <= i < a.len() implies a[i] == Some(true) by {
                    if i < a.len() - 1 {
                        assert(a.drop_last()[i] == Some(true));
                    }
                }
            }
        }
    }
}

/// Apply `op` to every connected device of `platform`. First tries `op` with no
/// explicit device (fast path); on `None` (op couldn't pick a device on its own)
/// it enumerates the running devices of that platform and runs `op` on each.
/// `op(runner, app_info, platform, device_id, verbose)` gets the session's
/// runner; the session records the listing requests made here.
pub fn run_on_platform<R: Runner, F: Fn(&R, &AppInfo, DevicePlatform, Option<&str>, bool) -> Option<bool>>(
    runner: &mut Session<R>,
    app_info: &AppInfo,
    platform: DevicePlatform,
    verbose: bool,
    op: F,
) -> (res: PlatformOutcome)
    requires
        forall|r: &R, a: &AppInfo, p: DevicePlatform, d: Option<&str>, v: bool| op.requires((r, a, p, d, v)),
    ensures
        extends(old(runner).calls(), final(runner).calls()),
        final(runner).source() == old(runner).source(),
        platform_logged(op, old(runner).source(), app_info, platform, verbose, since(old(runner).calls(), final(runner).calls()), res),
{
    let ghost start = runner.calls();
    let raw = runner.source_runner();
    let first = op(raw, app_info, platform, None, verbose);
    match first {
        Some(b) => {
            let res = if b { PlatformOutcome::AllOk } else { PlatformOutcome::Failed };
            let ghost none: Seq<DeviceView> = Seq::empty();
            assert(platform_steps(op, raw, app_info, platform, verbose, first, Seq::empty(), none, res));
            assert(since(start, runner.calls()).len() == 0);
            return res;
        },
        None => {},
    }
    let devices = list_running_devices_logged(runner);
    let ghost all = device_views(devices@);
    let ghost targets = devices_on(all, platform);
    let mut answers: Ghost<Seq<Option<bool>>> = Ghost(Seq::empty());
    let mut ok: usize = 0;
    let mut i: usize = 0;
    while i < devices.len()
        invariant
            i <= devices@.len(),
            device_views(devices@) == all,
            targets == devices_on(all, platform),
            answers@.len() == devices_on(all.take(i as int), platform).len(),
            forall|j: int| 0 <= j < answers@.len() ==> #[trigger] answered_for(op, raw, app_info, platform, verbose, devices_on(all.take(i as int), platform)[j].0, answers@[j]),
            ok == answers@.filter(|a: Option<bool>| a == Some(true)).len(),
            ok <= answers@.len(),
            ok <= i,
            forall|r: &R, a: &AppInfo, p: DevicePlatform, d: Option<&str>, v: bool| op.requires((r, a, p, d, v)),
        decreases devices.len() - i,
    {
        let ghost before = devices_on(all.take(i as int), platform);
        assert(all.take(i + 1).drop_last() =~= all.take(i as int));
        assert(all.take(i + 1).last() == devices@[i as int]@);
        if devices[i].platform == platform {
            let s = devices[i].id.as_str();
            let ans = op(raw, app_info, platform, Some(s), verbose);
            let ghost old_answers = answers@;
            proof {
                answers@ = answers@.push(ans);
                assert(answers@.drop_last() =~= old_answers);
                reveal(Seq::filter);
                assert(answered_for(op, raw, app_info, platform, verbose, devices@[i as int]@.0, ans));
                let now = devices_on(all.take(i + 1), platform);
                assert(now == before.push(devices@[i as int]@));
                assert forall|j: int| 0 <= j < answers@.len() implies #[trigger] answered_for(op, raw, app_info, platform, verbose, now[j].0, answers@[j]) by {
                    if j < old_answers.len() {
                        assert(now[j] == before[j]);
                        assert(answers@[j] == old_answers[j]);
                    }
                }
            }
            if ans == Some(true) {
                ok = ok + 1;
            }
        }
        i = i + 1;
    }
    assert(all.take(devices@.len() as int) =~= all);
    let count = devices_targeted(&devices, platform);
    if count == 0 {
        assert(platform_steps(op, raw, app_info, platform, verbose, first, answers@, all, PlatformOutcome::NoDevices));
        return PlatformOutcome::NoDevices;
    }
    let res = if all_true(answers, ok, count) { PlatformOutcome::AllOk } else { PlatformOutcome::Failed };
    assert(platform_steps(op, raw, app_info, platform, verbose, first, answers@, all, res));
    res
}

/// The number of devices of `devices` that run on `platform`.
fn devices_targeted(devices: &Vec<Device>, platform: DevicePlatform) -> (n: usize)
    ensures
        n == devices_on(device_views(devices@), platform).len(),
{
    let ghost all = device_views(devices@);
    let mut n: usize = 0;
    let mut i: usize = 0;
    while i < devices.len()
        invariant
            i <= devices@.len(),
            all == device_views(devices@),
            n == devices_on(all.take(i as int), platform).len(),
            n <= i,
        decreases devices.len() - i,
    {
        assert(all.take(i + 1).drop_last() =~= all.take(i as int));
        if devices[i].platform == platform {
            n = n + 1;
        }
        i = i + 1;
    }
    assert(all.take(devices@.len() as int) =~= all);
    n
}

/// Run `op` on every platform the project targets (Android when it has a
/// package id, iOS when it has a bundle id and we're not on Linux) and turn the
/// per-platform outcomes into a process exit code.
///
/// A platform with no running devices is skipped, not failed: a Flutter project
/// with only a booted simulator must not report an Android error. Only when no
/// platform has any device does the whole run report a problem.
pub fn run_on_all_platforms<R: Runner, F: Fn(&R, &AppInfo, DevicePlatform, Option<&str>, bool) -> Option<bool> + Copy>(
    runner: &mut Session<R>,
    app_info: &AppInfo,
    verbose: bool,
    op: F,
) -> (code: i32)
    requires
        forall|r: &R, a: &AppInfo, p: DevicePlatform, d: Option<&str>, v: bool| op.requires((r, a, p, d, v)),
    ensures
        extends(old(runner).calls(), final(runner).calls()),
        final(runner).source() == old(runner).source(),
        all_platforms_logged(op, old(runner).source(), app_info, verbose, since(old(runner).calls(), final(runner).calls()), code),
{
    let ghost start = runner.calls();
    let ghost raw = runner.source();
    let host = runner.host_os();
    let ghost asked = runner.calls();
    let ios_possible = host != HostOs::Linux;
    let ghost plats = target_platforms(*app_info, ios_possible);
    let mut platforms: Vec<DevicePlatform> = Vec::new();
    if app_info.android_package_id.is_some() {
        platforms.push(DevicePlatform::Android);
    }
    if app_info.ios_bundle_id.is_some() && ios_possible {
        platforms.push(DevicePlatform::Ios);
    }
    assert(platforms@ =~= plats);
    let ghost mut segs: Seq<Seq<Call>> = Seq::empty();
    proof {
        assert(segs.flatten() =~= Seq::<Call>::empty());
        assert(since(start, asked) =~= seq![Call::Host { reply: host }] + segs.flatten());
    }
    if platforms.len() == 0 {
        runner.report(Level::Error, "No Android package ID or iOS bundle ID detected.");
        assert(all_platforms_by(op, raw, app_info, verbose, since(start, runner.calls()), 1, host, segs, Seq::empty()));
        return 1;
    }
    let mut outcomes: Vec<PlatformOutcome> = Vec::new();
    let mut i: usize = 0;
    while i < platforms.len()
        invariant
            i <= platforms@.len(),
            platforms@ == plats,
            plats == host_targets(*app_info, host),
            outcomes@.len() == i,
            segs.len() == i,
            start == old(runner).calls(),
            raw == old(runner).source(),
            runner.source() == raw,
            extends(start, runner.calls()),
            since(start, runner.calls()) == seq![Call::Host { reply: host }] + segs.flatten(),
            forall|j: int| 0 <= j < i ==> #[trigger] platform_logged(op, raw, app_info, plats[j], verbose, segs[j], outcomes@[j]),
            forall|r: &R, a: &AppInfo, p: DevicePlatform, d: Option<&str>, v: bool| op.requires((r, a, p, d, v)),
        decreases platforms.len() - i,
    {
        let ghost before = runner.calls();
        let o = run_on_platform(runner, app_info, platforms[i], verbose, op);
        proof {
            let seg = since(before, runner.calls());
            segs.lemma_flatten_push(seg);
            crate::session::lemma_since_prefix(start, before, runner.calls());
            assert(since(start, runner.calls()) =~= since(start, before) + seg);
            segs = segs.push(seg);
        }
        outcomes.push(o);
        i = i + 1;
    }
    let ghost done = runner.calls();
    assert(all_platforms_by(op, raw, app_info, verbose, since(start, done), all_platforms_exit(outcomes@), host, segs, outcomes@));
    let mut any_device = false;
    let mut any_failed = false;
    let mut k: usize = 0;
    while k < outcomes.len()
        invariant
            runner.calls() == done,
            k <= outcomes@.len(),
            any_device == exists|j: int| 0 <= j < k && outcomes@[j] != PlatformOutcome::NoDevices,
            any_failed == exists|j: int| 0 <= j < k && outcomes@[j] == PlatformOutcome::Failed,
        decreases outcomes.len() - k,
    {
        if outcomes[k] != PlatformOutcome::NoDevices {
            any_device = true;
        }
        if outcomes[k] == PlatformOutcome::Failed {
            any_failed = true;
        }
        k = k + 1;
    }
    if !any_device {
        if platforms.len() == 2 {
            runner.report(Level::Warn, "No running Android or iOS devices found.");
        } else {
            runner.report(Level::Warn, &cat(&["No running ", platforms[0].label(), " devices found."]));
        }
        return 1;
    }
    let mut m: usize = 0;
    while m < outcomes.len()
        invariant
            runner.calls() == done,
            runner.source() == raw,
            m <= outcomes@.len(),
            outcomes@.len() == platforms@.len(),
        decreases outcomes.len() - m,
    {
        if outcomes[m] == PlatformOutcome::NoDevices {
            runner.report(Level::Detail, &cat(&["No running ", platforms[m].label(), " devices — skipped."]));
        }
        m = m + 1;
    }
    let code = if any_failed { 1 } else { 0 };
    code
}

/// A platform without running devices is skipped: adding it to the outcomes of
/// a run that reached a device changes nothing.
pub proof fn lemma_deviceless_platform_is_skipped(outcomes: Seq<PlatformOutcome>)
    requires
        exists|i: int| 0 <= i < outcomes.len() && outcomes[i] != PlatformOutcome::NoDevices,
    ensures
        all_platforms_exit(outcomes.push(PlatformOutcome::NoDevices)) == all_platforms_exit(outcomes),
        all_platforms_exit(seq![PlatformOutcome::NoDevices] + outcomes) == all_platforms_exit(outcomes),
{
    let a = outcomes.push(PlatformOutcome::NoDevices);
    let b = seq![PlatformOutcome::NoDevices] + outcomes;
    let i = choose|i: int| 0 <= i < outcomes.len() && outcomes[i] != PlatformOutcome::NoDevices;
    assert(a[i] != PlatformOutcome::NoDevices);
    assert(b[i + 1] != PlatformOutcome::NoDevices);
    if exists|j: int| 0 <= j < a.len() && a[j] == PlatformOutcome::Failed {
        let j = choose|j: int| 0 <= j < a.len() && a[j] == PlatformOutcome::Failed;
        assert(outcomes[j] == PlatformOutcome::Failed);
    }
    if exists|j: int| 0 <= j < outcomes.len() && outcomes[j] == PlatformOutcome::Failed {
        let j = choose|j: int| 0 <= j < outcomes.len() && outcomes[j] == PlatformOutcome::Failed;
        assert(a[j] == PlatformOutcome::Failed);
        assert(b[j + 1] == PlatformOutcome::Failed);
    }
    if exists|j: int| 0 <= j < b.len() && b[j] == PlatformOutcome::Failed {
        let j = choose|j: int| 0 <= j < b.len() && b[j] == PlatformOutcome::Failed;
        assert(outcomes[j - 1] == PlatformOutcome::Failed);
    }
}

/// The run succeeds exactly when some platform reached a device and no
/// platform failed; with no platform at all it fails.
pub proof fn lemma_exit_zero_iff(outcomes: Seq<PlatformOutcome>)
    ensures
        (all_platforms_exit(outcomes) == 0) == ((exists|i: int| 0 <= i < outcomes.len() && outcomes[i] != PlatformOutcome::NoDevices)
            && (forall|i: int| 0 <= i < outcomes.len() ==> outcomes[i] != PlatformOutcome::Failed)),
        outcomes.len() == 0 ==> all_platforms_exit(outcomes) == 1,
{
}

/// The exit code across platforms: any failed platform fails the command;
/// with no platform, or no device on any platform, it fails too; otherwise
/// (some platform had devices and all of them succeeded) it succeeds.
pub proof fn lemma_all_platforms_exit(outcomes: Seq<PlatformOutcome>)
    ensures
        (exists|i: int| 0 <= i < outcomes.len() && outcomes[i] == PlatformOutcome::Failed)
            ==> all_platforms_exit(outcomes) == 1,
        (forall|i: int| 0 <= i < outcomes.len() ==> outcomes[i] == PlatformOutcome::NoDevices)
            ==> all_platforms_exit(outcomes) == 1,
        (forall|i: int| 0 <= i < outcomes.len() ==> outcomes[i] != PlatformOutcome::Failed)
            && (exists|i: int| 0 <= i < outcomes.len() && outcomes[i] == PlatformOutcome::AllOk)
            ==> all_platforms_exit(outcomes) == 0,
{
}

/// Android is targeted exactly when the project has a package id, iOS exactly
/// when it has a bundle id and simulators can exist on the host, Android first.
pub proof fn lemma_target_platforms(app_info: AppInfo, ios_possible: bool)
    ensures
        target_platforms(app_info, ios_possible).contains(DevicePlatform::Android)
            <==> app_info.android_package_id is Some,
        target_platforms(app_info, ios_possible).contains(DevicePlatform::Ios)
            <==> (app_info.ios_bundle_id is Some && ios_possible),
        target_platforms(app_info, ios_possible).len() <= 2,
        app_info.android_package_id is Some ==> target_platforms(app_info, ios_possible)[0] == DevicePlatform::Android,
{
    let t = target_platforms(app_info, ios_possible);
    if app_info.android_package_id is Some {
        assert(t[0] == DevicePlatform::Android);
    }
    if app_info.ios_bundle_id is Some && ios_possible {
        assert(t[t.len() - 1] == DevicePlatform::Ios);
    }
    if t.contains(DevicePlatform::Android) {
        let k = choose|k: int| 0 <= k < t.len() && t[k] == DevicePlatform::Android;
    }
    if t.contains(DevicePlatform::Ios) {
        let k = choose|k: int| 0 <= k < t.len() && t[k] == DevicePlatform::Ios;
    }
}

} // verus!
