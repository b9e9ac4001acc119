//! `mdev sim a`: start an Android emulator and wait for it to boot, or stop it.
use vstd::prelude::*;
use crate::commands::tool_locator;
use crate::runner::{seconds, Level, RunResult, Runner};
use crate::session::{extends, is_run, reply_of, since, spares_emulators, strs_view, Call, Session};
use crate::text::{
    cat, chars_eq, chars_of, first_word, first_word_chars, has_char, has_char_chars, has_ws,
    has_ws_chars, lines, lines_of, remove_char, remove_char_chars, starts_with, starts_with_chars,
    opt_view, string_of, trim, trim_chars,
};

verus! {

/// Options of `mdev sim a`.
#[derive(Debug, Clone)]
pub struct AndroidArgs {
    /// AVD to start (default: the first one from `emulator -list-avds`).
    pub avd: Option<String>,
    /// Stop the emulator instead of starting it (every running one when --avd is omitted).
    pub off: bool,
}

/// How often, and how many times, to re-check a pending state.
#[derive(Debug)]
pub struct PollConfig {
    pub attempts: u32,
    pub interval: std::time::Duration,
}

impl PollConfig {
    /// Waiting for a freshly launched emulator to register with adb.
    pub fn serial() -> (p: Self)
        ensures
            p.attempts == 60,
    {
        PollConfig { attempts: 60, interval: seconds(2) }
    }

    /// Waiting for a registered emulator to finish booting.
    pub fn boot() -> (p: Self)
        ensures
            p.attempts == 90,
    {
        PollConfig { attempts: 90, interval: seconds(2) }
    }
}

/// Whether a trimmed line of `emulator -list-avds` names an AVD (the log lines
/// it interleaves hold spaces, `|` or `:`).
pub open spec fn avd_name_line(t: Seq<char>) -> bool {
    t.len() > 0 && !has_ws(t) && !has_char(t, '|') && !has_char(t, ':')
}

/// AVD names among `ls`, trimmed, in order.
pub open spec fn avd_names(ls: Seq<Seq<char>>) -> Seq<Seq<char>>
    decreases ls.len(),
{
    if ls.len() == 0 {
        Seq::empty()
    } else {
        let prev = avd_names(ls.drop_last());
        if avd_name_line(trim(ls.last())) { prev.push(trim(ls.last())) } else { prev }
    }
}

/// The views of strings.
pub open spec fn views(v: Seq<String>) -> Seq<Seq<char>> {
    v.map_values(|s: String| s@)
}

/// AVD names from `emulator -list-avds`, dropping the log lines it interleaves.
pub fn parse_avd_names(stdout: &str) -> (r: Vec<String>)
    ensures
        views(r@) == avd_names(lines(stdout@)),
{
    let v = chars_of(stdout);
    let ls = lines_of(v.as_slice());
    let ghost lv = ls.deep_view();
    let mut out: Vec<String> = Vec::new();
    let mut i: usize = 0;
    while i < ls.len()
        invariant
            i <= ls@.len(),
            lv == ls.deep_view(),
            lv == lines(stdout@),
            views(out@) == avd_names(lv.take(i as int)),
        decreases ls.len() - i,
    {
        assert(lv.take(i + 1).drop_last() =~= lv.take(i as int));
        assert(lv[i as int] == ls@[i as int]@);
        let t = trim_chars(ls[i].as_slice());
        if t.len() > 0 && !has_ws_chars(t.as_slice()) && !has_char_chars(t.as_slice(), '|') && !has_char_chars(t.as_slice(), ':') {
            let ghost before = views(out@);
            out.push(string_of(t.as_slice()));
            assert(views(out@) =~= before.push(t@));
        }
        i = i + 1;
    }
    assert(lv.take(ls@.len() as int) =~= lv);
    out
}

/// The emulator serials of `adb devices` lines: each line's first word, when it
/// starts with `emulator-`.
pub open spec fn emulator_serials(ls: Seq<Seq<char>>) -> Seq<Seq<char>>
    decreases ls.len(),
{
    if ls.len() == 0 {
        Seq::empty()
    } else {
        let prev = emulator_serials(ls.drop_last());
        match first_word(ls.last()) {
            Some(w) => if starts_with(w, "emulator-"@) { prev.push(w) } else { prev },
            None => prev,
        }
    }
}

/// Emulator serials from `adb devices` (physical and network devices excluded).
pub fn parse_emulator_serials(stdout: &str) -> (r: Vec<String>)
    ensures
        views(r@) == emulator_serials(lines(stdout@)),
{
    let v = chars_of(stdout);
    let ls = lines_of(v.as_slice());
    let ghost lv = ls.deep_view();
    let prefix = chars_of("emulator-");
    let mut out: Vec<String> = Vec::new();
    let mut i: usize = 0;
    while i < ls.len()
        invariant
            i <= ls@.len(),
            lv == ls.deep_view(),
            lv == lines(stdout@),
            prefix@ == "emulator-"@,
            views(out@) == emulator_serials(lv.take(i as int)),
        decreases ls.len() - i,
    {
        assert(lv.take(i + 1).drop_last() =~= lv.take(i as int));
        assert(lv[i as int] == ls@[i as int]@);
        if let Some(w) = first_word_chars(ls[i].as_slice()) {
            if starts_with_chars(w.as_slice(), prefix.as_slice()) {
                let ghost before = views(out@);
                out.push(string_of(w.as_slice()));
                assert(views(out@) =~= before.push(w@));
            }
        }
        i = i + 1;
    }
    assert(lv.take(ls@.len() as int) =~= lv);
    out
}

/// A line of an `adb emu avd name` reply without carriage returns, trimmed.
pub open spec fn reply_line(line: Seq<char>) -> Seq<char> {
    trim(remove_char(line, '\r'))
}

/// The first line among `ls` that is neither empty nor `OK`.
pub open spec fn avd_reply(ls: Seq<Seq<char>>) -> Option<Seq<char>>
    decreases ls.len(),
{
    if ls.len() == 0 {
        None
    } else {
        let c = reply_line(ls[0]);
        if c.len() > 0 && c != "OK"@ { Some(c) } else { avd_reply(ls.drop_first()) }
    }
}

/// `adb emu avd name` answers with the name followed by an `OK` status line.
pub fn parse_avd_reply(stdout: &str) -> (r: Option<String>)
    ensures
        crate::text::opt_view(r) == avd_reply(lines(stdout@)),
{
    let v = chars_of(stdout);
    let ls = lines_of(v.as_slice());
    let ghost lv = ls.deep_view();
    let ok = chars_of("OK");
    let mut i: usize = 0;
    assert(lv.skip(0) =~= lv);
    while i < ls.len()
        invariant
            i <= ls@.len(),
            lv == ls.deep_view(),
            lv == lines(stdout@),
            ok@ == "OK"@,
            avd_reply(lv) == avd_reply(lv.skip(i as int)),
        decreases ls.len() - i,
    {
        assert(lv.skip(i as int).drop_first() =~= lv.skip(i + 1));
        assert(lv.skip(i as int)[0] == ls@[i as int]@);
        let cleaned = remove_char_chars(ls[i].as_slice(), '\r');
        let c = trim_chars(cleaned.as_slice());
        if c.len() > 0 && !chars_eq(c.as_slice(), ok.as_slice()) {
            return Some(string_of(c.as_slice()));
        }
        i = i + 1;
    }
    None
}

/// The log file of an emulator started for `avd` in the scratch directory
/// `dir`.
pub open spec fn log_path_in(dir: Seq<char>, avd: Seq<char>) -> Seq<char> {
    crate::paths::path_join(dir, "mdev-emulator-"@ + avd + ".log"@)
}

/// The log file of an emulator started for `avd`, in the runner's scratch
/// directory.
pub fn log_path_for<R: Runner>(runner: &mut Session<R>, avd: &str) -> (r: String)
    ensures
        spares_emulators(old(runner).calls(), final(runner).calls()),
        exists|dir: Seq<char>| r@ == #[trigger] crate::paths::path_join(dir, "mdev-emulator-"@ + avd@ + ".log"@),
        since(old(runner).calls(), final(runner).calls()).len() == 1,
        since(old(runner).calls(), final(runner).calls())[0] is TempDir,
        r@ == log_path_in(since(old(runner).calls(), final(runner).calls())[0]->TempDir_reply, avd@),
{
    let a = crate::text::concat("mdev-emulator-", avd);
    let name = crate::text::concat(a.as_str(), ".log");
    let dir = runner.temp_dir();
    let r = crate::paths::join_path(dir.as_str(), name.as_str());
    assert(r@ == crate::paths::path_join(dir@, "mdev-emulator-"@ + avd@ + ".log"@));
    r
}

/// The first of `serials` whose `avd name` reply names `avd`.
pub open spec fn first_hosting(serials: Seq<Seq<char>>, replies: Seq<RunResult>, avd: Seq<char>) -> Option<Seq<char>>
    decreases serials.len(),
{
    if serials.len() == 0 || replies.len() == 0 {
        None
    } else if avd_reply(lines(replies[0].stdout@)) == Some(avd) {
        Some(serials[0])
    } else {
        first_hosting(serials.drop_first(), replies.drop_first(), avd)
    }
}

/// The `avd name` questions `t` of `adb` to the first emulators of
/// `serials`, in order.
pub open spec fn avd_asks(adb: Seq<char>, serials: Seq<Seq<char>>, t: Seq<Call>) -> bool {
    t.len() <= serials.len() && forall|i: int| 0 <= i < t.len() ==> is_run(#[trigger] t[i], adb, seq!["-s"@, serials[i], "emu"@, "avd"@, "name"@])
}

/// Whether the reply to an `avd name` question `c` names `avd`.
pub open spec fn names_avd(c: Call, avd: Seq<char>) -> bool {
    avd_reply(lines(reply_of(c).stdout@)) == Some(avd)
}

/// The search of `serial_for_avd`, recorded as exactly `t`, found `r`: the
/// `adb devices` listing, then the `avd name` question to each emulator listed,
/// in order, up to the first whose reply names `avd`; that emulator is the
/// result, or none when no reply named it.
pub open spec fn hosting_trace(adb: Seq<char>, avd: Seq<char>, t: Seq<Call>, r: Option<Seq<char>>) -> bool {
    let serials = emulator_serials(lines(reply_of(t[0]).stdout@));
    let asks = t.skip(1);
    &&& t.len() >= 1
    &&& is_run(t[0], adb, seq!["devices"@])
    &&& avd_asks(adb, serials, asks)
    &&& forall|i: int| 0 <= i < asks.len() - 1 ==> !names_avd(#[trigger] asks[i], avd)
    &&& match r {
        None => asks.len() == serials.len() && (asks.len() > 0 ==> !names_avd(asks[asks.len() - 1], avd)),
        Some(s) => asks.len() >= 1 && names_avd(asks[asks.len() - 1], avd) && s == serials[asks.len() - 1],
    }
}

/// Serial of the running emulator hosting `avd`, if any: the `adb devices`
/// listing is read, then each emulator is asked which AVD it hosts.
pub fn serial_for_avd<R: Runner>(adb: &str, runner: &mut Session<R>, avd: &str) -> (r: Option<String>)
    ensures
        spares_emulators(old(runner).calls(), final(runner).calls()),
        exists|listing: RunResult, replies: Seq<RunResult>|
            crate::text::opt_view(r) == #[trigger] first_hosting(emulator_serials(lines(listing.stdout@)), replies, avd@),
        extends(old(runner).calls(), final(runner).calls()),
        hosting_trace(adb@, avd@, since(old(runner).calls(), final(runner).calls()), crate::text::opt_view(r)),
{
    let ghost start = runner.calls();
    let devices = ["devices"];
    assert(strs_view(devices@) =~= seq!["devices"@]);
    let listed = runner.run(adb, &devices, None);
    let ghost listed_at = runner.calls();
    let serials = parse_emulator_serials(listed.stdout.as_str());
    let ghost sv = views(serials@);
    let ghost mut replies: Seq<RunResult> = Seq::empty();
    let mut i: usize = 0;
    while i < serials.len()
        invariant
            spares_emulators(old(runner).calls(), runner.calls()),
            i <= serials@.len(),
            sv == views(serials@),
            sv == emulator_serials(lines(listed.stdout@)),
            replies.len() == i,
            forall|k: int| 0 <= k < i ==> avd_reply(lines(#[trigger] replies[k].stdout@)) != Some(avd@),
            start == old(runner).calls(),
            extends(start, listed_at),
            extends(listed_at, runner.calls()),
            since(start, listed_at) == seq![Call::Run { exe: adb@, args: seq!["devices"@], dir: None, reply: listed }],
            since(listed_at, runner.calls()).len() == i,
            avd_asks(adb@, sv, since(listed_at, runner.calls())),
            forall|k: int| 0 <= k < i ==> !names_avd(#[trigger] since(listed_at, runner.calls())[k], avd@),
        decreases serials.len() - i,
    {
        let ghost before = runner.calls();
        let ask = ["-s", serials[i].as_str(), "emu", "avd", "name"];
        assert(strs_view(ask@) =~= seq!["-s"@, sv[i as int], "emu"@, "avd"@, "name"@]);
        let reply = runner.run(adb, &ask, None);
        proof {
            let now = since(listed_at, runner.calls());
            assert(now.drop_last() =~= since(listed_at, before));
            assert forall|k: int| 0 <= k < now.len() implies is_run(#[trigger] now[k], adb@, seq!["-s"@, sv[k], "emu"@, "avd"@, "name"@]) by {
                if k < now.len() - 1 {
                    assert(now[k] == since(listed_at, before)[k]);
                }
            }
            assert forall|k: int| 0 <= k < i implies !names_avd(#[trigger] now[k], avd@) by {
                assert(now[k] == since(listed_at, before)[k]);
            }
            assert(reply_of(now[i as int]) == reply);
        }
        let name = parse_avd_reply(reply.stdout.as_str());
        let ghost before = replies;
        proof {
            replies = replies.push(reply);
            assert forall|k: int| 0 <= k < before.len() implies replies[k] == before[k] by {}
        }
        let hit = match &name {
            Some(n) => crate::text::str_eq(n.as_str(), avd),
            None => false,
        };
        if hit {
            let r = Some(serials[i].clone());
            proof {
                lemma_first_hosting(sv, replies, avd@, i as int);
                lemma_hosting_done(adb@, avd@, start, listed_at, runner.calls(), crate::text::opt_view(r));
            }
            return r;
        }
        i = i + 1;
    }
    proof {
        lemma_first_hosting_none(sv, replies, avd@);
        lemma_hosting_done(adb@, avd@, start, listed_at, runner.calls(), None);
    }
    None
}

proof fn lemma_hosting_done(adb: Seq<char>, avd: Seq<char>, start: Seq<Call>, listed_at: Seq<Call>, end: Seq<Call>, r: Option<Seq<char>>)
    requires
        extends(start, listed_at),
        extends(listed_at, end),
        since(start, listed_at).len() == 1,
        is_run(since(start, listed_at)[0], adb, seq!["devices"@]),
        avd_asks(adb, emulator_serials(lines(reply_of(since(start, listed_at)[0]).stdout@)), since(listed_at, end)),
        forall|i: int| 0 <= i < since(listed_at, end).len() - 1 ==> !names_avd(#[trigger] since(listed_at, end)[i], avd),
        match r {
            None => since(listed_at, end).len() == emulator_serials(lines(reply_of(since(start, listed_at)[0]).stdout@)).len()
                && (since(listed_at, end).len() > 0 ==> !names_avd(since(listed_at, end)[since(listed_at, end).len() - 1], avd)),
            Some(s) => since(listed_at, end).len() >= 1 && names_avd(since(listed_at, end)[since(listed_at, end).len() - 1], avd)
                && s == emulator_serials(lines(reply_of(since(start, listed_at)[0]).stdout@))[since(listed_at, end).len() - 1],
        },
    ensures
        hosting_trace(adb, avd, since(start, end), r),
{
    crate::session::lemma_since_prefix(start, listed_at, end);
    let t = since(start, end);
    assert(t[0] == since(start, listed_at)[0]);
    assert(t.skip(1) =~= since(listed_at, end));
}

proof fn lemma_first_hosting(serials: Seq<Seq<char>>, replies: Seq<RunResult>, avd: Seq<char>, i: int)
    requires
        0 <= i < serials.len(),
        replies.len() == i + 1,
        avd_reply(lines(replies[i].stdout@)) == Some(avd),
        forall|k: int| 0 <= k < i ==> avd_reply(lines(#[trigger] replies[k].stdout@)) != Some(avd),
    ensures
        first_hosting(serials, replies, avd) == Some(serials[i]),
    decreases i,
{
    if i > 0 {
        assert forall|k: int| 0 <= k < i - 1 implies avd_reply(lines(#[trigger] replies.drop_first()[k].stdout@)) != Some(avd) by {
            assert(replies.drop_first()[k] == replies[k + 1]);
        }
        assert(replies.drop_first()[i - 1] == replies[i]);
        lemma_first_hosting(serials.drop_first(), replies.drop_first(), avd, i - 1);
    }
}

proof fn lemma_first_hosting_none(serials: Seq<Seq<char>>, replies: Seq<RunResult>, avd: Seq<char>)
    requires
        replies.len() == serials.len(),
        forall|k: int| 0 <= k < replies.len() ==> avd_reply(lines(#[trigger] replies[k].stdout@)) != Some(avd),
    ensures
        first_hosting(serials, replies, avd) is None,
    decreases serials.len(),
{
    if serials.len() > 0 {
        assert forall|k: int| 0 <= k < replies.len() - 1 implies avd_reply(lines(#[trigger] replies.drop_first()[k].stdout@)) != Some(avd) by {
            assert(replies.drop_first()[k] == replies[k + 1]);
        }
        lemma_first_hosting_none(serials.drop_first(), replies.drop_first(), avd);
    }
}

/// `c` asks emulator `serial` through `adb` for the system property
/// `property`.
pub open spec fn is_getprop(c: Call, adb: Seq<char>, serial: Seq<char>, property: Seq<char>) -> bool {
    is_run(c, adb, seq!["-s"@, serial, "shell"@, "getprop"@, property])
}

/// The value a property request `c` got: its reply without carriage returns,
/// trimmed.
pub open spec fn prop_value(c: Call) -> Seq<char> {
    trim(remove_char(reply_of(c).stdout@, '\r'))
}

/// The value of a system property: the reply without carriage returns, trimmed.
pub fn getprop<R: Runner>(adb: &str, runner: &mut Session<R>, serial: &str, property: &str) -> (r: String)
    ensures
        spares_emulators(old(runner).calls(), final(runner).calls()),
        exists|reply: RunResult| r@ == #[trigger] trim(remove_char(reply.stdout@, '\r')),
        since(old(runner).calls(), final(runner).calls()).len() == 1,
        is_getprop(since(old(runner).calls(), final(runner).calls())[0], adb@, serial@, property@),
        r@ == prop_value(since(old(runner).calls(), final(runner).calls())[0]),
{
    let ask = ["-s", serial, "shell", "getprop", property];
    assert(strs_view(ask@) =~= seq!["-s"@, serial@, "shell"@, "getprop"@, property@]);
    let result = runner.run(adb, &ask, None);
    assert(since(old(runner).calls(), runner.calls())[0] == runner.calls().last());
    let v = chars_of(result.stdout.as_str());
    let cleaned = remove_char_chars(v.as_slice(), '\r');
    let t = trim_chars(cleaned.as_slice());
    string_of(t.as_slice())
}

/// Round `i` of the boot polls `t`: `sys.boot_completed`, then
/// `init.svc.bootanim`, of emulator `serial`.
pub open spec fn boot_round(adb: Seq<char>, serial: Seq<char>, t: Seq<Call>, i: int) -> bool {
    is_getprop(t[2 * i], adb, serial, "sys.boot_completed"@) && is_getprop(t[2 * i + 1], adb, serial, "init.svc.bootanim"@)
}

/// Round `i` of the boot polls `t` saw the boot completed: `1` and `stopped`.
pub open spec fn boot_seen(t: Seq<Call>, i: int) -> bool {
    prop_value(t[2 * i]) == "1"@ && prop_value(t[2 * i + 1]) == "stopped"@
}

/// The boot polls of emulator `serial`, recorded as exactly `t`, came to
/// `booted`: rounds of the two property requests, no round but the last saw
/// the boot completed; booted exactly when the last round did; without it,
/// all `attempts` rounds were asked.
pub open spec fn boot_polls(adb: Seq<char>, serial: Seq<char>, t: Seq<Call>, attempts: u32, booted: bool) -> bool {
    &&& t.len() % 2 == 0
    &&& t.len() <= 2 * attempts
    &&& forall|i: int| 0 <= i < t.len() / 2 ==> #[trigger] boot_round(adb, serial, t, i)
    &&& forall|i: int| 0 <= i < t.len() / 2 - 1 ==> !#[trigger] boot_seen(t, i)
    &&& booted == (t.len() > 0 && boot_seen(t, t.len() / 2 - 1))
    &&& !booted ==> t.len() == 2 * attempts
}

/// Waits until the emulator reports `sys.boot_completed` = `1` and its boot
/// animation has stopped, asking at most `poll.attempts` times.
pub fn wait_for_boot<R: Runner>(adb: &str, runner: &mut Session<R>, serial: &str, poll: &PollConfig) -> (booted: bool)
    ensures
        spares_emulators(old(runner).calls(), final(runner).calls()),
        poll.attempts == 0 ==> !booted,
        boot_polls(adb@, serial@, since(old(runner).calls(), final(runner).calls()), poll.attempts, booted),
{
    let ghost start = runner.calls();
    let mut attempt: u32 = 0;
    while attempt < poll.attempts
        invariant
            spares_emulators(old(runner).calls(), runner.calls()),
            attempt <= poll.attempts,
            start == old(runner).calls(),
            since(start, runner.calls()).len() == 2 * attempt,
            forall|i: int| 0 <= i < attempt ==> #[trigger] boot_round(adb@, serial@, since(start, runner.calls()), i),
            forall|i: int| 0 <= i < attempt ==> !#[trigger] boot_seen(since(start, runner.calls()), i),
        decreases poll.attempts - attempt,
    {
        let ghost before = runner.calls();
        let boot_completed = getprop(adb, runner, serial, "sys.boot_completed");
        let ghost mid = runner.calls();
        let bootanim = getprop(adb, runner, serial, "init.svc.bootanim");
        let ghost after = runner.calls();
        proof {
            let t = since(start, after);
            let t0 = since(start, before);
            assert(t.len() == t0.len() + 2);
            assert forall|j: int| 0 <= j < t0.len() implies t[j] == t0[j] by {}
            assert(t[2 * attempt] == since(before, mid)[0]);
            assert(t[2 * attempt + 1] == since(mid, after)[0]);
            assert forall|i: int| 0 <= i < attempt implies #[trigger] boot_round(adb@, serial@, t, i) by {
                assert(boot_round(adb@, serial@, t0, i));
                assert(t[2 * i] == t0[2 * i]);
                assert(t[2 * i + 1] == t0[2 * i + 1]);
            }
            assert forall|i: int| 0 <= i < attempt implies !#[trigger] boot_seen(t, i) by {
                assert(!boot_seen(t0, i));
                assert(t[2 * i] == t0[2 * i]);
                assert(t[2 * i + 1] == t0[2 * i + 1]);
            }
            assert(boot_round(adb@, serial@, t, attempt as int));
        }
        if crate::text::str_eq(boot_completed.as_str(), "1") && crate::text::str_eq(bootanim.as_str(), "stopped") {
            proof {
                assert(boot_seen(since(start, runner.calls()), attempt as int));
            }
            return true;
        }
        proof {
            assert(!boot_seen(since(start, runner.calls()), attempt as int));
        }
        if attempt + 1 < poll.attempts {
            runner.pause(poll.interval);
        }
        attempt = attempt + 1;
    }
    false
}

/// The launch of the emulator binary `emulator` for `avd`, recorded as `t`:
/// first the spawn with `-avd <avd>` and `extra` and its output appended to
/// `log_path`; when the spawn failed nothing more, and no success.
pub open spec fn launch_trace(
    emulator: Seq<char>,
    adb: Seq<char>,
    avd: Seq<char>,
    extra: Seq<Seq<char>>,
    log_path: Seq<char>,
    t: Seq<Call>,
    ok: bool,
) -> bool {
    &&& t.len() >= 1
    &&& t[0] is Spawn
    &&& t[0] == (Call::Spawn { exe: emulator, args: seq!["-avd"@, avd] + extra, log_path, started: t[0]->Spawn_started })
    &&& !t[0]->Spawn_started ==> t.len() == 1 && !ok
}

/// The launch recorded as `t` ends with the search of `serial_for_avd` that
/// found `serial` hosting `avd`.
pub open spec fn launched_serial(adb: Seq<char>, avd: Seq<char>, t: Seq<Call>, serial: Seq<char>) -> bool {
    exists|k: int| 1 <= k <= t.len() && #[trigger] hosting_trace(adb, avd, t.skip(k), Some(serial))
}

/// Spawns the emulator for `avd` (with `extra_args` after `-avd <avd>`) and
/// waits for it to register with adb, failing fast when the process dies first
/// (bad AVD name, stale lock, broken SDK path).
pub fn launch<R: Runner>(
    emulator: &str,
    adb: &str,
    runner: &mut Session<R>,
    avd: &str,
    extra_args: &[&str],
    log_path: &str,
    poll: &PollConfig,
) -> (r: Result<String, String>)
    ensures
        extends(old(runner).calls(), final(runner).calls()),
        spares_emulators(old(runner).calls(), final(runner).calls()),
        poll.attempts == 0 ==> r is Err,
        r matches Ok(s) ==> exists|listing: RunResult, replies: Seq<RunResult>|
            Some(s@) == #[trigger] first_hosting(emulator_serials(lines(listing.stdout@)), replies, avd@),
        launch_trace(emulator@, adb@, avd@, strs_view(extra_args@), log_path@, since(old(runner).calls(), final(runner).calls()), r is Ok),
        r is Ok ==> launched_serial(adb@, avd@, since(old(runner).calls(), final(runner).calls()), r->Ok_0@),
{
    let ghost start = runner.calls();
    let mut args: Vec<&str> = Vec::new();
    args.push("-avd");
    args.push(avd);
    let mut k: usize = 0;
    while k < extra_args.len()
        invariant
            spares_emulators(old(runner).calls(), runner.calls()),
            runner.calls() == start,
            k <= extra_args@.len(),
            args@ == seq!["-avd", avd] + extra_args@.take(k as int),
        decreases extra_args.len() - k,
    {
        args.push(extra_args[k]);
        proof {
            assert(extra_args@.take(k + 1) =~= extra_args@.take(k as int).push(extra_args@[k as int]));
        }
        k = k + 1;
    }
    proof {
        assert(extra_args@.take(k as int) =~= extra_args@);
        assert(strs_view(args@) =~= seq!["-avd"@, avd@] + strs_view(extra_args@));
    }
    let spawned = runner.spawn_detached(emulator, args.as_slice(), log_path);
    let ghost spawned_at = runner.calls();
    let mut process = match spawned {
        Some(p) => p,
        None => {
            return Err(cat(&["Could not start the emulator binary at ", emulator]));
        },
    };
    let mut attempt: u32 = 0;
    while attempt < poll.attempts
        invariant
            spares_emulators(old(runner).calls(), runner.calls()),
            attempt <= poll.attempts,
            start == old(runner).calls(),
            extends(start, spawned_at),
            extends(spawned_at, runner.calls()),
            since(start, spawned_at) == seq![Call::Spawn {
                exe: emulator@,
                args: seq!["-avd"@, avd@] + strs_view(extra_args@),
                log_path: log_path@,
                started: true,
            }],
        decreases poll.attempts - attempt,
    {
        let ghost before = runner.calls();
        if let Some(code) = process.exit_code() {
            let code_text = if code < 0 {
                cat(&["-", crate::text::decimal_text((0i64 - code as i64) as u64).as_str()])
            } else {
                crate::text::decimal_text(code as u64)
            };
            proof {
                crate::session::lemma_since_prefix(start, spawned_at, runner.calls());
                assert(since(start, runner.calls())[0] == since(start, spawned_at)[0]);
            }
            return Err(cat(&["emulator exited with code ", code_text.as_str(), " before registering with adb"]));
        }
        let found = serial_for_avd(adb, runner, avd);
        if let Some(serial) = found {
            proof {
                crate::session::lemma_since_prefix(start, before, runner.calls());
                crate::session::lemma_since_prefix(start, spawned_at, before);
                let k = since(start, before).len() as int;
                assert(since(start, runner.calls()).skip(k) =~= since(before, runner.calls()));
                assert(k >= 1);
                assert(hosting_trace(adb@, avd@, since(start, runner.calls()).skip(k), Some(serial@)));

                assert(since(start, runner.calls())[0] == since(start, spawned_at)[0]);
            }
            return Ok(serial);
        }
        if attempt + 1 < poll.attempts {
            runner.pause(poll.interval);
        }
        attempt = attempt + 1;
    }
    let total = crate::text::decimal_text(poll.attempts as u64);
    proof {
        crate::session::lemma_since_prefix(start, spawned_at, runner.calls());
        assert(since(start, runner.calls())[0] == since(start, spawned_at)[0]);
    }
    Err(cat(&["emulator did not register with adb after ", total.as_str(), " attempts"]))
}

/// Kills the emulator hosting `--avd`, or every running emulator when it is
/// omitted.
pub fn stop<R: Runner>(args: &AndroidArgs, runner: &mut Session<R>) -> (code: i32)
    ensures
        extends(old(runner).calls(), final(runner).calls()),
        code == 0 || code == 1,
        args.avd is None ==> stop_all_trace(since(old(runner).calls(), final(runner).calls()), code),
        args.avd matches Some(avd) ==> stop_one_trace(avd@, since(old(runner).calls(), final(runner).calls()), code),
{
    let ghost start = runner.calls();
    let adb = match tool_locator::adb(runner) {
        Some(a) => a,
        None => {
            runner.report(Level::Error, "adb not found — install the Android SDK platform-tools or set ANDROID_HOME");
            proof {
                let t = since(start, runner.calls());
                assert(t.take(t.len() as int) =~= t);
                assert(tool_locator::find_trace("adb"@, "ANDROID_HOME"@, seq!["platform-tools"@], t.take(t.len() as int), None));
                if args.avd is Some {
                    assert(stop_one_trace(args.avd->0@, t, 1));
                }
            }
            return 1;
        },
    };
    let ghost found = runner.calls();
    let serials: Vec<String> = match &args.avd {
        Some(avd) => match serial_for_avd(adb.as_str(), runner, avd.as_str()) {
            Some(serial) => vec![serial],
            None => {
                runner.report(Level::Info, &cat(&["AVD ", avd.as_str(), " is not running"]));
                proof {
                    lemma_stop_one(avd@, adb@, start, found, runner.calls(), runner.calls(), None, 0);
                }
                return 0;
            },
        },
        None => {
            let devices = ["devices"];
            assert(strs_view(devices@) =~= seq!["devices"@]);
            let listed = runner.run(adb.as_str(), &devices, None);
            parse_emulator_serials(listed.stdout.as_str())
        },
    };
    let ghost listed_at = runner.calls();
    let ghost sv = views(serials@);
    proof {
        if args.avd is Some {
            assert(hosting_trace(adb@, args.avd->0@, since(found, listed_at), Some(sv[0])));
        }
    }
    if serials.len() == 0 {
        runner.report(Level::Info, "No running emulators");
        proof {
            if args.avd is None {
                lemma_stop_all(adb@, start, found, listed_at, listed_at, 0);
            }
        }
        return 0;
    }
    let mut exit_code: i32 = 0;
    let mut i: usize = 0;
    while i < serials.len()
        invariant
            extends(old(runner).calls(), runner.calls()),
            exit_code == 0 || exit_code == 1,
            extends(listed_at, runner.calls()),
            sv == views(serials@),
            i <= serials@.len(),
            kills(adb@, sv.take(i as int), since(listed_at, runner.calls())),
            exit_code == (if all_killed(since(listed_at, runner.calls())) { 0i32 } else { 1i32 }),
        decreases serials.len() - i,
    {
        let ghost before = runner.calls();
        let serial = serials[i].as_str();
        let kill = ["-s", serial, "emu", "kill"];
        assert(strs_view(kill@) =~= seq!["-s"@, sv[i as int], "emu"@, "kill"@]);
        let killed = runner.run(adb.as_str(), &kill, None);
        proof {
            let now = since(listed_at, runner.calls());
            assert(now.drop_last() =~= since(listed_at, before));
            assert(sv.take(i + 1).drop_last() =~= sv.take(i as int));
            assert forall|m: int| 0 <= m < now.len() implies is_run(#[trigger] now[m], adb@, seq!["-s"@, sv.take(i + 1)[m], "emu"@, "kill"@]) by {
                if m < now.len() - 1 {
                    assert(now[m] == since(listed_at, before)[m]);
                }
            }
            assert(reply_of(now[now.len() - 1]) == killed);
            if all_killed(now) {
                assert forall|m: int| 0 <= m < since(listed_at, before).len() implies reply_of(#[trigger] since(listed_at, before)[m]).exit_code == 0 by {
                    assert(now[m] == since(listed_at, before)[m]);
                    assert(reply_of(now[m]).exit_code == 0);
                }
                assert(all_killed(since(listed_at, before)));
                assert(reply_of(now[now.len() - 1]).exit_code == 0);
            }
            if all_killed(since(listed_at, before)) && killed.exit_code == 0 {
                assert forall|m: int| 0 <= m < now.len() implies reply_of(#[trigger] now[m]).exit_code == 0 by {
                    if m < now.len() - 1 {
                        assert(now[m] == since(listed_at, before)[m]);
                    }
                }
            }
        }
        if killed.is_success() {
            runner.report(Level::Success, &cat(&["Emulator off: ", serial]));
        } else {
            exit_code = 1;
            runner.report(Level::Error, &cat(&["Failed to stop ", serial]));
            let reason = crate::commands::device_outcome::error_text(&killed);
            if !reason.is_empty() {
                let t = crate::text::trim_str(reason);
                runner.report(Level::Detail, t.as_str());
            }
        }
        i = i + 1;
    }
    proof {
        assert(sv.take(i as int) =~= sv);
        if args.avd is None {
            lemma_stop_all(adb@, start, found, listed_at, runner.calls(), exit_code);
        } else {
            let t = since(listed_at, runner.calls());
            assert(t.len() == 1);
            assert(all_killed(t) == (reply_of(t[0]).exit_code == 0));
            lemma_stop_one(args.avd->0@, adb@, start, found, listed_at, runner.calls(), Some(sv[0]), exit_code);
        }
    }
    exit_code
}

/// What `stop` asks (`t`) and answers (`code`) for the named `avd`: the
/// lookup of `adb` (1 when it is not found); then the search of
/// `serial_for_avd`; when no emulator hosts `avd`, nothing more and 0;
/// otherwise exactly one `adb -s <serial> emu kill` of that emulator, and 0
/// exactly when it worked.
pub open spec fn stop_one_trace(avd: Seq<char>, t: Seq<Call>, code: i32) -> bool {
    exists|k: int, adb: Option<Seq<char>>|
        1 <= k <= t.len() && #[trigger] tool_locator::find_trace("adb"@, "ANDROID_HOME"@, seq!["platform-tools"@], t.take(k), adb)
            && match adb {
            None => t.len() == k && code == 1,
            Some(a) => stop_one_rest(a, avd, t, k, code),
        }
}

/// The part of `stop_one_trace` after the lookup of `adb` (the first `k`
/// requests of `t`).
pub open spec fn stop_one_rest(adb: Seq<char>, avd: Seq<char>, t: Seq<Call>, k: int, code: i32) -> bool {
    exists|h: int, s: Option<Seq<char>>|
        k < h <= t.len() && #[trigger] hosting_trace(adb, avd, t.subrange(k, h), s) && match s {
            None => h == t.len() && code == 0,
            Some(serial) => t.len() == h + 1 && is_run(t[h], adb, seq!["-s"@, serial, "emu"@, "kill"@])
                && code == (if reply_of(t[h]).exit_code == 0 { 0i32 } else { 1i32 }),
        }
}

proof fn lemma_stop_one(
    avd: Seq<char>,
    adb: Seq<char>,
    start: Seq<Call>,
    found: Seq<Call>,
    listed_at: Seq<Call>,
    end: Seq<Call>,
    s: Option<Seq<char>>,
    code: i32,
)
    requires
        extends(start, found),
        extends(found, listed_at),
        extends(listed_at, end),
        tool_locator::find_trace("adb"@, "ANDROID_HOME"@, seq!["platform-tools"@], since(start, found), Some(adb)),
        hosting_trace(adb, avd, since(found, listed_at), s),
        s is None ==> end == listed_at && code == 0,
        s matches Some(serial) ==> since(listed_at, end).len() == 1
            && is_run(since(listed_at, end)[0], adb, seq!["-s"@, serial, "emu"@, "kill"@])
            && code == (if reply_of(since(listed_at, end)[0]).exit_code == 0 { 0i32 } else { 1i32 }),
    ensures
        stop_one_trace(avd, since(start, end), code),
{
    crate::session::lemma_since_prefix(start, found, listed_at);
    crate::session::lemma_since_prefix(start, listed_at, end);
    let t = since(start, end);
    let k = since(start, found).len() as int;
    let h = since(start, listed_at).len() as int;
    assert(t.take(k) =~= since(start, found));
    assert(t.subrange(k, h) =~= since(found, listed_at));
    assert(since(found, listed_at).len() >= 1);
    if s is Some {
        assert(t[h] == since(listed_at, end)[0]);
    }
    assert(hosting_trace(adb, avd, t.subrange(k, h), s));
    assert(tool_locator::find_trace("adb"@, "ANDROID_HOME"@, seq!["platform-tools"@], t.take(k), Some(adb)));
    assert(k >= 1);
    assert(k < h <= t.len());
    if s is None {
        assert(h == t.len());
    } else {
        assert(t.len() == h + 1);
        assert(is_run(t[h], adb, seq!["-s"@, s->0, "emu"@, "kill"@]));
    }
    assert(stop_one_rest(adb, avd, t, k, code));
}

/// The `emu kill` requests `t` of `adb` for each of `serials`, in order.
pub open spec fn kills(adb: Seq<char>, serials: Seq<Seq<char>>, t: Seq<Call>) -> bool {
    t.len() == serials.len() && forall|i: int| 0 <= i < t.len() ==> is_run(#[trigger] t[i], adb, seq!["-s"@, serials[i], "emu"@, "kill"@])
}

/// Every request of `t` was answered with exit code 0.
pub open spec fn all_killed(t: Seq<Call>) -> bool {
    forall|i: int| 0 <= i < t.len() ==> reply_of(#[trigger] t[i]).exit_code == 0
}

/// What `stop` asks (`t`) and answers (`code`) when no AVD is named: the
/// lookup of `adb` (1 when it is not found); then `adb devices`; then
/// `adb -s <serial> emu kill` for each emulator listed, in order, and nothing
/// else (no AVD names are asked for); 0 exactly when every kill worked.
pub open spec fn stop_all_trace(t: Seq<Call>, code: i32) -> bool {
    exists|k: int, adb: Option<Seq<char>>|
        1 <= k <= t.len() && #[trigger] tool_locator::find_trace("adb"@, "ANDROID_HOME"@, seq!["platform-tools"@], t.take(k), adb)
            && match adb {
            None => t.len() == k && code == 1,
            Some(a) => {
                &&& t.len() > k
                &&& is_run(t[k], a, seq!["devices"@])
                &&& kills(a, emulator_serials(lines(reply_of(t[k]).stdout@)), t.skip(k + 1))
                &&& code == (if all_killed(t.skip(k + 1)) { 0i32 } else { 1i32 })
            },
        }
}

proof fn lemma_stop_all(adb: Seq<char>, start: Seq<Call>, found: Seq<Call>, listed_at: Seq<Call>, end: Seq<Call>, code: i32)
    requires
        extends(start, found),
        found.len() + 1 == listed_at.len(),
        extends(found, listed_at),
        extends(listed_at, end),
        tool_locator::find_trace("adb"@, "ANDROID_HOME"@, seq!["platform-tools"@], since(start, found), Some(adb)),
        is_run(listed_at.last(), adb, seq!["devices"@]),
        kills(adb, emulator_serials(lines(reply_of(listed_at.last()).stdout@)), since(listed_at, end)),
        code == (if all_killed(since(listed_at, end)) { 0i32 } else { 1i32 }),
    ensures
        stop_all_trace(since(start, end), code),
{
    let t = since(start, end);
    let k = since(start, found).len() as int;
    crate::session::lemma_since_prefix(start, found, end);
    crate::session::lemma_since_prefix(found, listed_at, end);
    assert(t[k] == listed_at.last());
    assert(t.skip(k + 1) =~= since(listed_at, end));
}

/// From `adb -s <serial> wait-for-device` on, recorded as exactly `t`: that
/// request, then the boot polls; 0 exactly when they saw the boot completed.
pub open spec fn ready_trace(adb: Seq<char>, serial: Seq<char>, boot: u32, t: Seq<Call>, code: i32) -> bool {
    &&& t.len() >= 1
    &&& is_run(t[0], adb, seq!["-s"@, serial, "wait-for-device"@])
    &&& (code == 0 || code == 1)
    &&& boot_polls(adb, serial, t.skip(1), boot, code == 0)
}

/// When no emulator hosts `avd` yet, recorded as exactly `t`: the scratch
/// directory is asked for, the emulator is launched for `avd` with its log
/// there; a launch that found the serial goes on as `ready_trace` says, one
/// that did not gives 1 (after the log, when it reads, is shown).
pub open spec fn launch_then_ready(emu: Seq<char>, adb: Seq<char>, avd: Seq<char>, boot: u32, t: Seq<Call>, code: i32) -> bool {
    exists|m: int, ok: bool|
        2 <= m <= t.len() && t[0] is TempDir
        && #[trigger] launch_trace(emu, adb, avd, Seq::empty(), log_path_in(t[0]->TempDir_reply, avd), t.subrange(1, m), ok)
        && (ok ==> launched_ready(adb, avd, boot, t, m, code))
        && (!ok ==> code == 1 && (t.len() == m || (t.len() == m + 1 && t[m] is ReadFile
            && t[m]->ReadFile_path == log_path_in(t[0]->TempDir_reply, avd))))
}

/// The launch recorded as `t[1..m]` found the serial of the emulator, which is
/// then made ready from `t[m]` on.
pub open spec fn launched_ready(adb: Seq<char>, avd: Seq<char>, boot: u32, t: Seq<Call>, m: int, code: i32) -> bool {
    exists|serial: Seq<char>| #[trigger] launched_serial(adb, avd, t.subrange(1, m), serial) && ready_trace(adb, serial, boot, t.skip(m), code)
}

/// From `adb start-server` on, for the AVD `avd`, recorded as exactly `t`:
/// that request, the search of `serial_for_avd`; an emulator already hosting
/// `avd` is made ready, otherwise one is launched first.
pub open spec fn start_avd(emu: Seq<char>, adb: Seq<char>, avd: Seq<char>, boot: u32, t: Seq<Call>, code: i32) -> bool {
    &&& t.len() >= 1
    &&& is_run(t[0], adb, seq!["start-server"@])
    &&& exists|h: int, s: Option<Seq<char>>|
        1 <= h <= t.len() && #[trigger] hosting_trace(adb, avd, t.subrange(1, h), s) && match s {
            Some(serial) => ready_trace(adb, serial, boot, t.skip(h), code),
            None => launch_then_ready(emu, adb, avd, boot, t.skip(h), code),
        }
}

/// After the lookups, recorded as exactly `t`: with `--avd` that AVD is
/// started; without it `emulator -list-avds` is asked, an empty list gives 1
/// and nothing more, otherwise its first AVD is started.
pub open spec fn start_rest(emu: Seq<char>, adb: Seq<char>, avd_arg: Option<Seq<char>>, boot: u32, t: Seq<Call>, code: i32) -> bool {
    match avd_arg {
        Some(avd) => start_avd(emu, adb, avd, boot, t, code),
        None => t.len() >= 1 && is_run(t[0], emu, seq!["-list-avds"@]) && {
            let names = avd_names(lines(reply_of(t[0]).stdout@));
            if names.len() == 0 {
                t.len() == 1 && code == 1
            } else {
                start_avd(emu, adb, names[0], boot, t.skip(1), code)
            }
        },
    }
}

/// What `start` asks (`t`) and answers (`code`): the lookup of the
/// `emulator` tool, then of `adb` (1 when either is missing, and nothing
/// more), then `start_rest`.
pub open spec fn start_trace(avd_arg: Option<Seq<char>>, boot: u32, t: Seq<Call>, code: i32) -> bool {
    exists|p: int, e: Option<Seq<char>>|
        0 <= p <= t.len() && #[trigger] tool_locator::find_trace("emulator"@, "ANDROID_HOME"@, seq!["emulator"@], t.take(p), e)
        && match e {
            None => p == t.len() && code == 1,
            Some(emu) => start_after_emulator(emu, avd_arg, boot, t, p, code),
        }
}

/// The part of `start_trace` after the lookup of the emulator tool (the first
/// `p` requests of `t`).
pub open spec fn start_after_emulator(emu: Seq<char>, avd_arg: Option<Seq<char>>, boot: u32, t: Seq<Call>, p: int, code: i32) -> bool {
    exists|q: int, a: Option<Seq<char>>|
        p <= q <= t.len() && #[trigger] tool_locator::find_trace("adb"@, "ANDROID_HOME"@, seq!["platform-tools"@], t.subrange(p, q), a)
        && match a {
            None => q == t.len() && code == 1,
            Some(adb) => start_rest(emu, adb, avd_arg, boot, t.skip(q), code),
        }
}

proof fn lemma_ready(adb: Seq<char>, serial: Seq<char>, boot: u32, ready_from: Seq<Call>, waited: Seq<Call>, end: Seq<Call>, code: i32)
    requires
        extends(ready_from, waited),
        extends(waited, end),
        since(ready_from, waited).len() == 1,
        is_run(since(ready_from, waited)[0], adb, seq!["-s"@, serial, "wait-for-device"@]),
        code == 0 || code == 1,
        boot_polls(adb, serial, since(waited, end), boot, code == 0),
    ensures
        ready_trace(adb, serial, boot, since(ready_from, end), code),
{
    crate::session::lemma_since_prefix(ready_from, waited, end);
    let t = since(ready_from, end);
    assert(t[0] == since(ready_from, waited)[0]);
    assert(t.skip(1) =~= since(waited, end));
}

proof fn lemma_start_avd(
    emu: Seq<char>,
    adb: Seq<char>,
    avd: Seq<char>,
    boot: u32,
    avd_at: Seq<Call>,
    served: Seq<Call>,
    hosted: Seq<Call>,
    end: Seq<Call>,
    s: Option<Seq<char>>,
    code: i32,
)
    requires
        extends(avd_at, served),
        extends(served, hosted),
        extends(hosted, end),
        since(avd_at, served).len() == 1,
        is_run(since(avd_at, served)[0], adb, seq!["start-server"@]),
        hosting_trace(adb, avd, since(served, hosted), s),
        s matches Some(serial) ==> ready_trace(adb, serial, boot, since(hosted, end), code),
        s is None ==> launch_then_ready(emu, adb, avd, boot, since(hosted, end), code),
    ensures
        start_avd(emu, adb, avd, boot, since(avd_at, end), code),
{
    crate::session::lemma_since_prefix(avd_at, served, hosted);
    crate::session::lemma_since_prefix(avd_at, hosted, end);
    let t = since(avd_at, end);
    let h = since(avd_at, hosted).len() as int;
    assert(t[0] == since(avd_at, served)[0]);
    assert(t.subrange(1, h) =~= since(served, hosted));
    assert(t.skip(h) =~= since(hosted, end));
    assert(hosting_trace(adb, avd, t.subrange(1, h), s));
}

proof fn lemma_launch_ready(
    emu: Seq<char>,
    adb: Seq<char>,
    avd: Seq<char>,
    boot: u32,
    hosted: Seq<Call>,
    tmp: Seq<Call>,
    launched: Seq<Call>,
    end: Seq<Call>,
    ok: bool,
    serial: Seq<char>,
    code: i32,
)
    requires
        extends(hosted, tmp),
        extends(tmp, launched),
        extends(launched, end),
        since(hosted, tmp).len() == 1,
        since(hosted, tmp)[0] is TempDir,
        launch_trace(emu, adb, avd, Seq::empty(), log_path_in(since(hosted, tmp)[0]->TempDir_reply, avd), since(tmp, launched), ok),
        ok ==> launched_serial(adb, avd, since(tmp, launched), serial) && ready_trace(adb, serial, boot, since(launched, end), code),
        !ok ==> code == 1 && (end == launched || (since(launched, end).len() == 1 && since(launched, end)[0] is ReadFile
            && since(launched, end)[0]->ReadFile_path == log_path_in(since(hosted, tmp)[0]->TempDir_reply, avd))),
    ensures
        launch_then_ready(emu, adb, avd, boot, since(hosted, end), code),
{
    crate::session::lemma_since_prefix(hosted, tmp, launched);
    crate::session::lemma_since_prefix(hosted, launched, end);
    let t = since(hosted, end);
    let m = since(hosted, launched).len() as int;
    assert(t[0] == since(hosted, tmp)[0]);
    assert(t.subrange(1, m) =~= since(tmp, launched));
    assert(t.skip(m) =~= since(launched, end));
    assert(launch_trace(emu, adb, avd, Seq::empty(), log_path_in(t[0]->TempDir_reply, avd), t.subrange(1, m), ok));
    if ok {
        assert(launched_serial(adb, avd, t.subrange(1, m), serial));
        assert(launched_ready(adb, avd, boot, t, m, code));
    } else if end != launched {
        assert(t[m] == since(launched, end)[0]);
    }
}

proof fn lemma_start_rest(
    emu: Seq<char>,
    adb: Seq<char>,
    avd_arg: Option<Seq<char>>,
    avd: Seq<char>,
    boot: u32,
    adb_found: Seq<Call>,
    avd_at: Seq<Call>,
    end: Seq<Call>,
    code: i32,
)
    requires
        extends(adb_found, avd_at),
        extends(avd_at, end),
        avd_arg is Some ==> avd_at == adb_found && avd == avd_arg->0,
        avd_arg is None ==> since(adb_found, avd_at).len() == 1 && is_run(since(adb_found, avd_at)[0], emu, seq!["-list-avds"@])
            && avd_names(lines(reply_of(since(adb_found, avd_at)[0]).stdout@)).len() > 0
            && avd == avd_names(lines(reply_of(since(adb_found, avd_at)[0]).stdout@))[0],
        start_avd(emu, adb, avd, boot, since(avd_at, end), code),
    ensures
        start_rest(emu, adb, avd_arg, boot, since(adb_found, end), code),
{
    crate::session::lemma_since_prefix(adb_found, avd_at, end);
    let t = since(adb_found, end);
    if avd_arg is None {
        assert(t[0] == since(adb_found, avd_at)[0]);
        assert(t.skip(1) =~= since(avd_at, end));
    } else {
        assert(t =~= since(avd_at, end));
    }
}

proof fn lemma_start_top(
    avd_arg: Option<Seq<char>>,
    boot: u32,
    start: Seq<Call>,
    looked: Seq<Call>,
    adb_found: Seq<Call>,
    end: Seq<Call>,
    emu: Seq<char>,
    adb: Option<Seq<char>>,
    code: i32,
)
    requires
        extends(start, looked),
        extends(looked, adb_found),
        extends(adb_found, end),
        tool_locator::find_trace("emulator"@, "ANDROID_HOME"@, seq!["emulator"@], since(start, looked), Some(emu)),
        tool_locator::find_trace("adb"@, "ANDROID_HOME"@, seq!["platform-tools"@], since(looked, adb_found), adb),
        adb is None ==> end == adb_found && code == 1,
        adb matches Some(a) ==> start_rest(emu, a, avd_arg, boot, since(adb_found, end), code),
    ensures
        start_trace(avd_arg, boot, since(start, end), code),
{
    crate::session::lemma_since_prefix(start, looked, adb_found);
    crate::session::lemma_since_prefix(start, adb_found, end);
    let t = since(start, end);
    let p = since(start, looked).len() as int;
    let q = since(start, adb_found).len() as int;
    assert(t.take(p) =~= since(start, looked));
    assert(t.subrange(p, q) =~= since(looked, adb_found));
    assert(t.skip(q) =~= since(adb_found, end));
    assert(tool_locator::find_trace("adb"@, "ANDROID_HOME"@, seq!["platform-tools"@], t.subrange(p, q), adb));
    assert(start_after_emulator(emu, avd_arg, boot, t, p, code));
    assert(tool_locator::find_trace("emulator"@, "ANDROID_HOME"@, seq!["emulator"@], t.take(p), Some(emu)));
}

/// `t` begins with the lookup of the `emulator` tool; when it is not found
/// nothing more is asked and the code is 1.
pub open spec fn starts_with_emulator_lookup(t: Seq<Call>, code: i32) -> bool {
    exists|p: int, e: Option<Seq<char>>|
        0 <= p <= t.len() && #[trigger] tool_locator::find_trace("emulator"@, "ANDROID_HOME"@, seq!["emulator"@], t.take(p), e)
        && (e is None ==> p == t.len() && code == 1)
}

proof fn lemma_lookup_prefix(start: Seq<Call>, looked: Seq<Call>, end: Seq<Call>, e: Option<Seq<char>>)
    requires
        extends(start, looked),
        extends(looked, end),
        tool_locator::find_trace("emulator"@, "ANDROID_HOME"@, seq!["emulator"@], since(start, looked), e),
    ensures
        forall|code: i32| e is Some ==> starts_with_emulator_lookup(since(start, end), code),
        e is None && end == looked ==> starts_with_emulator_lookup(since(start, end), 1),
{
    crate::session::lemma_since_prefix(start, looked, end);
    let t = since(start, end);
    let p = since(start, looked).len() as int;
    assert(t.take(p) == since(start, looked));
    assert(tool_locator::find_trace("emulator"@, "ANDROID_HOME"@, seq!["emulator"@], t.take(p), e));
}

/// Starts the AVD (`--avd`, else the first listed) unless it already runs,
/// then waits for it to finish booting.
pub fn start<R: Runner>(args: &AndroidArgs, runner: &mut Session<R>, serial_poll: &PollConfig, boot_poll: &PollConfig) -> (code: i32)
    ensures
        extends(old(runner).calls(), final(runner).calls()),
        code == 0 || code == 1,
        boot_poll.attempts == 0 ==> code == 1,
        spares_emulators(old(runner).calls(), final(runner).calls()),
        starts_with_emulator_lookup(since(old(runner).calls(), final(runner).calls()), code),
        start_trace(opt_view(args.avd), boot_poll.attempts, since(old(runner).calls(), final(runner).calls()), code),
{
    let ghost start_calls = runner.calls();
    let found = tool_locator::emulator(runner);
    let ghost looked = runner.calls();
    proof {
        lemma_lookup_prefix(start_calls, looked, looked, crate::text::opt_view(found));
    }
    let emulator = match found {
        Some(e) => e,
        None => {
            runner.report(Level::Error, "emulator not found — install the Android SDK or set ANDROID_HOME");
            proof {
                let t = since(start_calls, runner.calls());
                assert(t.take(t.len() as int) =~= t);
                assert(tool_locator::find_trace("emulator"@, "ANDROID_HOME"@, seq!["emulator"@], t.take(t.len() as int), None));
            }
            return 1;
        },
    };
    let adb_lookup = tool_locator::adb(runner);
    let ghost adb_found = runner.calls();
    let adb = match adb_lookup {
        Some(a) => a,
        None => {
            runner.report(Level::Error, "adb not found — install the Android SDK platform-tools or set ANDROID_HOME");
            proof {
                lemma_lookup_prefix(start_calls, looked, runner.calls(), crate::text::opt_view(found));
                lemma_start_top(opt_view(args.avd), boot_poll.attempts, start_calls, looked, adb_found, runner.calls(), emulator@, None, 1);
            }
            return 1;
        },
    };
    let avd: String = match &args.avd {
        Some(a) => a.clone(),
        None => {
            let list_args = ["-list-avds"];
            assert(strs_view(list_args@) =~= seq!["-list-avds"@]);
            let listed = runner.run(emulator.as_str(), &list_args, None);
            let names = parse_avd_names(listed.stdout.as_str());
            proof {
                assert(since(adb_found, runner.calls())[0] == runner.calls().last());
            }
            if names.len() == 0 {
                runner.report(Level::Error, "No AVDs found — create one with avdmanager or Android Studio");
                proof {
                    lemma_lookup_prefix(start_calls, looked, runner.calls(), crate::text::opt_view(found));
                    assert(views(names@) =~= Seq::<Seq<char>>::empty());
                    assert(start_rest(emulator@, adb@, opt_view(args.avd), boot_poll.attempts, since(adb_found, runner.calls()), 1));
                    lemma_start_top(opt_view(args.avd), boot_poll.attempts, start_calls, looked, adb_found, runner.calls(), emulator@, Some(adb@), 1);
                }
                return 1;
            }
            proof {
                assert(views(names@)[0] == names@[0]@);
            }
            names[0].clone()
        },
    };
    let ghost avd_at = runner.calls();
    let code = start_named(emulator.as_str(), adb.as_str(), avd.as_str(), runner, serial_poll, boot_poll);
    proof {
        lemma_lookup_prefix(start_calls, looked, runner.calls(), crate::text::opt_view(found));
        lemma_start_rest(emulator@, adb@, opt_view(args.avd), avd@, boot_poll.attempts, adb_found, avd_at, runner.calls(), code);
        lemma_start_top(opt_view(args.avd), boot_poll.attempts, start_calls, looked, adb_found, runner.calls(), emulator@, Some(adb@), code);
    }
    code
}

/// Starts the AVD `avd` with the tools `emulator` and `adb` found: makes sure
/// the adb server runs, launches the emulator unless one already hosts `avd`,
/// then waits for it to finish booting.
fn start_named<R: Runner>(
    emulator: &str,
    adb: &str,
    avd: &str,
    runner: &mut Session<R>,
    serial_poll: &PollConfig,
    boot_poll: &PollConfig,
) -> (code: i32)
    ensures
        extends(old(runner).calls(), final(runner).calls()),
        spares_emulators(old(runner).calls(), final(runner).calls()),
        code == 0 || code == 1,
        boot_poll.attempts == 0 ==> code == 1,
        start_avd(emulator@, adb@, avd@, boot_poll.attempts, since(old(runner).calls(), final(runner).calls()), code),
{
    let ghost avd_at = runner.calls();
    let server_args = ["start-server"];
    assert(strs_view(server_args@) =~= seq!["start-server"@]);
    let _ = runner.run(adb, &server_args, None);
    let ghost served = runner.calls();
    proof {
        assert(since(avd_at, served)[0] == served.last());
    }
    let hosting = serial_for_avd(adb, runner, avd);
    let ghost hosted = runner.calls();
    let ghost mut tmp: Seq<Call> = hosted;
    let ghost mut launched: Seq<Call> = hosted;
    let serial = match hosting {
        Some(serial) => {
            runner.report(Level::Info, &cat(&["AVD ", avd, " already running (", serial.as_str(), ")"]));
            serial
        },
        None => {
            let log_path = log_path_for(runner, avd);
            proof { tmp = runner.calls(); }
            runner.report(Level::Info, &cat(&["Starting AVD ", avd, " (log: ", log_path.as_str(), ")"]));
            let no_extra: [&str; 0] = [];
            assert(strs_view(no_extra@) =~= Seq::<Seq<char>>::empty());
            let outcome = launch(emulator, adb, runner, avd, &no_extra, log_path.as_str(), serial_poll);
            proof { launched = runner.calls(); }
            match outcome {
                Ok(serial) => serial,
                Err(message) => {
                    runner.report(Level::Error, message.as_str());
                    let log = runner.read_file(log_path.as_str());
                    if let Ok(log) = log {
                        let t = crate::text::trim_str(log.as_str());
                        runner.report(Level::Detail, t.as_str());
                    }
                    proof {
                        assert(since(launched, runner.calls())[0] == runner.calls().last());
                        lemma_launch_ready(emulator@, adb@, avd@, boot_poll.attempts, hosted, tmp, launched, runner.calls(), false, Seq::empty(), 1);
                        lemma_start_avd(emulator@, adb@, avd@, boot_poll.attempts, avd_at, served, hosted, runner.calls(), None, 1);
                    }
                    return 1;
                },
            }
        },
    };
    let ghost ready_from = runner.calls();
    let wait_args = ["-s", serial.as_str(), "wait-for-device"];
    assert(strs_view(wait_args@) =~= seq!["-s"@, serial@, "wait-for-device"@]);
    let _ = runner.run(adb, &wait_args, None);
    let ghost waited = runner.calls();
    proof {
        assert(since(ready_from, waited)[0] == waited.last());
    }
    runner.report(Level::Detail, &cat(&["Waiting for ", avd, " to finish booting"]));
    let booted = wait_for_boot(adb, runner, serial.as_str(), boot_poll);
    let code: i32 = if booted { 0 } else { 1 };
    if !booted {
        runner.report(Level::Error, &cat(&["Timed out waiting for ", avd, " (", serial.as_str(), ") to finish booting"]));
    } else {
        runner.report(Level::Success, &cat(&["Emulator ready: ", avd, " (", serial.as_str(), ")"]));
    }
    proof {
        lemma_ready(adb@, serial@, boot_poll.attempts, ready_from, waited, runner.calls(), code);
        if hosting is None {
            lemma_launch_ready(emulator@, adb@, avd@, boot_poll.attempts, hosted, tmp, launched, runner.calls(), true, serial@, code);
        }
        lemma_start_avd(emulator@, adb@, avd@, boot_poll.attempts, avd_at, served, hosted, runner.calls(), opt_view(hosting), code);
    }
    code
}

/// Runs `mdev sim a`.
pub fn run<R: Runner>(args: &AndroidArgs, runner: &mut Session<R>) -> (code: i32)
    ensures
        extends(old(runner).calls(), final(runner).calls()),
        code == 0 || code == 1,
        args.avd is None && args.off ==> stop_all_trace(since(old(runner).calls(), final(runner).calls()), code),
        !args.off ==> spares_emulators(old(runner).calls(), final(runner).calls())
            && starts_with_emulator_lookup(since(old(runner).calls(), final(runner).calls()), code),
        !args.off ==> start_trace(opt_view(args.avd), 90u32, since(old(runner).calls(), final(runner).calls()), code),
        args.off && args.avd is Some ==> stop_one_trace(args.avd->0@, since(old(runner).calls(), final(runner).calls()), code),
{
    if args.off {
        return stop(args, runner);
    }
    start(args, runner, &PollConfig::serial(), &PollConfig::boot())
}

/// The AVD names read from `emulator -list-avds` are exactly its trimmed
/// lines that name an AVD (not empty, with no white space, `|` or `:`), in
/// order: log lines are dropped and no name is.
pub proof fn lemma_avd_names(ls: Seq<Seq<char>>)
    ensures
        forall|i: int| 0 <= i < avd_names(ls).len() ==> avd_name_line(#[trigger] avd_names(ls)[i]),
        forall|k: int| 0 <= k < ls.len() && avd_name_line(trim(#[trigger] ls[k])) ==> avd_names(ls).contains(trim(ls[k])),
        avd_names(ls).len() <= ls.len(),
    decreases ls.len(),
{
    if ls.len() > 0 {
        let prev = ls.drop_last();
        lemma_avd_names(prev);
        let r = avd_names(ls);
        let p = avd_names(prev);
        assert forall|k: int| 0 <= k < ls.len() && avd_name_line(trim(#[trigger] ls[k])) implies r.contains(trim(ls[k])) by {
            if k < ls.len() - 1 {
                assert(prev[k] == ls[k]);
                let j = choose|j: int| 0 <= j < p.len() && p[j] == trim(prev[k]);
                assert(r[j] == p[j]);
            } else {
                assert(r[r.len() - 1] == trim(ls.last()));
            }
        }
    }
}

/// The serials read from `adb devices` are exactly the first words of its
/// lines that start with `emulator-`, in order: physical and network devices
/// are left out and no emulator is.
pub proof fn lemma_emulator_serials(ls: Seq<Seq<char>>)
    ensures
        forall|i: int| 0 <= i < emulator_serials(ls).len() ==> starts_with(#[trigger] emulator_serials(ls)[i], "emulator-"@),
        forall|k: int| 0 <= k < ls.len() && (first_word(#[trigger] ls[k]) matches Some(w) && starts_with(w, "emulator-"@))
            ==> emulator_serials(ls).contains(first_word(ls[k])->0),
    decreases ls.len(),
{
    if ls.len() > 0 {
        let prev = ls.drop_last();
        lemma_emulator_serials(prev);
        let r = emulator_serials(ls);
        let p = emulator_serials(prev);
        assert forall|k: int| 0 <= k < ls.len() && (first_word(#[trigger] ls[k]) matches Some(w) && starts_with(w, "emulator-"@))
            implies r.contains(first_word(ls[k])->0) by {
            if k < ls.len() - 1 {
                assert(prev[k] == ls[k]);
                let j = choose|j: int| 0 <= j < p.len() && p[j] == first_word(prev[k])->0;
                assert(r[j] == p[j]);
            } else {
                assert(r[r.len() - 1] == first_word(ls.last())->0);
            }
        }
    }
}

/// The reply to `adb emu avd name` is its first line that is neither empty
/// nor the `OK` status, trimmed and without carriage returns.
pub proof fn lemma_avd_reply(ls: Seq<Seq<char>>)
    ensures
        avd_reply(ls) matches Some(c) ==> c.len() > 0 && c != "OK"@,
        ls.len() > 0 && reply_line(ls[0]).len() > 0 && reply_line(ls[0]) != "OK"@ ==> avd_reply(ls) == Some(reply_line(ls[0])),
    decreases ls.len(),
{
    if ls.len() > 0 {
        lemma_avd_reply(ls.drop_first());
    }
}

} // verus!
