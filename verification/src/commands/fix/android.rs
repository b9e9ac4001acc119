//! `mdev fix a`: bring back the network of a running Android emulator, with the
//! least disruptive repair that works.
use vstd::prelude::*;
use crate::commands::simulator::android::{
    self as sim_android, parse_avd_reply, parse_emulator_serials, PollConfig,
};
use crate::commands::tool_locator;
use crate::runner::{seconds, HostOs, Level, RunResult, Runner};
use crate::session::{extends, is_run, kills_emulator, lemma_since_prefix, reply_of, since, spares_emulators, strs_view, Call, Session};
use crate::text::{
    cat, chars_eq, chars_of, contains, lines, lines_of, remove_char,
    remove_char_chars, split, split_chars, starts_with, starts_with_chars, str_contains, string_of,
    trim, trim_chars,
};

verus! {

/// Router of the emulator's user-mode network — always reachable while the
/// virtual NIC is up, even when nothing beyond it is.
pub const GATEWAY: &'static str = "10.0.2.2";
/// Host that must resolve for the emulator to consider itself online; it is the
/// same endpoint NetworkMonitor probes to decide whether to show the "!" badge.
pub const PROBE_HOST: &'static str = "connectivitycheck.gstatic.com";
/// `emulator -dns-server` accepts at most four addresses.
pub const MAX_DNS_SERVERS: usize = 4;

/// Options of `mdev fix a`.
#[derive(Debug, Clone)]
pub struct AndroidArgs {
    /// Only fix the emulator hosting this AVD (default: every running emulator).
    pub avd: Option<String>,
    /// DNS servers for the restarted emulator (comma-separated, max 4).
    pub dns: Option<String>,
    /// Never restart the emulator; print the command to run by hand instead.
    pub no_restart: bool,
    /// Restart without asking.
    pub yes: bool,
}

/// What the emulator's network can and cannot do.
#[derive(Debug, Clone, Copy, PartialEq, Eq, Structural)]
pub enum Health {
    Working,
    /// Packets flow but names do not resolve — the usual "Wi-Fi with a !" state.
    DnsBroken,
    /// Not even the emulator's own gateway answers.
    Offline,
}

/// How long each repair step waits for the network to come back.
#[derive(Debug)]
pub struct Timings {
    /// Re-probing after a fix that keeps the emulator running.
    pub recheck: PollConfig,
    /// Waiting for a killed emulator to leave `adb devices`.
    pub shutdown: PollConfig,
    /// Waiting for the restarted emulator to register with adb.
    pub serial: PollConfig,
    /// Waiting for the restarted emulator to finish booting.
    pub boot: PollConfig,
}

impl Default for Timings {
    fn default() -> (t: Self)
        ensures
            t.recheck.attempts == 8,
            t.shutdown.attempts == 15,
            t.serial.attempts == 60,
            t.boot.attempts == 90,
    {
        Timings {
            recheck: PollConfig { attempts: 8, interval: seconds(2) },
            shutdown: PollConfig { attempts: 15, interval: seconds(2) },
            serial: PollConfig::serial(),
            boot: PollConfig::boot(),
        }
    }
}

/// Nameserver of one `scutil --dns` line: `nameserver[N] : ADDR`.
pub open spec fn scutil_nameserver(line: Seq<char>) -> Option<Seq<char>> {
    let t = trim(line);
    if starts_with(t, "nameserver["@) {
        let pieces = split(t.skip(11), ':');
        if pieces.len() > 1 { Some(trim(pieces[1])) } else { None }
    } else {
        None
    }
}

/// Nameserver of one `resolv.conf` line: `nameserver ADDR`, comments aside.
pub open spec fn resolv_nameserver(line: Seq<char>) -> Option<Seq<char>> {
    let t = trim(line);
    if !starts_with(t, "#"@) && starts_with(t, "nameserver "@) {
        Some(trim(t.skip(11)))
    } else {
        None
    }
}

/// The values `f` finds among `ls`, in order.
pub open spec fn collect_lines(ls: Seq<Seq<char>>, f: spec_fn(Seq<char>) -> Option<Seq<char>>) -> Seq<Seq<char>>
    decreases ls.len(),
{
    if ls.len() == 0 {
        Seq::empty()
    } else {
        let prev = collect_lines(ls.drop_last(), f);
        match f(ls.last()) {
            Some(v) => prev.push(v),
            None => prev,
        }
    }
}

/// The views of strings.
pub open spec fn views(v: Seq<String>) -> Seq<Seq<char>> {
    v.map_values(|s: String| s@)
}

/// The nameserver of one `scutil --dns` line; see `scutil_nameserver`.
fn scutil_line(line: &Vec<char>) -> (r: Option<Vec<char>>)
    ensures
        match r {
            Some(v) => scutil_nameserver(line@) == Some(v@),
            None => scutil_nameserver(line@) is None,
        },
{
    let t = trim_chars(line.as_slice());
    let prefix = chars_of("nameserver[");
    proof {
        reveal_strlit("nameserver[");
    }
    if !starts_with_chars(t.as_slice(), prefix.as_slice()) {
        return None;
    }
    let n = t.len();
    let rest = crate::text::slice_of(t.as_slice(), 11, n);
    assert(rest@ =~= t@.skip(11));
    let pieces = split_chars(rest.as_slice(), ':');
    if pieces.len() > 1 {
        assert(pieces.deep_view()[1] =~= pieces@[1]@);
        Some(trim_chars(pieces[1].as_slice()))
    } else {
        None
    }
}

/// The nameserver of one `resolv.conf` line; see `resolv_nameserver`.
fn resolv_line(line: &Vec<char>) -> (r: Option<Vec<char>>)
    ensures
        match r {
            Some(v) => resolv_nameserver(line@) == Some(v@),
            None => resolv_nameserver(line@) is None,
        },
{
    let t = trim_chars(line.as_slice());
    let hash = chars_of("#");
    let prefix = chars_of("nameserver ");
    proof {
        reveal_strlit("nameserver ");
    }
    if starts_with_chars(t.as_slice(), hash.as_slice()) || !starts_with_chars(t.as_slice(), prefix.as_slice()) {
        return None;
    }
    let n = t.len();
    let rest = crate::text::slice_of(t.as_slice(), 11, n);
    assert(rest@ =~= t@.skip(11));
    Some(trim_chars(rest.as_slice()))
}

/// Nameservers from `scutil --dns`, in the order macOS queries them.
pub fn parse_scutil_nameservers(stdout: &str) -> (r: Vec<String>)
    ensures
        views(r@) == collect_lines(lines(stdout@), |l: Seq<char>| scutil_nameserver(l)),
{
    let v = chars_of(stdout);
    let ls = lines_of(v.as_slice());
    let ghost lv = ls.deep_view();
    let ghost f = |l: Seq<char>| scutil_nameserver(l);
    let mut out: Vec<String> = Vec::new();
    let mut i: usize = 0;
    while i < ls.len()
        invariant
            i <= ls@.len(),
            lv == ls.deep_view(),
            lv == lines(stdout@),
            f == (|l: Seq<char>| scutil_nameserver(l)),
            views(out@) == collect_lines(lv.take(i as int), f),
        decreases ls.len() - i,
    {
        assert(lv.take(i + 1).drop_last() =~= lv.take(i as int));
        assert(lv[i as int] == ls@[i as int]@);
        if let Some(a) = scutil_line(&ls[i]) {
            let ghost before = views(out@);
            out.push(string_of(a.as_slice()));
            assert(views(out@) =~= before.push(a@));
        }
        i = i + 1;
    }
    assert(lv.take(ls@.len() as int) =~= lv);
    out
}

/// Nameservers from `/etc/resolv.conf`, in order.
pub fn parse_resolv_conf(contents: &str) -> (r: Vec<String>)
    ensures
        views(r@) == collect_lines(lines(contents@), |l: Seq<char>| resolv_nameserver(l)),
{
    let v = chars_of(contents);
    let ls = lines_of(v.as_slice());
    let ghost lv = ls.deep_view();
    let ghost f = |l: Seq<char>| resolv_nameserver(l);
    let mut out: Vec<String> = Vec::new();
    let mut i: usize = 0;
    while i < ls.len()
        invariant
            i <= ls@.len(),
            lv == ls.deep_view(),
            lv == lines(contents@),
            f == (|l: Seq<char>| resolv_nameserver(l)),
            views(out@) == collect_lines(lv.take(i as int), f),
        decreases ls.len() - i,
    {
        assert(lv.take(i + 1).drop_last() =~= lv.take(i as int));
        assert(lv[i as int] == ls@[i as int]@);
        if let Some(a) = resolv_line(&ls[i]) {
            let ghost before = views(out@);
            out.push(string_of(a.as_slice()));
            assert(views(out@) =~= before.push(a@));
        }
        i = i + 1;
    }
    assert(lv.take(ls@.len() as int) =~= lv);
    out
}

/// A loopback resolver: the emulator NATs it into the guest, where nothing
/// listens.
pub open spec fn loopback(addr: Seq<char>) -> bool {
    starts_with(addr, "127."@) || addr == "::1"@
}

/// Whether `addr` is a loopback address.
pub fn is_loopback(addr: &str) -> (b: bool)
    ensures
        b == loopback(addr@),
{
    let v = chars_of(addr);
    let p = chars_of("127.");
    let l = chars_of("::1");
    starts_with_chars(v.as_slice(), p.as_slice()) || chars_eq(v.as_slice(), l.as_slice())
}

/// One candidate resolver: kept unless empty, loopback, already kept, or four
/// are kept already.
pub open spec fn dns_step(acc: Seq<Seq<char>>, c: Seq<char>) -> Seq<Seq<char>> {
    if acc.len() >= 4 || c.len() == 0 || loopback(c) || acc.contains(c) {
        acc
    } else {
        acc.push(c)
    }
}

/// The resolvers kept from `cands`, in order.
pub open spec fn dns_fold(cands: Seq<Seq<char>>) -> Seq<Seq<char>>
    decreases cands.len(),
{
    if cands.len() == 0 {
        Seq::empty()
    } else {
        dns_step(dns_fold(cands.drop_last()), cands.last())
    }
}

/// The public resolvers used to pad the list.
pub open spec fn public_dns() -> Seq<Seq<char>> {
    seq!["8.8.8.8"@, "1.1.1.1"@]
}

/// The resolvers a restarted emulator gets from `candidates`.
pub open spec fn usable_dns_spec(candidates: Seq<Seq<char>>) -> Seq<Seq<char>> {
    dns_fold(candidates + public_dns())
}

/// What `dns_fold` keeps: at most four resolvers, none twice, none empty or
/// loopback, each one of the candidates.
proof fn lemma_dns_fold(cands: Seq<Seq<char>>)
    ensures
        dns_fold(cands).len() <= 4,
        forall|i: int, j: int| 0 <= i < j < dns_fold(cands).len() ==> dns_fold(cands)[i] != dns_fold(cands)[j],
        forall|i: int| 0 <= i < dns_fold(cands).len() ==> (#[trigger] dns_fold(cands)[i]).len() > 0
            && !loopback(dns_fold(cands)[i]) && cands.contains(dns_fold(cands)[i]),
    decreases cands.len(),
{
    if cands.len() > 0 {
        let prev = cands.drop_last();
        lemma_dns_fold(prev);
        let acc = dns_fold(prev);
        let r = dns_fold(cands);
        assert forall|i: int| 0 <= i < r.len() implies (#[trigger] r[i]).len() > 0 && !loopback(r[i]) && cands.contains(r[i]) by {
            if i < acc.len() {
                assert(r[i] == acc[i]);
                let k = choose|k: int| 0 <= k < prev.len() && prev[k] == acc[i];
                assert(cands[k] == prev[k]);
            } else {
                assert(r[i] == cands.last());
                assert(cands[cands.len() - 1] == cands.last());
            }
        }
        assert forall|i: int, j: int| 0 <= i < j < r.len() implies r[i] != r[j] by {
            if j < acc.len() {
                assert(r[i] == acc[i] && r[j] == acc[j]);
            } else {
                assert(r[i] == acc[i]);
                assert(!acc.contains(cands.last()));
            }
        }
    }
}

/// Drops what the emulator cannot forward to and pads with public resolvers.
/// Loopback addresses are the common trap: the emulator NATs them into the
/// guest, where nothing listens, so every lookup times out.
pub fn usable_dns(candidates: Vec<String>) -> (r: Vec<String>)
    ensures
        views(r@) == usable_dns_spec(views(candidates@)),
{
    let mut all: Vec<String> = candidates;
    let ghost cv = views(all@);
    all.push("8.8.8.8".to_owned());
    all.push("1.1.1.1".to_owned());
    let ghost av = views(all@);
    assert(av =~= cv + public_dns());
    let mut servers: Vec<String> = Vec::new();
    let mut i: usize = 0;
    while i < all.len()
        invariant
            i <= all@.len(),
            av == views(all@),
            views(servers@) == dns_fold(av.take(i as int)),
            servers@.len() <= 4,
        decreases all.len() - i,
    {
        assert(av.take(i + 1).drop_last() =~= av.take(i as int));
        let c = &all[i];
        assert(av[i as int] == c@);
        let ghost sv = views(servers@);
        if servers.len() >= MAX_DNS_SERVERS {
            i = i + 1;
            continue;
        }
        if c.as_str().is_empty() || is_loopback(c.as_str()) {
            i = i + 1;
            continue;
        }
        let mut present = false;
        let mut k: usize = 0;
        while k < servers.len()
            invariant
                k <= servers@.len(),
                sv == views(servers@),
                present == exists|m: int| 0 <= m < k && sv[m] == c@,
            decreases servers.len() - k,
        {
            assert(sv[k as int] == servers@[k as int]@);
            if crate::text::str_eq(servers[k].as_str(), c.as_str()) {
                present = true;
            }
            k = k + 1;
        }
        proof {
            if present {
                let m = choose|m: int| 0 <= m < servers@.len() && sv[m] == c@;
                assert(sv.contains(c@));
            } else {
                assert(!sv.contains(c@)) by {
                    if sv.contains(c@) {
                        let m = choose|m: int| 0 <= m < sv.len() && sv[m] == c@;
                    }
                }
            }
        }
        if !present {
            servers.push(c.clone());
            assert(views(servers@) =~= sv.push(c@));
        }
        i = i + 1;
    }
    assert(av.take(all@.len() as int) =~= av);
    servers
}

proof fn lemma_dns_fold_props(cands: Seq<Seq<char>>)
    ensures
        dns_fold(cands).len() <= 4,
        forall|i: int| 0 <= i < dns_fold(cands).len() ==> !loopback(#[trigger] dns_fold(cands)[i]) && dns_fold(cands)[i].len() > 0,
        forall|i: int, j: int| 0 <= i < j < dns_fold(cands).len() ==> #[trigger] dns_fold(cands)[i] != #[trigger] dns_fold(cands)[j],
    decreases cands.len(),
{
    if cands.len() > 0 {
        lemma_dns_fold_props(cands.drop_last());
        let prev = dns_fold(cands.drop_last());
        let c = cands.last();
        if !(prev.len() >= 4 || c.len() == 0 || loopback(c) || prev.contains(c)) {
            let r = prev.push(c);
            assert forall|i: int, j: int| 0 <= i < j < r.len() implies #[trigger] r[i] != #[trigger] r[j] by {
                if j == prev.len() {
                    if r[i] == r[j] {
                        assert(prev[i] == c);
                        assert(prev.contains(c));
                    }
                } else {
                    assert(prev[i] != prev[j]);
                }
            }
        }
    }
}

proof fn lemma_dns_fold_nonempty(cands: Seq<Seq<char>>, c: Seq<char>)
    requires
        c.len() > 0,
        !loopback(c),
    ensures
        dns_fold(cands.push(c)).len() > 0,
{
    assert(cands.push(c).drop_last() =~= cands);
    let prev = dns_fold(cands);
    if prev.len() == 0 {
        assert(!prev.contains(c));
    }
}

/// Folding keeps what it kept: the resolvers kept from a prefix of the
/// candidates start the resolvers kept from all of them, and a usable
/// candidate (not empty, not loopback) is kept unless four were kept already.
proof fn lemma_dns_fold_keeps(cands: Seq<Seq<char>>)
    ensures
        forall|n: int| 0 <= n <= cands.len() ==> dns_fold(cands).len() >= dns_fold(#[trigger] cands.take(n)).len()
            && dns_fold(cands).take(dns_fold(cands.take(n)).len() as int) == dns_fold(cands.take(n)),
        forall|k: int| 0 <= k < cands.len() && (#[trigger] cands[k]).len() > 0 && !loopback(cands[k])
            ==> dns_fold(cands).contains(cands[k]) || dns_fold(cands).len() == 4,
    decreases cands.len(),
{
    if cands.len() > 0 {
        let prev = cands.drop_last();
        lemma_dns_fold_keeps(prev);
        lemma_dns_fold(cands);
        let a = dns_fold(prev);
        let b = dns_fold(cands);
        assert(b.take(a.len() as int) =~= a);
        assert forall|n: int| 0 <= n <= cands.len() implies dns_fold(cands).len() >= dns_fold(#[trigger] cands.take(n)).len()
            && dns_fold(cands).take(dns_fold(cands.take(n)).len() as int) == dns_fold(cands.take(n)) by {
            if n == cands.len() {
                assert(cands.take(n) =~= cands);
            } else {
                assert(prev.take(n) =~= cands.take(n));
                let c = dns_fold(cands.take(n));
                assert(a.take(c.len() as int) == c);
                assert(b.take(c.len() as int) =~= a.take(c.len() as int));
            }
        }
        assert forall|k: int| 0 <= k < cands.len() && (#[trigger] cands[k]).len() > 0 && !loopback(cands[k])
            implies dns_fold(cands).contains(cands[k]) || dns_fold(cands).len() == 4 by {
            if k < cands.len() - 1 {
                assert(prev[k] == cands[k]);
                if a.contains(cands[k]) {
                    let m = choose|m: int| 0 <= m < a.len() && a[m] == cands[k];
                    assert(b[m] == a[m]);
                } else {
                    assert(a.len() == 4);
                }
            } else {
                if !a.contains(cands[k]) && a.len() < 4 {
                    assert(b[a.len() as int] == cands[k]);
                }
            }
        }
    }
}

/// Loopback addresses are the `127.` ones and `::1`; the public resolvers
/// are Google's `8.8.8.8` and Cloudflare's `1.1.1.1`; and every usable host
/// resolver is passed on unless four were chosen already, the first usable
/// one first.
pub proof fn lemma_dns_choices(candidates: Seq<Seq<char>>, addr: Seq<char>)
    ensures
        starts_with(addr, "127."@) ==> loopback(addr),
        loopback("::1"@),
        public_dns().contains("8.8.8.8"@) && public_dns().contains("1.1.1.1"@),
        forall|k: int| 0 <= k < candidates.len() && (#[trigger] candidates[k]).len() > 0 && !loopback(candidates[k])
            ==> usable_dns_spec(candidates).contains(candidates[k]) || usable_dns_spec(candidates).len() == 4,
        candidates.len() > 0 && candidates[0].len() > 0 && !loopback(candidates[0])
            ==> usable_dns_spec(candidates)[0] == candidates[0],
{
    let all = candidates + public_dns();
    assert(public_dns()[0] == "8.8.8.8"@ && public_dns()[1] == "1.1.1.1"@);
    lemma_dns_fold_keeps(all);
    assert forall|k: int| 0 <= k < candidates.len() && (#[trigger] candidates[k]).len() > 0 && !loopback(candidates[k])
        implies usable_dns_spec(candidates).contains(candidates[k]) || usable_dns_spec(candidates).len() == 4 by {
        assert(all[k] == candidates[k]);
    }
    if candidates.len() > 0 && candidates[0].len() > 0 && !loopback(candidates[0]) {
        assert(all.take(1) =~= seq![candidates[0]]);
        let e = Seq::<Seq<char>>::empty();
        assert(all.take(1).drop_last() =~= e);
        assert(dns_fold(e) == e);
        assert(!e.contains(candidates[0]));
        assert(dns_step(e, candidates[0]) =~= seq![candidates[0]]);
        assert(dns_fold(all.take(1)) =~= seq![candidates[0]]);
        assert(dns_fold(all).take(1) == dns_fold(all.take(1)));
        assert(dns_fold(all).take(1)[0] == dns_fold(all)[0]);
    }
}

/// The resolvers a restarted emulator gets: at most four, never empty (the
/// public resolvers pad the list), none loopback, none twice, none empty, each
/// a host resolver or a public one.
pub proof fn lemma_usable_dns(candidates: Seq<Seq<char>>)
    ensures
        0 < usable_dns_spec(candidates).len() <= 4,
        forall|i: int| 0 <= i < usable_dns_spec(candidates).len() ==> !loopback(#[trigger] usable_dns_spec(candidates)[i]),
        forall|i: int, j: int| 0 <= i < j < usable_dns_spec(candidates).len() ==> #[trigger] usable_dns_spec(candidates)[i] != #[trigger] usable_dns_spec(candidates)[j],
        forall|i: int| 0 <= i < usable_dns_spec(candidates).len() ==> (#[trigger] usable_dns_spec(candidates)[i]).len() > 0
            && (candidates.contains(usable_dns_spec(candidates)[i]) || public_dns().contains(usable_dns_spec(candidates)[i])),
{
    let all = candidates + public_dns();
    lemma_dns_fold_props(all);
    lemma_dns_fold(all);
    assert forall|i: int| 0 <= i < usable_dns_spec(candidates).len() implies (#[trigger] usable_dns_spec(candidates)[i]).len() > 0
        && (candidates.contains(usable_dns_spec(candidates)[i]) || public_dns().contains(usable_dns_spec(candidates)[i])) by {
        let x = usable_dns_spec(candidates)[i];
        assert(all.contains(x));
        let k = choose|k: int| 0 <= k < all.len() && all[k] == x;
        if k < candidates.len() {
            assert(candidates[k] == x);
        } else {
            assert(public_dns()[k - candidates.len()] == x);
        }
    }
    reveal_strlit("1.1.1.1");
    reveal_strlit("127.");
    assert(all =~= (candidates + seq!["8.8.8.8"@]).push("1.1.1.1"@));
    assert(!loopback("1.1.1.1"@)) by {
        reveal_strlit("::1");
        reveal_strlit("1.1.1.1");
        reveal_strlit("127.");
        assert("1.1.1.1"@.take(4)[1] != "127."@[1]);
    }
    lemma_dns_fold_nonempty(candidates + seq!["8.8.8.8"@], "1.1.1.1"@);
}

/// `ping` reached its target: a reply came back, or none was lost.
pub open spec fn ping_reached_spec(output: Seq<char>) -> bool {
    contains(output, "bytes from"@) || contains(output, " 0% packet loss"@)
}

/// Whether a `ping` got through.
pub fn ping_reached(output: &str) -> (b: bool)
    ensures
        b == ping_reached_spec(output@),
{
    str_contains(output, "bytes from") || str_contains(output, " 0% packet loss")
}

/// `ping` resolved the name: it echoes the resolved address as
/// `PING host (1.2.3.4)` before sending anything, so a name resolves even when
/// the ICMP reply never comes; `unknown host` means it did not.
pub open spec fn name_resolved_spec(output: Seq<char>) -> bool {
    !contains(output, "unknown host"@) && exists|i: int| 0 <= i < lines(output).len()
        && crate::text::has_char(#[trigger] lines(output)[i], '(') && crate::text::has_char(lines(output)[i], ')')
}

/// Whether a `ping` resolved its host name.
pub fn name_resolved(output: &str) -> (b: bool)
    ensures
        b == name_resolved_spec(output@),
{
    if str_contains(output, "unknown host") {
        return false;
    }
    let v = chars_of(output);
    let ls = lines_of(v.as_slice());
    let ghost lv = ls.deep_view();
    let mut i: usize = 0;
    while i < ls.len()
        invariant
            i <= ls@.len(),
            lv == ls.deep_view(),
            lv == lines(output@),
            !contains(output@, "unknown host"@),
            forall|k: int| 0 <= k < i ==> !(crate::text::has_char(#[trigger] lv[k], '(') && crate::text::has_char(lv[k], ')')),
        decreases ls.len() - i,
    {
        assert(lv[i as int] == ls@[i as int]@);
        if crate::text::has_char_chars(ls[i].as_slice(), '(') && crate::text::has_char_chars(ls[i].as_slice(), ')') {
            return true;
        }
        i = i + 1;
    }
    false
}

/// The health two pings show: through the gateway, then to the probe host.
pub open spec fn health_of(gateway_ping: Seq<char>, probe_ping: Seq<char>) -> Health {
    if !ping_reached_spec(gateway_ping) {
        Health::Offline
    } else if name_resolved_spec(probe_ping) {
        Health::Working
    } else {
        Health::DnsBroken
    }
}

/// Runs a shell command on the emulator; stdout and stderr merged, since
/// `ping` reports "unknown host" on either stream depending on the image.
pub fn shell<R: Runner>(adb: &str, runner: &mut Session<R>, serial: &str, command: &[&str]) -> (out: String)
    ensures
        spares_emulators(old(runner).calls(), final(runner).calls()),
        exists|r: RunResult| out@ == #[trigger] (r.stdout@ + seq!['\n'] + r.stderr@),
        final(runner).calls() == old(runner).calls().push(
            Call::Run { exe: adb@, args: seq!["-s"@, serial@, "shell"@] + strs_view(command@), dir: None, reply: reply_of(final(runner).calls().last()) },
        ),
        out@ == shell_out(reply_of(final(runner).calls().last())),
{
    let mut args: Vec<&str> = Vec::new();
    args.push("-s");
    args.push(serial);
    args.push("shell");
    let mut i: usize = 0;
    assert(strs_view(args@) =~= seq!["-s"@, serial@, "shell"@] + strs_view(command@.take(0)));
    while i < command.len()
        invariant
            spares_emulators(old(runner).calls(), runner.calls()),
            i <= command@.len(),
            args@.len() == 3 + i,
            args@[2] == "shell",
            strs_view(args@) == seq!["-s"@, serial@, "shell"@] + strs_view(command@.take(i as int)),
        decreases command.len() - i,
    {
        let ghost before = args@;
        args.push(command[i]);
        assert(strs_view(command@.take(i + 1)) =~= strs_view(command@.take(i as int)).push(command@[i as int]@));
        assert(strs_view(args@) =~= strs_view(before).push(command@[i as int]@));
        i = i + 1;
    }
    assert(command@.take(i as int) =~= command@);
    proof {
        reveal_strlit("shell");
        reveal_strlit("emu");
        assert("shell"@[0] != "emu"@[0]);
    }
    let result = runner.run(adb, args.as_slice(), None);
    let mut all = chars_of(result.stdout.as_str());
    all.push('\n');
    let mut err = chars_of(result.stderr.as_str());
    all.append(&mut err);
    assert(all@ =~= result.stdout@ + seq!['\n'] + result.stderr@);
    string_of(all.as_slice())
}

/// A global setting of the emulator, without carriage returns, trimmed.
pub fn setting<R: Runner>(adb: &str, runner: &mut Session<R>, serial: &str, key: &str) -> (v: String)
    ensures
        spares_emulators(old(runner).calls(), final(runner).calls()),
        exists|raw: Seq<char>| v@ == #[trigger] trim(remove_char(raw, '\r')),
        final(runner).calls().len() == old(runner).calls().len() + 1,
        is_run(final(runner).calls().last(), adb@, setting_args(serial@, key@)),
{
    let command = ["settings", "get", "global", key];
    assert(seq!["-s"@, serial@, "shell"@] + strs_view(command@) =~= setting_args(serial@, key@));
    let out = shell(adb, runner, serial, &command);
    let c = chars_of(out.as_str());
    let cleaned = remove_char_chars(c.as_slice(), '\r');
    let t = trim_chars(cleaned.as_slice());
    string_of(t.as_slice())
}

/// Pings `host` once from the emulator.
pub fn ping<R: Runner>(adb: &str, runner: &mut Session<R>, serial: &str, host: &str) -> (out: String)
    ensures
        spares_emulators(old(runner).calls(), final(runner).calls()),
        exists|r: RunResult| out@ == #[trigger] (r.stdout@ + seq!['\n'] + r.stderr@),
        final(runner).calls() == old(runner).calls().push(
            Call::Run { exe: adb@, args: ping_args(serial@, host@), dir: None, reply: reply_of(final(runner).calls().last()) },
        ),
        out@ == shell_out(reply_of(final(runner).calls().last())),
{
    let command = ["ping", "-c", "1", "-W", "2", host];
    assert(seq!["-s"@, serial@, "shell"@] + strs_view(command@) =~= ping_args(serial@, host@));
    shell(adb, runner, serial, &command)
}

/// The arguments of a query of the global setting `key` on `serial`.
pub open spec fn setting_args(serial: Seq<char>, key: Seq<char>) -> Seq<Seq<char>> {
    seq!["-s"@, serial, "shell"@, "settings"@, "get"@, "global"@, key]
}

/// How a repair of `serial` starts (`t`, ending `healthy`): a health probe;
/// when it finds the network working, nothing more and healthy; otherwise the
/// next request asks whether airplane mode is on (the radios come first).
pub open spec fn first_step(adb: Seq<char>, serial: Seq<char>, t: Seq<Call>, healthy: bool) -> bool {
    exists|n: int, h: Health|
        1 <= n <= t.len() && #[trigger] probe_trace(adb, serial, t.take(n), h)
            && (h == Health::Working ==> t.len() == n && healthy)
            && (h != Health::Working ==> t.len() > n && is_run(t[n], adb, setting_args(serial, "airplane_mode_on"@)))
}

/// Both output streams of a reply, stdout first.
pub open spec fn shell_out(r: RunResult) -> Seq<char> {
    r.stdout@ + seq!['\n'] + r.stderr@
}

/// The arguments of one ping of `host` from the emulator `serial`.
pub open spec fn ping_args(serial: Seq<char>, host: Seq<char>) -> Seq<Seq<char>> {
    seq!["-s"@, serial, "shell"@, "ping"@, "-c"@, "1"@, "-W"@, "2"@, host]
}

/// The requests `t` of one health probe of `serial` and its answer `h`: a
/// ping of the gateway, then, when that answered, a ping of the probe host;
/// `h` is `health_of` their outputs.
pub open spec fn probe_trace(adb: Seq<char>, serial: Seq<char>, t: Seq<Call>, h: Health) -> bool {
    &&& t.len() >= 1
    &&& is_run(t[0], adb, ping_args(serial, GATEWAY@))
    &&& if !ping_reached_spec(shell_out(reply_of(t[0]))) {
        t.len() == 1 && h == Health::Offline
    } else {
        &&& t.len() == 2
        &&& is_run(t[1], adb, ping_args(serial, PROBE_HOST@))
        &&& h == health_of(shell_out(reply_of(t[0])), shell_out(reply_of(t[1])))
    }
}

/// `t` ends with a probe of the emulator `serial` that found the network
/// working.
pub open spec fn ends_healthy(adb: Seq<char>, serial: Seq<char>, t: Seq<Call>) -> bool {
    t.len() >= 2 && probe_trace(adb, serial, t.skip(t.len() - 2), Health::Working)
}

proof fn lemma_ends_healthy(adb: Seq<char>, serial: Seq<char>, start: Seq<Call>, mid: Seq<Call>, end: Seq<Call>)
    requires
        extends(start, mid),
        extends(mid, end),
        ends_healthy(adb, serial, since(mid, end)),
    ensures
        ends_healthy(adb, serial, since(start, end)),
{
    let a = since(start, end);
    let b = since(mid, end);
    assert(a.skip(a.len() - 2) =~= b.skip(b.len() - 2));
}

/// What the emulator's network can do: the gateway must answer, then the probe
/// host must resolve.
pub fn probe<R: Runner>(adb: &str, runner: &mut Session<R>, serial: &str) -> (h: Health)
    ensures
        spares_emulators(old(runner).calls(), final(runner).calls()),
        exists|g: Seq<char>, p: Seq<char>| h == #[trigger] health_of(g, p),
        probe_trace(adb@, serial@, since(old(runner).calls(), final(runner).calls()), h),
{
    let ghost start = runner.calls();
    let g = ping(adb, runner, serial, GATEWAY);
    let ghost c0 = runner.calls().last();
    if !ping_reached(g.as_str()) {
        assert(health_of(g@, g@) == Health::Offline);
        assert(since(start, runner.calls()) =~= seq![c0]);
        return Health::Offline;
    }
    let p = ping(adb, runner, serial, PROBE_HOST);
    let ghost c1 = runner.calls().last();
    let h = if name_resolved(p.as_str()) { Health::Working } else { Health::DnsBroken };
    assert(health_of(g@, p@) == h);
    assert(since(start, runner.calls()) =~= seq![c0, c1]);
    h
}

/// Probes until the network is healthy, at most `recheck.attempts` times.
pub fn wait_healthy<R: Runner>(adb: &str, runner: &mut Session<R>, serial: &str, timings: &Timings) -> (ok: bool)
    ensures
        spares_emulators(old(runner).calls(), final(runner).calls()),
        ok ==> exists|g: Seq<char>, p: Seq<char>| #[trigger] health_of(g, p) == Health::Working,
        timings.recheck.attempts == 0 ==> !ok,
        ok ==> ends_healthy(adb@, serial@, since(old(runner).calls(), final(runner).calls())),
        !ok ==> probes_failed(adb@, serial@, since(old(runner).calls(), final(runner).calls()), timings.recheck.attempts as int),
{
    let ghost start = runner.calls();
    let ghost mut segs: Seq<Seq<Call>> = Seq::empty();
    let ghost mut hs: Seq<Health> = Seq::empty();
    proof {
        assert(segs.flatten() =~= Seq::<Call>::empty());
        assert(since(start, runner.calls()) =~= segs.flatten());
    }
    let mut attempt: u32 = 0;
    while attempt < timings.recheck.attempts
        invariant
            spares_emulators(old(runner).calls(), runner.calls()),
            start == old(runner).calls(),
            attempt <= timings.recheck.attempts,
            segs.len() == attempt,
            hs.len() == attempt,
            since(start, runner.calls()) == segs.flatten(),
            forall|k: int| 0 <= k < attempt ==> probe_done(adb@, serial@, #[trigger] segs[k], hs[k]),
        decreases timings.recheck.attempts - attempt,
    {
        let ghost before = runner.calls();
        let h = probe(adb, runner, serial);
        proof {
            let seg = since(before, runner.calls());
            segs.lemma_flatten_push(seg);
            lemma_since_prefix(start, before, runner.calls());
            assert(since(start, runner.calls()) =~= since(start, before) + seg);
        }
        if h == Health::Working {
            proof {
                let seg = since(before, runner.calls());
                assert(seg.skip(seg.len() - 2) =~= seg);
                lemma_ends_healthy(adb@, serial@, start, before, runner.calls());
            }
            return true;
        }
        proof {
            let seg = since(before, runner.calls());
            let prev_segs = segs;
            let prev_hs = hs;
            segs = segs.push(seg);
            hs = hs.push(h);
            assert forall|k: int| 0 <= k < attempt + 1 implies probe_done(adb@, serial@, #[trigger] segs[k], hs[k]) by {
                if k < attempt {
                    assert(segs[k] == prev_segs[k] && hs[k] == prev_hs[k]);
                    assert(probe_done(adb@, serial@, prev_segs[k], prev_hs[k]));
                } else {
                    assert(segs[k] == seg);
                    assert(hs[k] == h);
                    assert(probe_trace(adb@, serial@, seg, h));
                    assert(h != Health::Working);
                }
            }
        }
        if attempt + 1 < timings.recheck.attempts {
            runner.pause(timings.recheck.interval);
        }
        attempt = attempt + 1;
    }
    proof {
        assert(probes_failed_by(adb@, serial@, since(start, runner.calls()), timings.recheck.attempts as int, segs, hs));
    }
    false
}

/// The requests `t` are `n` health probes of `serial`, none of which found
/// the network working.
pub open spec fn probes_failed(adb: Seq<char>, serial: Seq<char>, t: Seq<Call>, n: int) -> bool {
    exists|segs: Seq<Seq<Call>>, hs: Seq<Health>| #[trigger] probes_failed_by(adb, serial, t, n, segs, hs)
}

/// `probes_failed` with the requests of each probe and its answer named.
pub open spec fn probes_failed_by(adb: Seq<char>, serial: Seq<char>, t: Seq<Call>, n: int, segs: Seq<Seq<Call>>, hs: Seq<Health>) -> bool {
    &&& segs.len() == n
    &&& hs.len() == n
    &&& t == segs.flatten()
    &&& forall|k: int| 0 <= k < n ==> probe_done(adb, serial, #[trigger] segs[k], hs[k])
}

/// One probe of `serial`, recorded as `t`, answered `h`, which is not working.
pub open spec fn probe_done(adb: Seq<char>, serial: Seq<char>, t: Seq<Call>, h: Health) -> bool {
    probe_trace(adb, serial, t, h) && h != Health::Working
}

/// Leaves airplane mode and re-enables Wi-Fi. Returns whether anything changed.
pub fn clear_radio_blocks<R: Runner>(adb: &str, runner: &mut Session<R>, serial: &str) -> (changed: bool)
    ensures
        spares_emulators(old(runner).calls(), final(runner).calls()),
        since(old(runner).calls(), final(runner).calls()).len() >= 1,
        is_run(since(old(runner).calls(), final(runner).calls())[0], adb@, setting_args(serial@, "airplane_mode_on"@)),
{
    let ghost start = runner.calls();
    let mut changed = false;
    let airplane = setting(adb, runner, serial, "airplane_mode_on");
    let ghost first = runner.calls();
    assert(since(start, first)[0] == first.last());
    if crate::text::str_eq(airplane.as_str(), "1") {
        runner.report(Level::Info, &cat(&[serial, ": leaving airplane mode"]));
        let _ = shell(adb, runner, serial, &["cmd", "connectivity", "airplane-mode", "disable"]);
        changed = true;
    }
    let wifi = setting(adb, runner, serial, "wifi_on");
    if crate::text::str_eq(wifi.as_str(), "0") {
        runner.report(Level::Info, &cat(&[serial, ": enabling Wi-Fi"]));
        let _ = shell(adb, runner, serial, &["svc", "wifi", "enable"]);
        changed = true;
    }
    assert(runner.calls()[start.len() as int] == first[start.len() as int]);
    assert(since(start, runner.calls())[0] == since(start, first)[0]);
    changed
}

/// Forces ConnectivityService to re-run validation, which is what clears the "!"
/// badge once the network answers again.
pub fn toggle_wifi<R: Runner>(adb: &str, runner: &mut Session<R>, serial: &str)
    ensures
        spares_emulators(old(runner).calls(), final(runner).calls()),
        since(old(runner).calls(), final(runner).calls()).len() == 2,
        is_run(since(old(runner).calls(), final(runner).calls())[0], adb@, wifi_args(serial@, "disable"@)),
        is_run(since(old(runner).calls(), final(runner).calls())[1], adb@, wifi_args(serial@, "enable"@)),
{
    let ghost start = runner.calls();
    let off = ["svc", "wifi", "disable"];
    assert(seq!["-s"@, serial@, "shell"@] + strs_view(off@) =~= wifi_args(serial@, "disable"@));
    let _ = shell(adb, runner, serial, &off);
    let ghost mid = runner.calls();
    let on = ["svc", "wifi", "enable"];
    assert(seq!["-s"@, serial@, "shell"@] + strs_view(on@) =~= wifi_args(serial@, "enable"@));
    let _ = shell(adb, runner, serial, &on);
    proof {
        assert(since(start, runner.calls())[0] == mid.last());
    }
}

/// The arguments that turn the Wi-Fi of the emulator `serial` to `state`.
pub open spec fn wifi_args(serial: Seq<char>, state: Seq<char>) -> Seq<Seq<char>> {
    seq!["-s"@, serial, "shell"@, "svc"@, "wifi"@, state]
}

/// The arguments that ask the emulator `serial` for the AVD it hosts.
pub open spec fn avd_name_args(serial: Seq<char>) -> Seq<Seq<char>> {
    seq!["-s"@, serial, "emu"@, "avd"@, "name"@]
}

/// `t` turned the Wi-Fi of `serial` off and on.
pub open spec fn toggled_wifi(adb: Seq<char>, serial: Seq<char>, t: Seq<Call>) -> bool {
    &&& exists|i: int| 0 <= i < t.len() && is_run(#[trigger] t[i], adb, wifi_args(serial, "disable"@))
    &&& exists|i: int| 0 <= i < t.len() && is_run(#[trigger] t[i], adb, wifi_args(serial, "enable"@))
}

/// A request for the AVD name of `serial` whose answer names none.
pub open spec fn is_unnamed(c: Call, adb: Seq<char>, serial: Seq<char>) -> bool {
    is_run(c, adb, avd_name_args(serial)) && sim_android::avd_reply(lines(reply_of(c).stdout@)) is None
}

/// `t` gave up on a cold boot before trying one: the emulator did not name
/// its AVD, or the user declined.
pub open spec fn restart_refused(adb: Seq<char>, serial: Seq<char>, t: Seq<Call>) -> bool {
    ||| exists|i: int| 0 <= i < t.len() && is_unnamed(#[trigger] t[i], adb, serial)
    ||| exists|i: int| 0 <= i < t.len() && is_refusal(#[trigger] t[i])
}

/// A question the user answered yes.
pub open spec fn is_agreement(c: Call) -> bool {
    c matches Call::Confirm { reply, .. } && reply
}

/// A question the user answered no.
pub open spec fn is_refusal(c: Call) -> bool {
    c matches Call::Confirm { reply, .. } && !reply
}

/// A lookup of the `emulator` tool on `PATH`, the first request of a cold
/// boot.
pub open spec fn is_emulator_lookup(c: Call) -> bool {
    c matches Call::Which { exe, .. } && exe == "emulator"@
}

/// `t` started a cold boot: it looked up the `emulator` tool.
pub open spec fn restart_tried(t: Seq<Call>) -> bool {
    exists|i: int| 0 <= i < t.len() && is_emulator_lookup(#[trigger] t[i])
}

/// The `i`-th request recorded between `before` and `after` is found at its
/// place among those recorded since `start`.
proof fn lemma_index_kept(start: Seq<Call>, before: Seq<Call>, after: Seq<Call>, end: Seq<Call>, i: int)
    requires
        extends(start, before),
        extends(before, after),
        extends(after, end),
        0 <= i < since(before, after).len(),
    ensures
        0 <= before.len() - start.len() + i < since(start, end).len(),
        since(start, end)[before.len() - start.len() + i] == since(before, after)[i],
{
}

/// Without any stop, every stop came after agreement.
/// Every emulator kill in `t` comes after a Wi-Fi toggle of `serial` and then
/// `n` health probes that all found the network not working.
pub open spec fn kills_after_recheck(adb: Seq<char>, serial: Seq<char>, t: Seq<Call>, n: int) -> bool {
    forall|i: int| 0 <= i < t.len() && #[trigger] kills_emulator(t[i]) ==> recheck_failed_before(adb, serial, t, n, i)
}

/// `t` toggled Wi-Fi of `serial` and then made `n` failed health probes, all
/// before index `i`.
pub open spec fn recheck_failed_before(adb: Seq<char>, serial: Seq<char>, t: Seq<Call>, n: int, i: int) -> bool {
    exists|w0: int, w1: int|
        0 <= w0 <= w1 <= i && toggled_wifi(adb, serial, t.take(w0)) && #[trigger] probes_failed(adb, serial, t.subrange(w0, w1), n)
}

proof fn lemma_no_kills(adb: Seq<char>, serial: Seq<char>, start: Seq<Call>, end: Seq<Call>, n: int)
    requires
        spares_emulators(start, end),
    ensures
        kills_after_recheck(adb, serial, since(start, end), n),
{
    assert forall|i: int| 0 <= i < since(start, end).len() && #[trigger] kills_emulator(since(start, end)[i]) implies
        recheck_failed_before(adb, serial, since(start, end), n, i) by {
        assert(since(start, end)[i] == end[start.len() + i]);
    }
}

proof fn lemma_spares_agreed(start: Seq<Call>, end: Seq<Call>, yes: bool, no_restart: bool)
    requires
        spares_emulators(start, end),
    ensures
        stops_agreed(since(start, end), yes, no_restart),
{
    assert forall|i: int| 0 <= i < since(start, end).len() && #[trigger] kills_emulator(since(start, end)[i]) implies
        !no_restart && (yes || exists|j: int| 0 <= j < i && is_agreement(#[trigger] since(start, end)[j])) by {
        assert(since(start, end)[i] == end[start.len() + i]);
    }
}

/// Every emulator stop in `t` came after the user agreed to it (or `yes`),
/// and none with `no_restart`.
pub open spec fn stops_agreed(t: Seq<Call>, yes: bool, no_restart: bool) -> bool {
    forall|i: int| 0 <= i < t.len() && #[trigger] kills_emulator(t[i]) ==>
        !no_restart && (yes || exists|j: int| 0 <= j < i && is_agreement(#[trigger] t[j]))
}

/// No stop in the requests of `t` recorded before `mid` or after `mid2`.
proof fn lemma_no_stop_outside(start: Seq<Call>, mid: Seq<Call>, mid2: Seq<Call>, end: Seq<Call>, i: int)
    requires
        spares_emulators(start, mid),
        extends(mid, mid2),
        spares_emulators(mid2, end),
        0 <= i < since(start, end).len(),
        i < mid.len() - start.len() || i >= mid2.len() - start.len(),
    ensures
        !kills_emulator(since(start, end)[i]),
{
    if i < mid.len() - start.len() {
        assert(since(start, end)[i] == mid[start.len() + i]);
    } else {
        assert(since(start, end)[i] == end[start.len() + i]);
    }
}

/// Waits until no running emulator hosts `avd`, asking at most `poll.attempts`
/// times.
pub fn wait_gone<R: Runner>(adb: &str, runner: &mut Session<R>, avd: &str, poll: &PollConfig) -> (gone: bool)
    ensures
        spares_emulators(old(runner).calls(), final(runner).calls()),
        poll.attempts == 0 ==> !gone,
{
    let mut attempt: u32 = 0;
    while attempt < poll.attempts
        invariant
            spares_emulators(old(runner).calls(), runner.calls()),
            attempt <= poll.attempts,
        decreases poll.attempts - attempt,
    {
        if sim_android::serial_for_avd(adb, runner, avd).is_none() {
            return true;
        }
        if attempt + 1 < poll.attempts {
            runner.pause(poll.interval);
        }
        attempt = attempt + 1;
    }
    false
}

/// The AVD the emulator `serial` hosts.
pub fn avd_name<R: Runner>(adb: &str, runner: &mut Session<R>, serial: &str) -> (r: Option<String>)
    ensures
        spares_emulators(old(runner).calls(), final(runner).calls()),
        exists|reply: RunResult| crate::text::opt_view(r) == #[trigger] sim_android::avd_reply(lines(reply.stdout@)),
        since(old(runner).calls(), final(runner).calls()).len() == 1,
        is_run(since(old(runner).calls(), final(runner).calls())[0], adb@, avd_name_args(serial@)),
        crate::text::opt_view(r) == sim_android::avd_reply(lines(reply_of(since(old(runner).calls(), final(runner).calls())[0]).stdout@)),
{
    let ghost start = runner.calls();
    let name_args = ["-s", serial, "emu", "avd", "name"];
    assert(strs_view(name_args@) =~= avd_name_args(serial@));
    let reply = runner.run(adb, &name_args, None);
    assert(since(start, runner.calls())[0] == runner.calls().last());
    parse_avd_reply(reply.stdout.as_str())
}

/// What `host_dns_servers` asked (`t`) and found (`servers`): the host
/// question, then on macOS `scutil --dns` and the resolvers its output lists,
/// elsewhere the read of `/etc/resolv.conf` and the resolvers it lists (none
/// when it cannot be read).
pub open spec fn host_dns_trace(t: Seq<Call>, servers: Seq<Seq<char>>) -> bool {
    &&& t.len() == 2
    &&& t[0] is Host
    &&& if t[0]->Host_reply == HostOs::MacOs {
        is_run(t[1], "scutil"@, seq!["--dns"@]) && servers == host_resolvers(true, reply_of(t[1]).stdout@)
    } else {
        &&& t[1] is ReadFile
        &&& t[1]->ReadFile_path == "/etc/resolv.conf"@
        &&& servers == host_resolvers(false, match t[1]->ReadFile_reply {
            Ok(x) => x,
            Err(_) => ""@,
        })
    }
}

/// Resolvers the host itself uses, so internal domains keep working inside the
/// emulator: `scutil --dns` on macOS, `/etc/resolv.conf` elsewhere.
pub fn host_dns_servers<R: Runner>(runner: &mut Session<R>) -> (r: Vec<String>)
    ensures
        spares_emulators(old(runner).calls(), final(runner).calls()),
        exists|mac: bool, text: Seq<char>| views(r@) == #[trigger] host_resolvers(mac, text),
        host_dns_trace(since(old(runner).calls(), final(runner).calls()), views(r@)),
{
    let ghost start = runner.calls();
    let host = runner.host_os();
    let ghost asked = runner.calls();
    if host == HostOs::MacOs {
        let scutil_args = ["--dns"];
        assert(strs_view(scutil_args@) =~= seq!["--dns"@]);
        let dns = runner.run("scutil", &scutil_args, None);
        let r = parse_scutil_nameservers(dns.stdout.as_str());
        assert(views(r@) == host_resolvers(true, dns.stdout@));
        proof {
            let t = since(start, runner.calls());
            assert(t[0] == asked.last());
            assert(t[1] == runner.calls().last());
        }
        r
    } else {
        let read = runner.read_file("/etc/resolv.conf");
        proof {
            let t = since(start, runner.calls());
            assert(t[0] == asked.last());
            assert(t[1] == runner.calls().last());
        }
        let r = match read {
            Ok(contents) => {
                let r = parse_resolv_conf(contents.as_str());
                assert(views(r@) == host_resolvers(false, contents@));
                r
            },
            Err(_) => {
                let r = parse_resolv_conf("");
                assert(views(r@) == host_resolvers(false, ""@));
                r
            },
        };
        r
    }
}

/// The resolvers a host lists: the `nameserver[..]` lines of `scutil --dns`
/// output on macOS, the `nameserver` lines of `resolv.conf` elsewhere.
pub open spec fn host_resolvers(mac: bool, text: Seq<char>) -> Seq<Seq<char>> {
    if mac {
        collect_lines(lines(text), |l: Seq<char>| scutil_nameserver(l))
    } else {
        collect_lines(lines(text), |l: Seq<char>| resolv_nameserver(l))
    }
}

/// The pieces of a `--dns` list, trimmed.
pub open spec fn dns_list(list: Seq<char>) -> Seq<Seq<char>> {
    split(list, ',').map_values(|s: Seq<char>| trim(s))
}

/// The resolvers for a restart: the `--dns` list when given, the host's own
/// otherwise, filtered by `usable_dns`.
pub fn dns_servers<R: Runner>(args: &AndroidArgs, runner: &mut Session<R>) -> (r: Vec<String>)
    ensures
        spares_emulators(old(runner).calls(), final(runner).calls()),
        args.dns matches Some(list) ==> views(r@) == usable_dns_spec(dns_list(list@)),
        exists|cands: Seq<Seq<char>>| views(r@) == #[trigger] usable_dns_spec(cands),
{
    match &args.dns {
        Some(list) => {
            let v = chars_of(list.as_str());
            let pieces = split_chars(v.as_slice(), ',');
            let ghost pv = pieces.deep_view();
            let mut cands: Vec<String> = Vec::new();
            let mut i: usize = 0;
            while i < pieces.len()
                invariant
                    spares_emulators(old(runner).calls(), runner.calls()),
                    i <= pieces@.len(),
                    pv == pieces.deep_view(),
                    pv == split(list@, ','),
                    views(cands@) == pv.take(i as int).map_values(|s: Seq<char>| trim(s)),
                decreases pieces.len() - i,
            {
                assert(pv[i as int] == pieces@[i as int]@);
                let t = trim_chars(pieces[i].as_slice());
                let ghost before = views(cands@);
                cands.push(string_of(t.as_slice()));
                assert(views(cands@) =~= before.push(t@));
                assert(pv.take(i + 1).map_values(|s: Seq<char>| trim(s)) =~= pv.take(i as int).map_values(|s: Seq<char>| trim(s)).push(trim(pv[i as int])));
                i = i + 1;
            }
            assert(pv.take(pieces@.len() as int) =~= pv);
            usable_dns(cands)
        },
        None => usable_dns(host_dns_servers(runner)),
    }
}

/// `parts` joined with commas.
pub open spec fn comma_joined(parts: Seq<Seq<char>>) -> Seq<char>
    decreases parts.len(),
{
    if parts.len() == 0 {
        Seq::empty()
    } else if parts.len() == 1 {
        parts[0]
    } else {
        comma_joined(parts.drop_last()) + seq![','] + parts.last()
    }
}

/// `servers` joined with commas; see `comma_joined`.
pub fn join_commas(servers: &Vec<String>) -> (r: String)
    ensures
        r@ == comma_joined(servers@.map_values(|s: String| s@)),
{
    let ghost sv = servers@.map_values(|s: String| s@);
    let mut out: Vec<char> = Vec::new();
    let mut i: usize = 0;
    while i < servers.len()
        invariant
            i <= servers@.len(),
            sv == servers@.map_values(|s: String| s@),
            out@ == comma_joined(sv.take(i as int)),
        decreases servers.len() - i,
    {
        assert(sv.take(i + 1).drop_last() =~= sv.take(i as int));
        assert(sv.take(i + 1).last() == servers@[i as int]@);
        if i > 0 {
            out.push(',');
        }
        let mut piece = chars_of(servers[i].as_str());
        out.append(&mut piece);
        if i == 0 {
            assert(comma_joined(sv.take(1)) == sv.take(1)[0]);
            assert(out@ =~= sv.take(1)[0]);
        }
        i = i + 1;
    }
    assert(sv.take(servers@.len() as int) =~= sv);
    string_of(out.as_slice())
}

/// Kills the emulator and cold-boots the same AVD with explicit DNS servers.
/// A cold boot matters: a snapshot restore brings the dead resolver state back.
pub fn restart_with_dns<R: Runner>(
    adb: &str,
    runner: &mut Session<R>,
    serial: &str,
    avd: &str,
    servers: &Vec<String>,
    timings: &Timings,
) -> (r: Result<String, String>)
    ensures
        extends(old(runner).calls(), final(runner).calls()),
        timings.shutdown.attempts == 0 ==> r is Err,
        timings.serial.attempts == 0 ==> r is Err,
        timings.boot.attempts == 0 ==> r is Err,
        since(old(runner).calls(), final(runner).calls()).len() >= 1,
        is_emulator_lookup(since(old(runner).calls(), final(runner).calls())[0]),
{
    let ghost start = runner.calls();
    let found = tool_locator::emulator(runner);
    let ghost looked = runner.calls();
    proof {
        assert(is_emulator_lookup(since(start, looked)[0]));
    }
    let emulator = match found {
        Some(e) => e,
        None => {
            return Err("emulator not found — install the Android SDK or set ANDROID_HOME".to_owned());
        },
    };
    let killed = runner.run(adb, &["-s", serial, "emu", "kill"], None);
    if !killed.is_success() {
        return Err(cat(&["could not stop ", serial]));
    }
    if !wait_gone(adb, runner, avd, &timings.shutdown) {
        return Err(cat(&[avd, " is still running after `emu kill`"]));
    }
    let joined = join_commas(servers);
    let log_path = sim_android::log_path_for(runner, avd);
    runner.report(Level::Info, &cat(&["Cold-booting ", avd, " with DNS ", joined.as_str(), " (log: ", log_path.as_str(), ")"]));
    let new_serial = match sim_android::launch(
        emulator.as_str(),
        adb,
        runner,
        avd,
        &["-dns-server", joined.as_str(), "-no-snapshot-load"],
        log_path.as_str(),
        &timings.serial,
    ) {
        Ok(s) => s,
        Err(e) => return Err(e),
    };
    let _ = runner.run(adb, &["-s", new_serial.as_str(), "wait-for-device"], None);
    runner.report(Level::Detail, &cat(&["Waiting for ", avd, " to finish booting"]));
    let booted = sim_android::wait_for_boot(adb, runner, new_serial.as_str(), &timings.boot);
    if !booted {
        return Err(cat(&["timed out waiting for ", avd, " to finish booting"]));
    }
    Ok(new_serial)
}

proof fn lemma_repair_start(
    adb: Seq<char>,
    serial: Seq<char>,
    start: Seq<Call>,
    probed: Seq<Call>,
    radios: Seq<Call>,
    end: Seq<Call>,
    h: Health,
    healthy: bool,
)
    requires
        extends(start, probed),
        extends(probed, radios),
        extends(radios, end),
        probe_trace(adb, serial, since(start, probed), h),
        h != Health::Working,
        since(probed, radios).len() >= 1,
        is_run(since(probed, radios)[0], adb, setting_args(serial, "airplane_mode_on"@)),
    ensures
        first_step(adb, serial, since(start, end), healthy),
{
    lemma_since_prefix(start, probed, radios);
    lemma_since_prefix(probed, radios, end);
    lemma_since_prefix(start, probed, end);
    let t = since(start, end);
    let n = since(start, probed).len() as int;
    assert(t[n] == since(probed, end)[0]);
    assert(since(probed, end)[0] == since(probed, radios)[0]);
    assert(probe_trace(adb, serial, t.take(n), h));
}

/// Applies the smallest repair that restores the network, in increasing order of
/// disruption: nothing when it already works; the radios (airplane mode, Wi-Fi);
/// a Wi-Fi toggle; a cold boot with working DNS servers (asked for unless
/// `--yes`, never with `--no-restart`). Returns whether the emulator ended up
/// healthy.
#[verifier::spinoff_prover]
#[verifier::rlimit(80)]
pub fn fix_device<R: Runner>(adb: &str, runner: &mut Session<R>, serial: &str, args: &AndroidArgs, timings: &Timings) -> (healthy: bool)
    ensures
        extends(old(runner).calls(), final(runner).calls()),
        healthy ==> exists|g: Seq<char>, p: Seq<char>| #[trigger] health_of(g, p) == Health::Working,
        healthy ==> exists|s: Seq<char>| #[trigger] ends_healthy(adb@, s, since(old(runner).calls(), final(runner).calls())),
        first_step(adb@, serial@, since(old(runner).calls(), final(runner).calls()), healthy),
        args.no_restart ==> spares_emulators(old(runner).calls(), final(runner).calls()),
        !healthy ==> toggled_wifi(adb@, serial@, since(old(runner).calls(), final(runner).calls())),
        !healthy && !args.no_restart ==> restart_refused(adb@, serial@, since(old(runner).calls(), final(runner).calls()))
            || restart_tried(since(old(runner).calls(), final(runner).calls())),
        stops_agreed(since(old(runner).calls(), final(runner).calls()), args.yes, args.no_restart),
        kills_after_recheck(adb@, serial@, since(old(runner).calls(), final(runner).calls()), timings.recheck.attempts as int),
{
    let ghost start = runner.calls();
    let h0 = probe(adb, runner, serial);
    let ghost probed = runner.calls();
    match h0 {
        Health::Working => {
            runner.report(Level::Success, &cat(&[serial, ": network already working"]));
            proof {
                let t = since(start, runner.calls());
                assert(t.take(t.len() as int) =~= t);
                assert(t.skip(0) =~= t);
                assert(ends_healthy(adb@, serial@, t));
                assert(probe_trace(adb@, serial@, t.take(t.len() as int), h0));
                lemma_spares_agreed(start, runner.calls(), args.yes, args.no_restart);
                lemma_no_kills(adb@, serial@, start, runner.calls(), timings.recheck.attempts as int);
            }
            return true;
        },
        Health::DnsBroken => {
            runner.report(Level::Warn, &cat(&[serial, ": connected but no DNS — ", PROBE_HOST, " does not resolve"]));
        },
        Health::Offline => {
            runner.report(Level::Warn, &cat(&[serial, ": offline — the emulator gateway ", GATEWAY, " does not answer"]));
        },
    }
    let cleared = clear_radio_blocks(adb, runner, serial);
    let ghost radios = runner.calls();
    proof {
        lemma_since_prefix(start, probed, radios);
    }
    if cleared && wait_healthy(adb, runner, serial, timings) {
        runner.report(Level::Success, &cat(&[serial, ": network back after re-enabling the radios"]));
        proof {
            lemma_repair_start(adb@, serial@, start, probed, radios, runner.calls(), h0, true);
            lemma_ends_healthy(adb@, serial@, start, radios, runner.calls());
            lemma_spares_agreed(start, runner.calls(), args.yes, args.no_restart);
                lemma_no_kills(adb@, serial@, start, runner.calls(), timings.recheck.attempts as int);
        }
        return true;
    }
    runner.report(Level::Info, &cat(&[serial, ": toggling Wi-Fi"]));
    let ghost waited = runner.calls();
    toggle_wifi(adb, runner, serial);
    let ghost toggled = runner.calls();
    if wait_healthy(adb, runner, serial, timings) {
        runner.report(Level::Success, &cat(&[serial, ": network back after a Wi-Fi toggle"]));
        proof {
            lemma_repair_start(adb@, serial@, start, probed, radios, runner.calls(), h0, true);
            lemma_ends_healthy(adb@, serial@, start, toggled, runner.calls());
            lemma_spares_agreed(start, runner.calls(), args.yes, args.no_restart);
                lemma_no_kills(adb@, serial@, start, runner.calls(), timings.recheck.attempts as int);
        }
        return true;
    }
    let ghost rechecked = runner.calls();
    let servers = dns_servers(args, runner);
    let joined = join_commas(&servers);
    let ghost asked_name = runner.calls();
    let avd = match avd_name(adb, runner, serial) {
        Some(a) => a,
        None => {
            runner.report(Level::Error, &cat(&[serial, ": cannot tell which AVD this emulator hosts — restart it with `-dns-server ", joined.as_str(), "`"]));
            proof {
                lemma_repair_start(adb@, serial@, start, probed, radios, runner.calls(), h0, false);
                lemma_toggled(adb@, serial@, start, waited, toggled, runner.calls());
                lemma_index_kept(start, asked_name, runner.calls(), runner.calls(), 0);
                assert(is_unnamed(since(start, runner.calls())[asked_name.len() - start.len()], adb@, serial@));
                lemma_spares_agreed(start, runner.calls(), args.yes, args.no_restart);
                lemma_no_kills(adb@, serial@, start, runner.calls(), timings.recheck.attempts as int);
            }
            return false;
        },
    };
    if args.no_restart {
        runner.report(Level::Warn, &cat(&[serial, ": only a restart can renew the emulator's DNS. Run: emulator -avd ", avd.as_str(), " -dns-server ", joined.as_str(), " -no-snapshot-load"]));
        proof {
            lemma_repair_start(adb@, serial@, start, probed, radios, runner.calls(), h0, false);
            lemma_toggled(adb@, serial@, start, waited, toggled, runner.calls());
            lemma_spares_agreed(start, runner.calls(), args.yes, args.no_restart);
                lemma_no_kills(adb@, serial@, start, runner.calls(), timings.recheck.attempts as int);
        }
        return false;
    }
    let ghost asking = runner.calls();
    if !args.yes {
        let prompt = cat(&["Cold-boot ", avd.as_str(), " with DNS ", joined.as_str(), "?"]);
        if !runner.confirm(prompt.as_str(), true) {
            runner.report(Level::Info, &cat(&[serial, ": left untouched"]));
            proof {
                lemma_repair_start(adb@, serial@, start, probed, radios, runner.calls(), h0, false);
                lemma_toggled(adb@, serial@, start, waited, toggled, runner.calls());
                lemma_index_kept(start, asking, runner.calls(), runner.calls(), 0);
                assert(is_refusal(since(start, runner.calls())[asking.len() - start.len()]));
                lemma_spares_agreed(start, runner.calls(), args.yes, args.no_restart);
                lemma_no_kills(adb@, serial@, start, runner.calls(), timings.recheck.attempts as int);
            }
            return false;
        }
    }
    let ghost agreed = runner.calls();
    proof {
        if !args.yes {
            lemma_index_kept(start, asking, agreed, agreed, 0);
            assert(is_agreement(since(start, agreed)[asking.len() - start.len()]));
        }
    }
    let restarted_result = restart_with_dns(adb, runner, serial, avd.as_str(), &servers, timings);
    let ghost restarted = runner.calls();
    proof {
        lemma_index_kept(start, agreed, restarted, restarted, 0);
        assert(is_emulator_lookup(since(start, restarted)[agreed.len() - start.len()]));
    }
    let healthy = match restarted_result {
        Ok(new_serial) => {
            if wait_healthy(adb, runner, new_serial.as_str(), timings) {
                runner.report(Level::Success, &cat(&[new_serial.as_str(), ": network back after a cold boot with DNS ", joined.as_str()]));
                proof {
                    lemma_ends_healthy(adb@, new_serial@, start, restarted, runner.calls());
                }
                true
            } else {
                runner.report(Level::Error, &cat(&[new_serial.as_str(), ": still no network after the cold boot — check the host's own connection"]));
                false
            }
        },
        Err(message) => {
            runner.report(Level::Error, &cat(&[serial, ": ", message.as_str()]));
            false
        },
    };
    proof {
        let end = runner.calls();
        let t = since(start, end);
        lemma_repair_start(adb@, serial@, start, probed, radios, end, h0, healthy);
        lemma_toggled(adb@, serial@, start, waited, toggled, end);
        lemma_index_kept(start, agreed, restarted, end, 0);
        assert(is_emulator_lookup(t[agreed.len() - start.len()]));
        assert forall|i: int| 0 <= i < t.len() && #[trigger] kills_emulator(t[i]) implies
            !args.no_restart && (args.yes || exists|j: int| 0 <= j < i && is_agreement(#[trigger] t[j])) by {
            if i < agreed.len() - start.len() || i >= restarted.len() - start.len() {
                lemma_no_stop_outside(start, agreed, restarted, end, i);
            } else if !args.yes {
                lemma_index_kept(start, asking, agreed, end, 0);
                assert(is_agreement(t[asking.len() - start.len()]));
            }
        }
        let w0 = toggled.len() - start.len();
        let w1 = rechecked.len() - start.len();
        lemma_toggled(adb@, serial@, start, waited, toggled, toggled);
        lemma_since_prefix(start, toggled, end);
        lemma_since_prefix(toggled, rechecked, end);
        assert(t.take(w0) == since(start, toggled));
        assert(t.subrange(w0, w1) =~= since(toggled, rechecked));
        assert(probes_failed(adb@, serial@, t.subrange(w0, w1), timings.recheck.attempts as int));
        assert forall|i: int| 0 <= i < t.len() && #[trigger] kills_emulator(t[i]) implies
            recheck_failed_before(adb@, serial@, t, timings.recheck.attempts as int, i) by {
            if i < agreed.len() - start.len() || i >= restarted.len() - start.len() {
                lemma_no_stop_outside(start, agreed, restarted, end, i);
            }
            assert(w1 <= i);
        }
    }
    healthy
}

proof fn lemma_toggled(adb: Seq<char>, serial: Seq<char>, start: Seq<Call>, before: Seq<Call>, after: Seq<Call>, end: Seq<Call>)
    requires
        extends(start, before),
        extends(before, after),
        extends(after, end),
        since(before, after).len() == 2,
        is_run(since(before, after)[0], adb, wifi_args(serial, "disable"@)),
        is_run(since(before, after)[1], adb, wifi_args(serial, "enable"@)),
    ensures
        toggled_wifi(adb, serial, since(start, end)),
{
    lemma_index_kept(start, before, after, end, 0);
    lemma_index_kept(start, before, after, end, 1);
    let t = since(start, end);
    let k = before.len() - start.len();
    assert(is_run(t[k], adb, wifi_args(serial, "disable"@)));
    assert(is_run(t[k + 1], adb, wifi_args(serial, "enable"@)));
}

/// What `fix_device` does to the emulator `serial` (`seg`), ending healthy or
/// not; see its contract.
pub open spec fn device_repaired(adb: Seq<char>, serial: Seq<char>, args: AndroidArgs, seg: Seq<Call>, healthy: bool) -> bool {
    &&& first_step(adb, serial, seg, healthy)
    &&& (healthy ==> exists|s: Seq<char>| #[trigger] ends_healthy(adb, s, seg))
    &&& (!healthy ==> toggled_wifi(adb, serial, seg))
    &&& (!healthy && !args.no_restart ==> restart_refused(adb, serial, seg) || restart_tried(seg))
    &&& stops_agreed(seg, args.yes, args.no_restart)
}

/// The emulators `serials` repaired one after the other (`rest`), with the
/// exit code: 0 when each ended healthy.
pub open spec fn devices_fixed(adb: Seq<char>, serials: Seq<Seq<char>>, args: AndroidArgs, rest: Seq<Call>, code: i32) -> bool {
    exists|segs: Seq<Seq<Call>>, oks: Seq<bool>| #[trigger] devices_fixed_by(adb, serials, args, rest, code, segs, oks)
}

/// `devices_fixed` with the requests and the result of each repair named.
pub open spec fn devices_fixed_by(
    adb: Seq<char>,
    serials: Seq<Seq<char>>,
    args: AndroidArgs,
    rest: Seq<Call>,
    code: i32,
    segs: Seq<Seq<Call>>,
    oks: Seq<bool>,
) -> bool {
    &&& rest == segs.flatten()
    &&& segs.len() == serials.len()
    &&& oks.len() == serials.len()
    &&& forall|k: int| 0 <= k < serials.len() ==> device_repaired(adb, serials[k], args, #[trigger] segs[k], oks[k])
    &&& code == (if forall|k: int| 0 <= k < oks.len() ==> oks[k] { 0i32 } else { 1i32 })
}

/// What `fix` asks (`t`) and answers (`code`): the lookup of `adb` (exit 1
/// without it); without `--avd`, `adb devices`, and then every emulator it
/// lists repaired in turn (exit 1 when none is listed); with `--avd`, the
/// emulator hosting it, when one does, repaired (exit 1 otherwise).
pub open spec fn fix_trace(args: AndroidArgs, t: Seq<Call>, code: i32) -> bool {
    exists|p: int, adb: Option<Seq<char>>|
        0 <= p <= t.len() && #[trigger] tool_locator::find_trace("adb"@, "ANDROID_HOME"@, seq!["platform-tools"@], t.take(p), adb)
        && (adb is None ==> p == t.len() && code == 1)
        && (adb is Some ==> fix_with_adb(args, adb->0, t, p, code))
}

/// What `fix` does once `adb` was found (the first `p` requests of `t`).
pub open spec fn fix_with_adb(args: AndroidArgs, adb: Seq<char>, t: Seq<Call>, p: int, code: i32) -> bool {
    &&& (args.avd is None ==> {
        let rest = t.skip(p);
        let serials = sim_android::emulator_serials(lines(reply_of(rest[0]).stdout@));
        &&& rest.len() >= 1
        &&& is_run(rest[0], adb, seq!["devices"@])
        &&& (serials.len() == 0 ==> rest.len() == 1 && code == 1)
        &&& (serials.len() > 0 ==> devices_fixed(adb, serials, args, rest.skip(1), code))
    })
    &&& (args.avd is Some ==> exists|q: int, serial: Option<Seq<char>>| #[trigger] avd_repair(adb, args, t, p, q, serial, code))
}

/// With `--avd`, after the lookup of `adb` (the first `p` requests of `t`):
/// up to `q` the search for the emulator hosting it, which found `serial`;
/// exit 1 when none does, else that emulator repaired.
pub open spec fn avd_repair(adb: Seq<char>, args: AndroidArgs, t: Seq<Call>, p: int, q: int, serial: Option<Seq<char>>, code: i32) -> bool {
    &&& p <= q <= t.len()
    &&& args.avd is Some
    &&& sim_android::hosting_trace(adb, args.avd->0@, t.subrange(p, q), serial)
    &&& (serial is None ==> q == t.len() && code == 1)
    &&& (serial is Some ==> devices_fixed(adb, seq![serial->0], args, t.skip(q), code))
}

/// Repairs the emulator hosting `--avd`, or every running emulator. Exit code 1
/// when adb is missing, nothing runs, or some emulator stayed broken.
pub fn fix<R: Runner>(args: &AndroidArgs, runner: &mut Session<R>, timings: &Timings) -> (code: i32)
    ensures
        extends(old(runner).calls(), final(runner).calls()),
        code == 0 || code == 1,
        args.no_restart ==> spares_emulators(old(runner).calls(), final(runner).calls()),
        fix_trace(*args, since(old(runner).calls(), final(runner).calls()), code),
{
    let ghost start = runner.calls();
    let found = tool_locator::adb(runner);
    let ghost located = runner.calls();
    let adb = match found {
        Some(a) => a,
        None => {
            runner.report(Level::Error, "adb not found — install the Android SDK platform-tools or set ANDROID_HOME");
            proof {
                let t = since(start, runner.calls());
                assert(t.take(t.len() as int) =~= t);
            }
            return 1;
        },
    };
    let ghost adbv = adb@;
    let mut serials: Vec<String> = Vec::new();
    let ghost mut listed_reply: RunResult = vstd::pervasive::arbitrary();
    match &args.avd {
        Some(avd) => match sim_android::serial_for_avd(adb.as_str(), runner, avd.as_str()) {
            Some(serial) => {
                serials.push(serial);
            },
            None => {
                runner.report(Level::Error, &cat(&["AVD ", avd.as_str(), " is not running"]));
                proof {
                    let t = since(start, runner.calls());
                    let p = since(start, located).len() as int;
                    lemma_since_prefix(start, located, runner.calls());
                    assert(t.take(p) =~= since(start, located));
                    assert(t.subrange(p, t.len() as int) =~= since(located, runner.calls()));
                    assert(tool_locator::find_trace("adb"@, "ANDROID_HOME"@, seq!["platform-tools"@], t.take(p), Some(adbv)));
                    assert(avd_repair(adbv, *args, t, p, t.len() as int, None, 1));
                    assert(fix_with_adb(*args, adbv, t, p, 1));
                }
                return 1;
            },
        },
        None => {
            let devices_args = ["devices"];
            assert(strs_view(devices_args@) =~= seq!["devices"@]);
            let listed = runner.run(adb.as_str(), &devices_args, None);
            proof { listed_reply = listed; }
            serials = parse_emulator_serials(listed.stdout.as_str());
            if serials.len() == 0 {
                runner.report(Level::Error, "No running emulators — start one with `mdev sim a`");
                proof {
                    let t = since(start, runner.calls());
                    let p = since(start, located).len() as int;
                    assert(t.take(p) =~= since(start, located));
                    assert(tool_locator::find_trace("adb"@, "ANDROID_HOME"@, seq!["platform-tools"@], t.take(p), Some(adbv)));
                    assert(t.skip(p)[0] == runner.calls().last());
                    assert(t.skip(p).len() == 1);
                    assert(reply_of(t.skip(p)[0]) == listed);
                    assert(views(serials@).len() == 0);
                    assert(fix_with_adb(*args, adbv, t, p, 1));
                }
                return 1;
            }
        },
    }
    let ghost picked = runner.calls();
    proof {
        lemma_since_prefix(start, located, picked);
        if args.avd is None {
            assert(since(located, picked)[0] == picked.last());
        } else {
            assert(serials@.len() == 1);
            assert(sim_android::hosting_trace(adbv, args.avd->0@, since(located, picked), Some(serials@[0]@)));
        }
    }
    let ghost sv = views(serials@);
    let mut exit_code: i32 = 0;
    let ghost mut segs: Seq<Seq<Call>> = Seq::empty();
    let ghost mut oks: Seq<bool> = Seq::empty();
    let mut i: usize = 0;
    proof {
        assert(segs.flatten() =~= Seq::<Call>::empty());
        assert(since(picked, picked) =~= segs.flatten());
    }
    while i < serials.len()
        invariant
            extends(old(runner).calls(), runner.calls()),
            start == old(runner).calls(),
            extends(picked, runner.calls()),
            exit_code == 0 || exit_code == 1,
            args.no_restart ==> spares_emulators(old(runner).calls(), runner.calls()),
            sv == views(serials@),
            adbv == adb@,
            i <= serials@.len(),
            segs.len() == i,
            oks.len() == i,
            since(picked, runner.calls()) == segs.flatten(),
            forall|k: int| 0 <= k < i ==> device_repaired(adbv, sv[k], *args, #[trigger] segs[k], oks[k]),
            exit_code == (if forall|k: int| 0 <= k < oks.len() ==> oks[k] { 0i32 } else { 1i32 }),
        decreases serials.len() - i,
    {
        let ghost before = runner.calls();
        let ok = fix_device(adb.as_str(), runner, serials[i].as_str(), args, timings);
        let ghost prev = oks;
        proof {
            let seg = since(before, runner.calls());
            assert(sv[i as int] == serials@[i as int]@);
            assert(device_repaired(adbv, sv[i as int], *args, seg, ok));
            segs.lemma_flatten_push(seg);
            lemma_since_prefix(picked, before, runner.calls());
            assert(since(picked, runner.calls()) =~= since(picked, before) + seg);
            segs = segs.push(seg);
            oks = oks.push(ok);
            if forall|k: int| 0 <= k < prev.len() ==> prev[k] {
                if ok {
                    assert forall|k: int| 0 <= k < oks.len() implies oks[k] by {
                        if k < prev.len() {
                            assert(oks[k] == prev[k]);
                        }
                    }
                }
            } else {
                let k = choose|k: int| 0 <= k < prev.len() && !prev[k];
                assert(!oks[k]);
            }
            if !ok {
                assert(!oks[oks.len() - 1]);
            }
        }
        if !ok {
            exit_code = 1;
        }
        i = i + 1;
    }
    proof {
        let t = since(start, runner.calls());
        let p = since(start, located).len() as int;
        lemma_since_prefix(start, located, runner.calls());
        lemma_since_prefix(start, picked, runner.calls());
        assert(t.take(p) =~= since(start, located));
        assert(tool_locator::find_trace("adb"@, "ANDROID_HOME"@, seq!["platform-tools"@], t.take(p), Some(adbv)));
        assert(devices_fixed_by(adbv, sv, *args, since(picked, runner.calls()), exit_code, segs, oks));
        let q = since(start, picked).len() as int;
        assert(t.skip(q) =~= since(picked, runner.calls()));
        if args.avd is None {
            let rest = t.skip(p);
            assert(rest[0] == since(located, picked)[0]);
            assert(reply_of(rest[0]) == listed_reply);
            assert(sv == sim_android::emulator_serials(lines(listed_reply.stdout@)));
            assert(rest.skip(1) =~= since(picked, runner.calls()));
            assert(devices_fixed(adbv, sv, *args, rest.skip(1), exit_code));
            assert(fix_with_adb(*args, adbv, t, p, exit_code));
        } else {
            assert(seq![sv[0]] =~= sv);
            assert(t.subrange(p, q) =~= since(located, picked));
            assert(avd_repair(adbv, *args, t, p, q, Some(sv[0]), exit_code));
            assert(fix_with_adb(*args, adbv, t, p, exit_code));
        }
    }
    exit_code
}

/// Runs `mdev fix a` with the default timings.
pub fn run<R: Runner>(args: &AndroidArgs, runner: &mut Session<R>) -> (code: i32)
    ensures
        extends(old(runner).calls(), final(runner).calls()),
        code == 0 || code == 1,
        args.no_restart ==> spares_emulators(old(runner).calls(), final(runner).calls()),
        fix_trace(*args, since(old(runner).calls(), final(runner).calls()), code),
{
    fix(args, runner, &Timings::default())
}

} // verus!
