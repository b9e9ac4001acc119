//! `mdev sim ios`: boot an iOS simulator and show it in Simulator.app.
use vstd::prelude::*;
use crate::json::{bool_member, bool_member_of, find_member, json_get, parse_json, parsed_json, str_member, str_member_of, Json};
use crate::runner::{HostOs, Level, Runner};
use crate::session::{extends, is_run, reply_of, since, strs_view, Call, Session};
use crate::text::{
    cat, chars_of, concat, contains, decimal, decimal_text, lowercase, parse_u32, parse_u32_spec, starts_with,
    starts_with_chars, str_contains, str_eq, string_of, to_lowercase,
};

verus! {

/// Options of `mdev sim ios`.
#[derive(Debug, Clone)]
pub struct IosArgs {
    /// Case-insensitive substring of the simulator name to boot.
    pub device: String,
    /// Shut the matching booted simulator down instead of booting one.
    pub off: bool,
}

/// A bootable simulator plus the runtime it belongs to.
#[derive(Debug, Clone, PartialEq)]
pub struct SimDevice {
    pub udid: String,
    pub name: String,
    pub runtime: String,
    pub booted: bool,
}

impl View for SimDevice {
    type V = (Seq<char>, Seq<char>, Seq<char>, bool);

    open spec fn view(&self) -> (Seq<char>, Seq<char>, Seq<char>, bool) {
        (self.udid@, self.name@, self.runtime@, self.booted)
    }
}

/// A copy of `d`.
fn copy_sim(d: &SimDevice) -> (r: SimDevice)
    ensures
        r@ == d@,
{
    SimDevice { udid: d.udid.clone(), name: d.name.clone(), runtime: d.runtime.clone(), booted: d.booted }
}

/// What follows the last `.` of `s` (all of `s` when it has none).
pub open spec fn tail_after_dot(s: Seq<char>) -> Seq<char>
    decreases s.len(),
{
    if s.len() == 0 {
        s
    } else if s.last() == '.' {
        Seq::empty()
    } else {
        tail_after_dot(s.drop_last()).push(s.last())
    }
}

/// The first index from `i` on that holds `-` or `.` (the length when none does).
pub open spec fn first_sep_from(v: Seq<char>, i: int) -> int
    decreases v.len() - i,
{
    if i < 0 || i >= v.len() {
        v.len() as int
    } else if v[i] == '-' || v[i] == '.' {
        i
    } else {
        first_sep_from(v, i + 1)
    }
}

/// The version text of a runtime key: after `iOS-` in the key's last
/// `.`-separated piece, or after a leading `iOS `.
pub open spec fn runtime_version_text(id: Seq<char>) -> Option<Seq<char>> {
    let tail = tail_after_dot(id);
    if starts_with(tail, "iOS-"@) {
        Some(tail.skip("iOS-"@.len() as int))
    } else if starts_with(id, "iOS "@) {
        Some(id.skip("iOS "@.len() as int))
    } else {
        None
    }
}

/// `(major, minor)` of an iOS runtime key, `None` for tvOS, watchOS and xrOS:
/// the version text split at `-` and `.`; the first piece must be a number,
/// the second counts when it is one (else 0).
pub open spec fn runtime_version(id: Seq<char>) -> Option<(u32, u32)> {
    match runtime_version_text(id) {
        None => None,
        Some(v) => {
            let s0 = first_sep_from(v, 0);
            match parse_u32_spec(v.subrange(0, s0)) {
                None => None,
                Some(major) => Some(
                    (
                        major,
                        if s0 < v.len() {
                            match parse_u32_spec(v.subrange(s0 + 1, first_sep_from(v, s0 + 1))) {
                                Some(m) => m,
                                None => 0u32,
                            }
                        } else {
                            0u32
                        },
                    ),
                ),
            }
        },
    }
}

/// What follows the last `.` of `v`; see `tail_after_dot`.
fn tail_after_dot_of(v: &[char]) -> (r: Vec<char>)
    ensures
        r@ == tail_after_dot(v@),
{
    let mut i: usize = v.len();
    assert(v@.take(v@.len() as int) =~= v@);
    assert(tail_after_dot(v@) + v@.skip(v@.len() as int) =~= tail_after_dot(v@));
    while i > 0 && v[i - 1] != '.'
        invariant
            i <= v@.len(),
            tail_after_dot(v@) == tail_after_dot(v@.take(i as int)) + v@.skip(i as int),
        decreases i,
    {
        assert(v@.take(i as int).drop_last() =~= v@.take(i - 1));
        assert(v@.skip(i - 1) =~= seq![v@[i - 1]] + v@.skip(i as int));
        assert(tail_after_dot(v@.take(i as int)) == tail_after_dot(v@.take(i - 1)).push(v@[i - 1]));
        assert(tail_after_dot(v@.take(i - 1)).push(v@[i - 1]) + v@.skip(i as int) =~= tail_after_dot(v@.take(i - 1))
            + v@.skip(i - 1));
        i = i - 1;
    }
    if i > 0 {
        assert(v@.take(i as int).last() == '.');
    }
    assert(tail_after_dot(v@.take(i as int)) =~= Seq::<char>::empty());
    assert(Seq::<char>::empty() + v@.skip(i as int) =~= v@.skip(i as int));
    let n = v.len();
    let r = crate::text::slice_of(v, i, n);
    assert(r@ =~= v@.skip(i as int));
    r
}

/// The first index from `i` on that holds `-` or `.`; see `first_sep_from`.
fn first_sep(v: &[char], i: usize) -> (r: usize)
    requires
        i <= v@.len(),
    ensures
        r == first_sep_from(v@, i as int),
        i <= r <= v@.len(),
{
    let mut k = i;
    while k < v.len() && v[k] != '-' && v[k] != '.'
        invariant
            i <= k <= v@.len(),
            first_sep_from(v@, i as int) == first_sep_from(v@, k as int),
        decreases v.len() - k,
    {
        k = k + 1;
    }
    k
}

/// The number in `v[from..to]`, as `str::parse::<u32>` reads it.
fn parse_piece(v: &[char], from: usize, to: usize) -> (r: Option<u32>)
    requires
        from <= to <= v@.len(),
    ensures
        r == parse_u32_spec(v@.subrange(from as int, to as int)),
{
    let piece = crate::text::slice_of(v, from, to);
    let s = string_of(piece.as_slice());
    parse_u32(s.as_str())
}

/// `(major, minor)` of an iOS runtime key; see `runtime_version`. Handles both
/// `com.apple.CoreSimulator.SimRuntime.iOS-26-5` and `iOS 26.5`.
pub fn ios_runtime_version(runtime_id: &str) -> (r: Option<(u32, u32)>)
    ensures
        r == runtime_version(runtime_id@),
{
    let id = chars_of(runtime_id);
    let tail = tail_after_dot_of(id.as_slice());
    let dash = chars_of("iOS-");
    let space = chars_of("iOS ");
    let v: Vec<char> = if starts_with_chars(tail.as_slice(), dash.as_slice()) {
        let n = tail.len();
        crate::text::slice_of(tail.as_slice(), dash.len(), n)
    } else if starts_with_chars(id.as_slice(), space.as_slice()) {
        let n = id.len();
        crate::text::slice_of(id.as_slice(), space.len(), n)
    } else {
        return None;
    };
    assert(runtime_version_text(runtime_id@) == Some(v@));
    let s0 = first_sep(v.as_slice(), 0);
    let major = match parse_piece(v.as_slice(), 0, s0) {
        Some(m) => m,
        None => return None,
    };
    let minor = if s0 < v.len() {
        let s1 = first_sep(v.as_slice(), s0 + 1);
        match parse_piece(v.as_slice(), s0 + 1, s1) {
            Some(m) => m,
            None => 0,
        }
    } else {
        0
    };
    Some((major, minor))
}

/// Version `a` is newer than `b`.
pub open spec fn version_newer(a: (u32, u32), b: (u32, u32)) -> bool {
    a.0 > b.0 || (a.0 == b.0 && a.1 > b.1)
}

/// The label of a runtime: `iOS <major>.<minor>`.
pub open spec fn runtime_label(v: (u32, u32)) -> Seq<char> {
    "iOS "@ + decimal(v.0 as nat) + "."@ + decimal(v.1 as nat)
}

/// The simulator that `item` describes under the runtime labelled `label`,
/// when it matches: it has a `udid`, is not marked unavailable, and its name
/// in lowercase contains `want`.
pub open spec fn item_sim(item: Json, label: Seq<char>, want: Seq<char>) -> Option<(Seq<char>, Seq<char>, Seq<char>, bool)> {
    match item {
        Json::Object(f) => {
            let name = match str_member(f@, "name"@) {
                Some(s) => s,
                None => Seq::empty(),
            };
            let udid = match str_member(f@, "udid"@) {
                Some(s) => s,
                None => Seq::empty(),
            };
            let available = match bool_member(f@, "isAvailable"@) {
                Some(b) => b,
                None => true,
            };
            if udid.len() == 0 || !available || !contains(lowercase(name), want) {
                None
            } else {
                Some((udid, name, label, str_member(f@, "state"@) == Some("Booted"@)))
            }
        },
        _ => None,
    }
}

/// The pick so far: the first booted match, and the first match of the
/// newest runtime with its version.
pub open spec fn pick_step(
    st: (Option<(Seq<char>, Seq<char>, Seq<char>, bool)>, Option<((u32, u32), (Seq<char>, Seq<char>, Seq<char>, bool))>),
    v: (u32, u32),
    d: (Seq<char>, Seq<char>, Seq<char>, bool),
) -> (Option<(Seq<char>, Seq<char>, Seq<char>, bool)>, Option<((u32, u32), (Seq<char>, Seq<char>, Seq<char>, bool))>) {
    (
        if d.3 && st.0 is None { Some(d) } else { st.0 },
        if st.1 is None || version_newer(v, (st.1->0).0) { Some((v, d)) } else { st.1 },
    )
}

/// The pick after one device entry of a runtime with version `v`.
pub open spec fn item_fold(
    st: (Option<(Seq<char>, Seq<char>, Seq<char>, bool)>, Option<((u32, u32), (Seq<char>, Seq<char>, Seq<char>, bool))>),
    v: (u32, u32),
    want: Seq<char>,
    item: Json,
) -> (Option<(Seq<char>, Seq<char>, Seq<char>, bool)>, Option<((u32, u32), (Seq<char>, Seq<char>, Seq<char>, bool))>) {
    match item_sim(item, runtime_label(v), want) {
        Some(d) => pick_step(st, v, d),
        None => st,
    }
}

/// The pick after the device entries `items` of a runtime with version `v`.
pub open spec fn items_pick(
    st: (Option<(Seq<char>, Seq<char>, Seq<char>, bool)>, Option<((u32, u32), (Seq<char>, Seq<char>, Seq<char>, bool))>),
    v: (u32, u32),
    want: Seq<char>,
    items: Seq<Json>,
) -> (Option<(Seq<char>, Seq<char>, Seq<char>, bool)>, Option<((u32, u32), (Seq<char>, Seq<char>, Seq<char>, bool))>)
    decreases items.len(),
{
    if items.len() == 0 {
        st
    } else {
        item_fold(items_pick(st, v, want, items.drop_last()), v, want, items.last())
    }
}

/// The pick after one runtime entry: iOS runtimes whose value is an array
/// contribute their devices in order; other entries are skipped.
pub open spec fn runtime_fold(
    st: (Option<(Seq<char>, Seq<char>, Seq<char>, bool)>, Option<((u32, u32), (Seq<char>, Seq<char>, Seq<char>, bool))>),
    want: Seq<char>,
    entry: (String, Json),
) -> (Option<(Seq<char>, Seq<char>, Seq<char>, bool)>, Option<((u32, u32), (Seq<char>, Seq<char>, Seq<char>, bool))>) {
    match runtime_version(entry.0@) {
        Some(v) => match entry.1 {
            Json::Array(items) => items_pick(st, v, want, items@),
            _ => st,
        },
        None => st,
    }
}

/// The pick after the runtime entries `rs`, in order.
pub open spec fn runtimes_pick(
    st: (Option<(Seq<char>, Seq<char>, Seq<char>, bool)>, Option<((u32, u32), (Seq<char>, Seq<char>, Seq<char>, bool))>),
    want: Seq<char>,
    rs: Seq<(String, Json)>,
) -> (Option<(Seq<char>, Seq<char>, Seq<char>, bool)>, Option<((u32, u32), (Seq<char>, Seq<char>, Seq<char>, bool))>)
    decreases rs.len(),
{
    if rs.len() == 0 {
        st
    } else {
        runtime_fold(runtimes_pick(st, want, rs.drop_last()), want, rs.last())
    }
}

/// The simulator `select_device` picks from a parsed listing for the
/// lowercase name fragment `want`: an already-booted match first, otherwise the
/// first match under the newest iOS runtime.
pub open spec fn picked_sim(doc: Json, want: Seq<char>) -> Option<(Seq<char>, Seq<char>, Seq<char>, bool)> {
    match json_get(doc, "devices"@) {
        Some(Json::Object(m)) => {
            let st = runtimes_pick((None, None), want, m@);
            if st.0 is Some {
                st.0
            } else {
                match st.1 {
                    Some(p) => Some(p.1),
                    None => None,
                }
            }
        },
        _ => None,
    }
}

/// Device entry `item` of a runtime with version `v` matches `want` and is booted.
pub open spec fn item_booted(item: Json, v: (u32, u32), want: Seq<char>) -> bool {
    match item_sim(item, runtime_label(v), want) {
        Some(d) => d.3,
        None => false,
    }
}

/// Entry `entry` is an iOS runtime whose device entry `j` matches `want` and is booted.
pub open spec fn booted_match_at(entry: (String, Json), want: Seq<char>, j: int) -> bool {
    match runtime_version(entry.0@) {
        Some(v) => match entry.1 {
            Json::Array(items) => 0 <= j < items@.len() && item_booted(items@[j], v, want),
            _ => false,
        },
        None => false,
    }
}

/// Some matching device of the runtime entries `rs` is booted.
pub open spec fn booted_match_in(rs: Seq<(String, Json)>, want: Seq<char>) -> bool {
    exists|i: int, j: int| 0 <= i < rs.len() && #[trigger] booted_match_at(rs[i], want, j)
}

/// The booted slot of a pick holds a booted simulator, if any.
pub open spec fn booted_slot(
    st: (Option<(Seq<char>, Seq<char>, Seq<char>, bool)>, Option<((u32, u32), (Seq<char>, Seq<char>, Seq<char>, bool))>),
) -> bool {
    st.0 is Some ==> (st.0->0).3
}

proof fn lemma_items_pick_booted(
    st: (Option<(Seq<char>, Seq<char>, Seq<char>, bool)>, Option<((u32, u32), (Seq<char>, Seq<char>, Seq<char>, bool))>),
    v: (u32, u32),
    want: Seq<char>,
    items: Seq<Json>,
)
    requires
        booted_slot(st),
    ensures
        booted_slot(items_pick(st, v, want, items)),
        st.0 is Some ==> items_pick(st, v, want, items).0 is Some,
        (exists|j: int| 0 <= j < items.len() && #[trigger] item_booted(items[j], v, want)) ==> items_pick(st, v, want, items).0 is Some,
    decreases items.len(),
{
    if items.len() > 0 {
        let rest = items.drop_last();
        lemma_items_pick_booted(st, v, want, rest);
        if exists|j: int| 0 <= j < items.len() && #[trigger] item_booted(items[j], v, want) {
            let j = choose|j: int| 0 <= j < items.len() && #[trigger] item_booted(items[j], v, want);
            if j < items.len() - 1 {
                assert(rest[j] == items[j]);
                assert(item_booted(rest[j], v, want));
            }
        }
    }
}

proof fn lemma_runtimes_pick_booted(
    st: (Option<(Seq<char>, Seq<char>, Seq<char>, bool)>, Option<((u32, u32), (Seq<char>, Seq<char>, Seq<char>, bool))>),
    want: Seq<char>,
    rs: Seq<(String, Json)>,
)
    requires
        booted_slot(st),
    ensures
        booted_slot(runtimes_pick(st, want, rs)),
        st.0 is Some ==> runtimes_pick(st, want, rs).0 is Some,
        booted_match_in(rs, want) ==> runtimes_pick(st, want, rs).0 is Some,
    decreases rs.len(),
{
    if rs.len() > 0 {
        let rest = rs.drop_last();
        lemma_runtimes_pick_booted(st, want, rest);
        let mid = runtimes_pick(st, want, rest);
        let e = rs.last();
        match runtime_version(e.0@) {
            Some(v) => match e.1 {
                Json::Array(items) => {
                    lemma_items_pick_booted(mid, v, want, items@);
                    if booted_match_in(rs, want) {
                        let (i, j) = choose|i: int, j: int| 0 <= i < rs.len() && #[trigger] booted_match_at(rs[i], want, j);
                        if i < rs.len() - 1 {
                            assert(rest[i] == rs[i]);
                            assert(booted_match_at(rest[i], want, j));
                        } else {
                            assert(item_booted(items@[j], v, want));
                        }
                    }
                },
                _ => {
                    if booted_match_in(rs, want) {
                        let (i, j) = choose|i: int, j: int| 0 <= i < rs.len() && #[trigger] booted_match_at(rs[i], want, j);
                        assert(i < rs.len() - 1);
                        assert(rest[i] == rs[i]);
                        assert(booted_match_at(rest[i], want, j));
                    }
                },
            },
            None => {
                if booted_match_in(rs, want) {
                    let (i, j) = choose|i: int, j: int| 0 <= i < rs.len() && #[trigger] booted_match_at(rs[i], want, j);
                    assert(i < rs.len() - 1);
                    assert(rest[i] == rs[i]);
                    assert(booted_match_at(rest[i], want, j));
                }
            },
        }
    }
}

/// A booted simulator wins: whenever some matching device of an iOS runtime
/// in the listing is booted, the pick is a booted simulator, even when a
/// newer runtime has a match that is not booted.
pub proof fn lemma_booted_match_wins(doc: Json, want: Seq<char>)
    requires
        match json_get(doc, "devices"@) {
            Some(Json::Object(m)) => booted_match_in(m@, want),
            _ => false,
        },
    ensures
        picked_sim(doc, want) is Some,
        (picked_sim(doc, want)->0).3,
{
    match json_get(doc, "devices"@) {
        Some(Json::Object(m)) => {
            lemma_runtimes_pick_booted((None, None), want, m@);
        },
        _ => {},
    }
}

/// Device entry `item` of a runtime with version `v` matches `want`.
pub open spec fn item_matches(item: Json, v: (u32, u32), want: Seq<char>) -> bool {
    item_sim(item, runtime_label(v), want) is Some
}

/// Entry `entry` is an iOS runtime whose device entry `j` matches `want`.
pub open spec fn match_at(entry: (String, Json), want: Seq<char>, j: int) -> bool {
    match runtime_version(entry.0@) {
        Some(v) => match entry.1 {
            Json::Array(items) => 0 <= j < items@.len() && item_matches(items@[j], v, want),
            _ => false,
        },
        None => false,
    }
}

/// Some device of an iOS runtime among `rs` matches `want`.
pub open spec fn match_in(rs: Seq<(String, Json)>, want: Seq<char>) -> bool {
    exists|i: int, j: int| 0 <= i < rs.len() && #[trigger] match_at(rs[i], want, j)
}

proof fn lemma_items_pick_some(
    st: (Option<(Seq<char>, Seq<char>, Seq<char>, bool)>, Option<((u32, u32), (Seq<char>, Seq<char>, Seq<char>, bool))>),
    v: (u32, u32),
    want: Seq<char>,
    items: Seq<Json>,
)
    ensures
        st.1 is Some ==> items_pick(st, v, want, items).1 is Some,
        (exists|j: int| 0 <= j < items.len() && #[trigger] item_matches(items[j], v, want)) ==> items_pick(st, v, want, items).1 is Some,
        items_pick(st, v, want, items).0 is Some ==> st.0 is Some || exists|j: int| 0 <= j < items.len() && #[trigger] item_matches(items[j], v, want),
        items_pick(st, v, want, items).1 is Some ==> st.1 is Some || exists|j: int| 0 <= j < items.len() && #[trigger] item_matches(items[j], v, want),
    decreases items.len(),
{
    if items.len() > 0 {
        let rest = items.drop_last();
        lemma_items_pick_some(st, v, want, rest);
        if exists|j: int| 0 <= j < items.len() && #[trigger] item_matches(items[j], v, want) {
            let j = choose|j: int| 0 <= j < items.len() && #[trigger] item_matches(items[j], v, want);
            if j < items.len() - 1 {
                assert(rest[j] == items[j]);
                assert(item_matches(rest[j], v, want));
            }
        }
        if exists|j: int| 0 <= j < rest.len() && #[trigger] item_matches(rest[j], v, want) {
            let j = choose|j: int| 0 <= j < rest.len() && #[trigger] item_matches(rest[j], v, want);
            assert(items[j] == rest[j]);
        }
        if item_matches(items.last(), v, want) {
            assert(items[items.len() - 1] == items.last());
        }
    }
}

proof fn lemma_runtimes_pick_some(
    st: (Option<(Seq<char>, Seq<char>, Seq<char>, bool)>, Option<((u32, u32), (Seq<char>, Seq<char>, Seq<char>, bool))>),
    want: Seq<char>,
    rs: Seq<(String, Json)>,
)
    ensures
        st.1 is Some ==> runtimes_pick(st, want, rs).1 is Some,
        match_in(rs, want) ==> runtimes_pick(st, want, rs).1 is Some,
        runtimes_pick(st, want, rs).0 is Some ==> st.0 is Some || match_in(rs, want),
        runtimes_pick(st, want, rs).1 is Some ==> st.1 is Some || match_in(rs, want),
    decreases rs.len(),
{
    if rs.len() > 0 {
        let rest = rs.drop_last();
        lemma_runtimes_pick_some(st, want, rest);
        let mid = runtimes_pick(st, want, rest);
        let e = rs.last();
        if match_in(rest, want) {
            let (i, j) = choose|i: int, j: int| 0 <= i < rest.len() && #[trigger] match_at(rest[i], want, j);
            assert(rs[i] == rest[i]);
            assert(match_at(rs[i], want, j));
        }
        match runtime_version(e.0@) {
            Some(v) => match e.1 {
                Json::Array(items) => {
                    lemma_items_pick_some(mid, v, want, items@);
                    if match_in(rs, want) {
                        let (i, j) = choose|i: int, j: int| 0 <= i < rs.len() && #[trigger] match_at(rs[i], want, j);
                        if i < rs.len() - 1 {
                            assert(rest[i] == rs[i]);
                            assert(match_at(rest[i], want, j));
                        } else {
                            assert(item_matches(items@[j], v, want));
                        }
                    }
                    if exists|j: int| 0 <= j < items@.len() && #[trigger] item_matches(items@[j], v, want) {
                        let j = choose|j: int| 0 <= j < items@.len() && #[trigger] item_matches(items@[j], v, want);
                        assert(rs[rs.len() - 1] == e);
                        assert(match_at(rs[rs.len() - 1], want, j));
                    }
                },
                _ => {
                    if match_in(rs, want) {
                        let (i, j) = choose|i: int, j: int| 0 <= i < rs.len() && #[trigger] match_at(rs[i], want, j);
                        assert(i < rs.len() - 1);
                        assert(rest[i] == rs[i]);
                        assert(match_at(rest[i], want, j));
                    }
                },
            },
            None => {
                if match_in(rs, want) {
                    let (i, j) = choose|i: int, j: int| 0 <= i < rs.len() && #[trigger] match_at(rs[i], want, j);
                    assert(i < rs.len() - 1);
                    assert(rest[i] == rs[i]);
                    assert(match_at(rest[i], want, j));
                }
            },
        }
    }
}

/// A simulator is picked exactly when the listing has a `devices` object in
/// which some device of an iOS runtime matches: it has a udid, is not marked
/// unavailable, and its lowercased name contains `want`.
pub proof fn lemma_pick_iff_match(doc: Json, want: Seq<char>)
    ensures
        picked_sim(doc, want) is Some <==> match json_get(doc, "devices"@) {
            Some(Json::Object(m)) => match_in(m@, want),
            _ => false,
        },
{
    match json_get(doc, "devices"@) {
        Some(Json::Object(m)) => {
            lemma_runtimes_pick_some((None, None), want, m@);
        },
        _ => {},
    }
}

proof fn lemma_items_pick_newest(
    st: (Option<(Seq<char>, Seq<char>, Seq<char>, bool)>, Option<((u32, u32), (Seq<char>, Seq<char>, Seq<char>, bool))>),
    v: (u32, u32),
    want: Seq<char>,
    items: Seq<Json>,
)
    ensures
        ({
            let r = items_pick(st, v, want, items).1;
            &&& st.1 is Some ==> r is Some && !version_newer((st.1->0).0, (r->0).0)
            &&& (exists|j: int| 0 <= j < items.len() && #[trigger] item_matches(items[j], v, want))
                ==> r is Some && !version_newer(v, (r->0).0)
            &&& r is Some ==> r == st.1 || ((r->0).0 == v && (r->0).1.2 == runtime_label(v))
        }),
    decreases items.len(),
{
    if items.len() > 0 {
        let rest = items.drop_last();
        lemma_items_pick_newest(st, v, want, rest);
        if exists|j: int| 0 <= j < items.len() && #[trigger] item_matches(items[j], v, want) {
            let j = choose|j: int| 0 <= j < items.len() && #[trigger] item_matches(items[j], v, want);
            if j < items.len() - 1 {
                assert(rest[j] == items[j]);
                assert(item_matches(rest[j], v, want));
            }
        }
    }
}

proof fn lemma_runtimes_pick_newest(
    st: (Option<(Seq<char>, Seq<char>, Seq<char>, bool)>, Option<((u32, u32), (Seq<char>, Seq<char>, Seq<char>, bool))>),
    want: Seq<char>,
    rs: Seq<(String, Json)>,
)
    ensures
        ({
            let r = runtimes_pick(st, want, rs).1;
            &&& st.1 is Some ==> r is Some && !version_newer((st.1->0).0, (r->0).0)
            &&& forall|i: int, j: int| 0 <= i < rs.len() && #[trigger] match_at(rs[i], want, j)
                ==> r is Some && !version_newer(runtime_version(rs[i].0@)->0, (r->0).0)
            &&& r is Some ==> r == st.1 || (r->0).1.2 == runtime_label((r->0).0)
        }),
    decreases rs.len(),
{
    if rs.len() > 0 {
        let rest = rs.drop_last();
        lemma_runtimes_pick_newest(st, want, rest);
        let mid = runtimes_pick(st, want, rest);
        let e = rs.last();
        match runtime_version(e.0@) {
            Some(v) => match e.1 {
                Json::Array(items) => {
                    lemma_items_pick_newest(mid, v, want, items@);
                    assert forall|i: int, j: int| 0 <= i < rs.len() && #[trigger] match_at(rs[i], want, j) implies
                        runtimes_pick(st, want, rs).1 is Some && !version_newer(runtime_version(rs[i].0@)->0, (runtimes_pick(st, want, rs).1->0).0) by {
                        if i < rs.len() - 1 {
                            assert(rest[i] == rs[i]);
                            assert(match_at(rest[i], want, j));
                        } else {
                            assert(item_matches(items@[j], v, want));
                        }
                    }
                },
                _ => {
                    assert forall|i: int, j: int| 0 <= i < rs.len() && #[trigger] match_at(rs[i], want, j) implies
                        runtimes_pick(st, want, rs).1 is Some && !version_newer(runtime_version(rs[i].0@)->0, (runtimes_pick(st, want, rs).1->0).0) by {
                        assert(i < rs.len() - 1);
                        assert(rest[i] == rs[i]);
                        assert(match_at(rest[i], want, j));
                    }
                },
            },
            None => {
                assert forall|i: int, j: int| 0 <= i < rs.len() && #[trigger] match_at(rs[i], want, j) implies
                    runtimes_pick(st, want, rs).1 is Some && !version_newer(runtime_version(rs[i].0@)->0, (runtimes_pick(st, want, rs).1->0).0) by {
                    assert(i < rs.len() - 1);
                    assert(rest[i] == rs[i]);
                    assert(match_at(rest[i], want, j));
                }
            },
        }
    }
}

/// A pick that is not already booted comes from the newest iOS runtime with a
/// match: it carries that runtime's `iOS <major>.<minor>` label, and no
/// matching device sits under a newer runtime.
pub proof fn lemma_unbooted_pick_is_newest(doc: Json, want: Seq<char>)
    requires
        picked_sim(doc, want) is Some,
        !(picked_sim(doc, want)->0).3,
    ensures
        match json_get(doc, "devices"@) {
            Some(Json::Object(m)) => exists|w: (u32, u32)| {
                &&& (picked_sim(doc, want)->0).2 == runtime_label(w)
                &&& forall|i: int, j: int| 0 <= i < m@.len() && #[trigger] match_at(m@[i], want, j)
                    ==> !version_newer(runtime_version(m@[i].0@)->0, w)
            },
            _ => false,
        },
{
    match json_get(doc, "devices"@) {
        Some(Json::Object(m)) => {
            let init: (Option<(Seq<char>, Seq<char>, Seq<char>, bool)>, Option<((u32, u32), (Seq<char>, Seq<char>, Seq<char>, bool))>) = (None, None);
            lemma_runtimes_pick_booted(init, want, m@);
            lemma_runtimes_pick_newest(init, want, m@);
            let st = runtimes_pick(init, want, m@);
            assert(st.0 is None);
            let w = (st.1->0).0;
            assert((picked_sim(doc, want)->0).2 == runtime_label(w));
        },
        _ => {},
    }
}

/// The view of an optional simulator.
pub open spec fn opt_sim(o: Option<SimDevice>) -> Option<(Seq<char>, Seq<char>, Seq<char>, bool)> {
    match o {
        Some(d) => Some(d@),
        None => None,
    }
}

/// The simulator that `item` describes, when it matches; see `item_sim`.
fn sim_of(item: &Json, label: &str, want: &str) -> (r: Option<SimDevice>)
    ensures
        opt_sim(r) == item_sim(*item, label@, want@),
{
    let f = match item {
        Json::Object(f) => f,
        _ => return None,
    };
    let name: &str = match str_member_of(f, "name") {
        Some(s) => s,
        None => {
            proof {
                reveal_strlit("");
            }
            ""
        },
    };
    let udid: &str = match str_member_of(f, "udid") {
        Some(s) => s,
        None => {
            proof {
                reveal_strlit("");
            }
            ""
        },
    };
    assert(name@ == match str_member(f@, "name"@) {
        Some(s) => s,
        None => Seq::<char>::empty(),
    });
    assert(udid@ == match str_member(f@, "udid"@) {
        Some(s) => s,
        None => Seq::<char>::empty(),
    });
    let available = match bool_member_of(f, "isAvailable") {
        Some(b) => b,
        None => true,
    };
    if udid.is_empty() || !available {
        return None;
    }
    let lower = to_lowercase(name);
    if !str_contains(lower.as_str(), want) {
        return None;
    }
    let booted = match str_member_of(f, "state") {
        Some(s) => str_eq(s, "Booted"),
        None => false,
    };
    Some(SimDevice { udid: udid.to_string(), name: name.to_string(), runtime: label.to_string(), booted })
}

/// The label of a runtime; see `runtime_label`.
fn label_of(v: (u32, u32)) -> (r: String)
    ensures
        r@ == runtime_label(v),
{
    let major = decimal_text(v.0 as u64);
    let minor = decimal_text(v.1 as u64);
    let a = concat("iOS ", major.as_str());
    let b = concat(a.as_str(), ".");
    concat(b.as_str(), minor.as_str())
}

/// Picks the simulator from a parsed listing for the name fragment `want`
/// (matched case-insensitively); see `picked_sim`.
pub fn select_device_in(doc: &Json, want: &str) -> (r: Option<SimDevice>)
    ensures
        opt_sim(r) == picked_sim(*doc, lowercase(want@)),
{
    let fields = match doc {
        Json::Object(f) => f,
        _ => return None,
    };
    let runtimes = match find_member(fields, "devices") {
        Some(Json::Object(m)) => m,
        _ => return None,
    };
    let want_lc = to_lowercase(want);
    let ghost w = want_lc@;
    let mut booted: Option<SimDevice> = None;
    let mut newest: Option<((u32, u32), SimDevice)> = None;
    let mut i: usize = 0;
    while i < runtimes.len()
        invariant
            i <= runtimes@.len(),
            w == want_lc@,
            (opt_sim(booted), match newest {
                Some(p) => Some((p.0, p.1@)),
                None => None,
            }) == runtimes_pick((None, None), w, runtimes@.take(i as int)),
        decreases runtimes.len() - i,
    {
        assert(runtimes@.take(i + 1).drop_last() =~= runtimes@.take(i as int));
        let ghost st0 = runtimes_pick((None, None), w, runtimes@.take(i as int));
        let version = ios_runtime_version(runtimes[i].0.as_str());
        if let Some(v) = version {
            if let Json::Array(items) = &runtimes[i].1 {
                let label = label_of(v);
                let mut j: usize = 0;
                while j < items.len()
                    invariant
                        j <= items@.len(),
                        w == want_lc@,
                        label@ == runtime_label(v),
                        (opt_sim(booted), match newest {
                            Some(p) => Some((p.0, p.1@)),
                            None => None,
                        }) == items_pick(st0, v, w, items@.take(j as int)),
                    decreases items.len() - j,
                {
                    assert(items@.take(j + 1).drop_last() =~= items@.take(j as int));
                    if let Some(d) = sim_of(&items[j], label.as_str(), want_lc.as_str()) {
                        if d.booted && booted.is_none() {
                            booted = Some(copy_sim(&d));
                        }
                        let replace = match &newest {
                            None => true,
                            Some(best) => {
                                let (bmaj, bmin) = best.0;
                                v.0 > bmaj || (v.0 == bmaj && v.1 > bmin)
                            },
                        };
                        if replace {
                            newest = Some((v, d));
                        }
                    }
                    j = j + 1;
                }
                assert(items@.take(items@.len() as int) =~= items@);
            }
        }
        i = i + 1;
    }
    assert(runtimes@.take(runtimes@.len() as int) =~= runtimes@);
    if booted.is_some() {
        booted
    } else {
        match newest {
            Some(p) => Some(p.1),
            None => None,
        }
    }
}

/// Picks, from the text of `xcrun simctl list devices available --json`, an
/// already-booted match first, otherwise the first match under the newest iOS
/// runtime; `None` when the text is not JSON or nothing matches.
pub fn select_device(json: &str, want: &str) -> (r: Option<SimDevice>)
    ensures
        opt_sim(r) == match parsed_json(json@) {
            Some(doc) => picked_sim(doc, lowercase(want@)),
            None => None,
        },
{
    match parse_json(json) {
        Some(doc) => select_device_in(&doc, want),
        None => None,
    }
}

/// The simulator `text` (the `simctl list` output) offers for `want`.
pub open spec fn offered(text: Seq<char>, want: Seq<char>) -> Option<(Seq<char>, Seq<char>, Seq<char>, bool)> {
    match parsed_json(text) {
        Some(doc) => picked_sim(doc, lowercase(want)),
        None => None,
    }
}

/// The listing request of available simulators.
pub open spec fn list_args() -> Seq<Seq<char>> {
    seq!["simctl"@, "list"@, "devices"@, "available"@, "--json"@]
}

/// What `stop` asks (`t`) and answers (`code`): the host system (1 off
/// macOS); the simulator listing (1 when it fails); the device it offers for
/// `want` when that one is booted, shut down with `simctl shutdown <udid>`
/// (0 when that worked, else 1); 0 with nothing more when none is booted.
pub open spec fn ios_stop_trace(want: Seq<char>, t: Seq<Call>, code: i32) -> bool {
    &&& t.len() >= 1
    &&& match t[0] {
        Call::Host { reply } => if reply != HostOs::MacOs {
            t.len() == 1 && code == 1
        } else {
            &&& t.len() >= 2
            &&& is_run(t[1], "xcrun"@, list_args())
            &&& if reply_of(t[1]).exit_code != 0 {
                t.len() == 2 && code == 1
            } else {
                match offered(reply_of(t[1]).stdout@, want) {
                    Some(d) => if d.3 {
                        &&& t.len() == 3
                        &&& is_run(t[2], "xcrun"@, seq!["simctl"@, "shutdown"@, d.0])
                        &&& code == (if reply_of(t[2]).exit_code == 0 { 0i32 } else { 1i32 })
                    } else {
                        t.len() == 2 && code == 0
                    },
                    None => t.len() == 2 && code == 0,
                }
            }
        },
        _ => false,
    }
}

/// What `run` asks (`t`) and answers (`code`) when not turning a simulator
/// off: the host system (1 off macOS); the simulator listing (1 when it
/// fails); the device it offers for `want` (1 when none); `simctl bootstatus
/// <udid> -b` (1 when it fails); then `open -a Simulator` and 0.
pub open spec fn ios_run_trace(want: Seq<char>, t: Seq<Call>, code: i32) -> bool {
    &&& t.len() >= 1
    &&& match t[0] {
        Call::Host { reply } => if reply != HostOs::MacOs {
            t.len() == 1 && code == 1
        } else {
            &&& t.len() >= 2
            &&& is_run(t[1], "xcrun"@, list_args())
            &&& if reply_of(t[1]).exit_code != 0 {
                t.len() == 2 && code == 1
            } else {
                match offered(reply_of(t[1]).stdout@, want) {
                    Some(d) => {
                        &&& t.len() >= 3
                        &&& is_run(t[2], "xcrun"@, seq!["simctl"@, "bootstatus"@, d.0, "-b"@])
                        &&& if reply_of(t[2]).exit_code != 0 {
                            t.len() == 3 && code == 1
                        } else {
                            &&& t.len() == 4
                            &&& is_run(t[3], "open"@, seq!["-a"@, "Simulator"@])
                            &&& code == 0
                        }
                    },
                    None => t.len() == 2 && code == 1,
                }
            }
        },
        _ => false,
    }
}

/// Shuts down the booted simulator matching `--device`. Returns 0 when it
/// was shut down or none is booted, 1 on failure; see `ios_stop_trace`.
fn stop<R: Runner>(args: &IosArgs, runner: &mut Session<R>) -> (code: i32)
    ensures
        code == 0 || code == 1,
        extends(old(runner).calls(), final(runner).calls()),
        ios_stop_trace(args.device@, since(old(runner).calls(), final(runner).calls()), code),
{
    let ghost start = runner.calls();
    let os = runner.host_os();
    let ghost c0 = runner.calls().last();
    if os != HostOs::MacOs {
        runner.report(Level::Error, "iOS simulators require macOS with Xcode");
        assert(since(start, runner.calls()) =~= seq![c0]);
        return 1;
    }
    let list = ["simctl", "list", "devices", "available", "--json"];
    assert(strs_view(list@) =~= list_args());
    let listed = runner.run("xcrun", &list, None);
    let ghost c1 = runner.calls().last();
    assert(since(start, runner.calls()) =~= seq![c0, c1]);
    let ghost mid = runner.calls();
    if !listed.is_success() {
        runner.report(Level::Error, "Could not list simulators — is Xcode installed?");
        if !listed.stderr.as_str().is_empty() {
            runner.report(Level::Detail, listed.stderr.as_str());
        }
        return 1;
    }
    let device = match select_device(listed.stdout.as_str(), args.device.as_str()) {
        Some(d) => {
            if d.booted {
                d
            } else {
                runner.report(Level::Info, cat(&["No booted iOS simulator matching '", args.device.as_str(), "'"]).as_str());
                return 0;
            }
        },
        None => {
            runner.report(Level::Info, cat(&["No booted iOS simulator matching '", args.device.as_str(), "'"]).as_str());
            return 0;
        },
    };
    let shutdown = ["simctl", "shutdown", device.udid.as_str()];
    assert(strs_view(shutdown@) =~= seq!["simctl"@, "shutdown"@, device.udid@]);
    let down = runner.run("xcrun", &shutdown, None);
    let ghost c2 = runner.calls().last();
    assert(since(start, runner.calls()) =~= seq![c0, c1, c2]);
    if down.is_success() {
        runner.report(Level::Success, cat(&["Simulator off: ", device.name.as_str(), " (", device.runtime.as_str(), ")"]).as_str());
        0
    } else {
        runner.report(Level::Error, cat(&["Failed to shut down ", device.name.as_str()]).as_str());
        let reason = if down.stderr.as_str().is_empty() { down.stdout.as_str() } else { down.stderr.as_str() };
        if !reason.is_empty() {
            runner.report(Level::Detail, reason);
        }
        1
    }
}

/// Boots the matching simulator (reusing a booted one), waits for the boot to
/// finish and opens Simulator.app; with `--off` shuts the matching booted one
/// down instead. Returns 0 on success, 1 on failure; see `ios_run_trace` and
/// `ios_stop_trace`.
pub fn run<R: Runner>(args: &IosArgs, runner: &mut Session<R>) -> (code: i32)
    ensures
        code == 0 || code == 1,
        extends(old(runner).calls(), final(runner).calls()),
        args.off ==> ios_stop_trace(args.device@, since(old(runner).calls(), final(runner).calls()), code),
        !args.off ==> ios_run_trace(args.device@, since(old(runner).calls(), final(runner).calls()), code),
{
    if args.off {
        return stop(args, runner);
    }
    let ghost start = runner.calls();
    let os = runner.host_os();
    let ghost c0 = runner.calls().last();
    if os != HostOs::MacOs {
        runner.report(Level::Error, "iOS simulators require macOS with Xcode");
        assert(since(start, runner.calls()) =~= seq![c0]);
        return 1;
    }
    let list = ["simctl", "list", "devices", "available", "--json"];
    assert(strs_view(list@) =~= list_args());
    let listed = runner.run("xcrun", &list, None);
    let ghost c1 = runner.calls().last();
    assert(since(start, runner.calls()) =~= seq![c0, c1]);
    if !listed.is_success() {
        runner.report(Level::Error, "Could not list simulators — is Xcode installed?");
        if !listed.stderr.as_str().is_empty() {
            runner.report(Level::Detail, listed.stderr.as_str());
        }
        return 1;
    }
    let device = match select_device(listed.stdout.as_str(), args.device.as_str()) {
        Some(d) => d,
        None => {
            runner.report(Level::Error, cat(&["No available iOS simulator matching '", args.device.as_str(), "'"]).as_str());
            runner.report(Level::Detail, "List them with: xcrun simctl list devices available");
            return 1;
        },
    };
    if device.booted {
        runner.report(Level::Info, cat(&[device.name.as_str(), " (", device.runtime.as_str(), ") already booted"]).as_str());
    } else {
        runner.report(Level::Info, cat(&["Booting ", device.name.as_str(), " (", device.runtime.as_str(), ")"]).as_str());
    }
    runner.report(Level::Detail, cat(&["Waiting for ", device.name.as_str(), " to boot"]).as_str());
    let status = ["simctl", "bootstatus", device.udid.as_str(), "-b"];
    assert(strs_view(status@) =~= seq!["simctl"@, "bootstatus"@, device.udid@, "-b"@]);
    let boot = runner.run("xcrun", &status, None);
    let ghost c2 = runner.calls().last();
    assert(since(start, runner.calls()) =~= seq![c0, c1, c2]);
    if !boot.is_success() {
        runner.report(Level::Error, cat(&["Failed to boot ", device.name.as_str()]).as_str());
        let reason = if boot.stderr.as_str().is_empty() { boot.stdout.as_str() } else { boot.stderr.as_str() };
        if !reason.is_empty() {
            runner.report(Level::Detail, reason);
        }
        return 1;
    }
    let open_args = ["-a", "Simulator"];
    assert(strs_view(open_args@) =~= seq!["-a"@, "Simulator"@]);
    runner.run("open", &open_args, None);
    let ghost c3 = runner.calls().last();
    assert(since(start, runner.calls()) =~= seq![c0, c1, c2, c3]);
    runner.report(
        Level::Success,
        cat(&["Simulator ready: ", device.name.as_str(), " (", device.runtime.as_str(), ") — ", device.udid.as_str()]).as_str(),
    );
    0
}

} // verus!
