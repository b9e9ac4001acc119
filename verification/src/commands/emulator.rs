//! `mdev emulator`: apply `config.ini` tweaks to local Android AVDs.
use vstd::prelude::*;
use crate::runner::{Level, Runner};
use crate::session::{extends, since, Call, Session};
use crate::text::{
    cat, chars_eq, chars_of, contains, contains_chars, find_char, index_of, is_ws, lines, lines_of,
    slice_of, split, split_chars, starts_with, starts_with_chars, string_of, strip_cr, trim,
    trim_chars, trim_start,
};

verus! {

/// Options of `mdev emulator`.
#[derive(Debug, Clone)]
pub struct EmulatorArgs {
    pub command: EmulatorCommands,
}

/// Subcommands of `mdev emulator`.
#[derive(Debug, Clone)]
pub enum EmulatorCommands {
    /// Apply config.ini tweaks to every local Android AVD.
    ///
    /// Default tweak: showAVDManager=no (takes effect on next emulator boot).
    /// Use --set key=value to add or override tweaks. Keys are case-sensitive
    /// and emulator-version-dependent; verify against Android emulator docs
    /// before trusting non-default keys.
    Config(EmulatorConfigArgs),
    /// List known AVD config.ini tweaks with human-readable descriptions.
    List,
}

/// Options of `mdev emulator config`.
#[derive(Debug, Clone)]
pub struct EmulatorConfigArgs {
    /// Preview without writing.
    pub dry_run: bool,
    /// Also edit AVDs whose emulator appears to be running.
    pub force: bool,
    /// Only apply to this AVD (repeatable, by name).
    pub avd: Vec<String>,
    /// Extra key=value tweak (repeatable; overrides defaults for same key).
    pub set: Vec<String>,
    /// Copy config.ini to config.ini.bak before editing.
    pub backup: bool,
    /// Verbose output.
    pub verbose: bool,
}

/// Line ending of a `config.ini`.
#[derive(Copy, Clone, Eq, PartialEq, Debug, Structural)]
pub enum Eol {
    Lf,
    Crlf,
}

/// What an upsert did to one key.
#[derive(Copy, Clone, Eq, PartialEq, Debug, Structural)]
pub enum UpsertOutcome {
    Added,
    Replaced,
    Unchanged,
}

/// Per-key outcomes of an upsert, and the line ending kept.
#[derive(Debug)]
pub struct UpsertReport {
    pub per_key: Vec<(String, UpsertOutcome)>,
    pub eol: Eol,
}

/// A key=value pair as plain values.
pub type Pair = (Seq<char>, Seq<char>);

/// The views of `pairs`.
pub open spec fn pair_views(pairs: Seq<(String, String)>) -> Seq<Pair> {
    pairs.map_values(|p: (String, String)| (p.0@, p.1@))
}

/// The index of the first pair with key `k`.
pub open spec fn key_index(pairs: Seq<Pair>, k: Seq<char>) -> Option<int>
    decreases pairs.len(),
{
    if pairs.len() == 0 {
        None
    } else if pairs[0].0 == k {
        Some(0)
    } else {
        match key_index(pairs.drop_first(), k) {
            Some(i) => Some(i + 1),
            None => None,
        }
    }
}

/// `pairs` with the value of key `k` set to `v`: the first pair with that key is
/// replaced in place, or the pair is appended.
pub open spec fn set_pair(pairs: Seq<Pair>, k: Seq<char>, v: Seq<char>) -> Seq<Pair> {
    match key_index(pairs, k) {
        Some(i) => pairs.update(i, (k, v)),
        None => pairs.push((k, v)),
    }
}

/// Every key occurs at most once.
pub open spec fn keys_unique(pairs: Seq<Pair>) -> bool {
    forall|i: int, j: int| 0 <= i < j < pairs.len() ==> #[trigger] pairs[i].0 != #[trigger] pairs[j].0
}

proof fn lemma_key_index(pairs: Seq<Pair>, k: Seq<char>)
    ensures
        match key_index(pairs, k) {
            Some(i) => 0 <= i < pairs.len() && pairs[i].0 == k && forall|m: int| 0 <= m < i ==> pairs[m].0 != k,
            None => forall|m: int| 0 <= m < pairs.len() ==> pairs[m].0 != k,
        },
    decreases pairs.len(),
{
    if pairs.len() > 0 {
        lemma_key_index(pairs.drop_first(), k);
        if pairs[0].0 != k {
            assert forall|m: int| 0 < m < pairs.len() implies pairs[m] == pairs.drop_first()[m - 1] by {}
        }
    }
}

/// Setting a pair keeps keys unique.
pub proof fn lemma_set_pair_keeps_keys_unique(pairs: Seq<Pair>, k: Seq<char>, v: Seq<char>)
    requires
        keys_unique(pairs),
    ensures
        keys_unique(set_pair(pairs, k, v)),
        key_index(set_pair(pairs, k, v), k) is Some,
        set_pair(pairs, k, v)[key_index(set_pair(pairs, k, v), k)->0] == (k, v),
{
    lemma_key_index(pairs, k);
    let r = set_pair(pairs, k, v);
    lemma_key_index(r, k);
    match key_index(pairs, k) {
        Some(i) => {
            assert forall|a: int, b: int| 0 <= a < b < r.len() implies #[trigger] r[a].0 != #[trigger] r[b].0 by {
                if a != i && b != i {
                    assert(pairs[a].0 != pairs[b].0);
                } else if a == i {
                    assert(pairs[i].0 != pairs[b].0);
                } else {
                    assert(pairs[a].0 != pairs[i].0);
                }
            }
            match key_index(r, k) {
                Some(j) => {
                    if j < i {
                        assert(r[j] == pairs[j]);
                    }
                    if j > i {
                        assert(r[i].0 == k);
                    }
                },
                None => {
                    assert(r[i].0 == k);
                },
            }
        },
        None => {
            assert forall|a: int, b: int| 0 <= a < b < r.len() implies #[trigger] r[a].0 != #[trigger] r[b].0 by {
                if b < pairs.len() {
                    assert(pairs[a].0 != pairs[b].0);
                } else {
                    assert(r[a] == pairs[a]);
                }
            }
            match key_index(r, k) {
                Some(j) => {
                    if j < pairs.len() {
                        assert(r[j] == pairs[j]);
                    }
                },
                None => {
                    assert(r[pairs.len() as int].0 == k);
                },
            }
        },
    }
}

/// The message for a malformed `--set` value.
pub open spec fn invalid_set_message(raw: Seq<char>) -> Seq<char> {
    "invalid --set value: "@ + raw + ", expected key=value"@
}

/// The pair a `--set key=value` argument gives: the key is trimmed and must
/// not be empty; the value is everything after the first `=`, untouched.
pub open spec fn tweak_of(raw: Seq<char>) -> Option<Pair> {
    match index_of(raw, '=') {
        Some(i) => {
            let k = trim(raw.take(i));
            if k.len() == 0 {
                None
            } else {
                Some((k, raw.skip(i + 1)))
            }
        },
        None => None,
    }
}

/// The tweaks the `--set` arguments `raws` give, in order, a later value for a
/// key replacing an earlier one in place; the first malformed argument is
/// reported instead.
pub open spec fn parse_tweaks_spec(raws: Seq<Seq<char>>) -> Result<Seq<Pair>, Seq<char>>
    decreases raws.len(),
{
    if raws.len() == 0 {
        Ok(Seq::empty())
    } else {
        match parse_tweaks_spec(raws.drop_last()) {
            Err(e) => Err(e),
            Ok(prev) => match tweak_of(raws.last()) {
                Some(p) => Ok(set_pair(prev, p.0, p.1)),
                None => Err(invalid_set_message(raws.last())),
            },
        }
    }
}

/// Sets `k` to `v` in `out`; see `set_pair`.
fn set_pair_exec(out: &mut Vec<(String, String)>, k: String, v: String)
    ensures
        pair_views(final(out)@) == set_pair(pair_views(old(out)@), k@, v@),
{
    let ghost pv = pair_views(out@);
    proof {
        lemma_key_index(pv, k@);
    }
    let mut i: usize = 0;
    while i < out.len()
        invariant
            i <= out@.len(),
            pv == pair_views(out@),
            out@ == old(out)@,
            pv == pair_views(old(out)@),
            forall|m: int| 0 <= m < i ==> pv[m].0 != k@,
        decreases out.len() - i,
    {
        if crate::text::str_eq(out[i].0.as_str(), k.as_str()) {
            proof {
                lemma_key_index(pv, k@);
                match key_index(pv, k@) {
                    Some(j) => {
                        if j < i {
                            assert(pv[j].0 != k@);
                        }
                        if j > i {
                            assert(pv[i as int].0 == k@);
                        }
                    },
                    None => {
                        assert(pv[i as int].0 == k@);
                    },
                }
            }
            out.set(i, (k, v));
            assert(pair_views(out@) =~= pv.update(i as int, (k@, v@)));
            return;
        }
        i = i + 1;
    }
    proof {
        if key_index(pv, k@) is Some {
            let j = key_index(pv, k@)->0;
            assert(pv[j].0 != k@);
        }
    }
    out.push((k, v));
    assert(pair_views(out@) =~= pv.push((k@, v@)));
}

/// Parses the `--set key=value` arguments; see `parse_tweaks_spec`.
pub fn parse_tweaks(set: &[String]) -> (r: Result<Vec<(String, String)>, String>)
    ensures
        match r {
            Ok(v) => parse_tweaks_spec(set@.map_values(|s: String| s@)) == Ok::<Seq<Pair>, Seq<char>>(pair_views(v@)),
            Err(e) => parse_tweaks_spec(set@.map_values(|s: String| s@)) == Err::<Seq<Pair>, Seq<char>>(e@),
        },
{
    let ghost raws = set@.map_values(|s: String| s@);
    let mut out: Vec<(String, String)> = Vec::new();
    assert(pair_views(out@) =~= Seq::<Pair>::empty());
    assert(raws.take(0) =~= Seq::<Seq<char>>::empty());
    let mut n: usize = 0;
    while n < set.len()
        invariant
            n <= set@.len(),
            raws == set@.map_values(|s: String| s@),
            parse_tweaks_spec(raws.take(n as int)) == Ok::<Seq<Pair>, Seq<char>>(pair_views(out@)),
        decreases set.len() - n,
    {
        assert(raws.take(n + 1).drop_last() =~= raws.take(n as int));
        let raw = &set[n];
        let chars = chars_of(raw.as_str());
        let idx = find_char(chars.as_slice(), '=');
        let head = crate::text::concat("invalid --set value: ", raw.as_str());
        let bad = crate::text::concat(head.as_str(), ", expected key=value");
        match idx {
            None => {
                proof {
                    reveal_strlit("invalid --set value: ");
                    reveal_strlit(", expected key=value");
                    assert(bad@ =~= invalid_set_message(raw@));
                    lemma_err_persists(raws, n as int + 1);
                }
                return Err(bad);
            },
            Some(i) => {
                assert(i < chars@.len());
                let left = slice_of(chars.as_slice(), 0, i);
                let k = trim_chars(left.as_slice());
                assert(left@ =~= raw@.take(i as int));
                if k.len() == 0 {
                    proof {
                        reveal_strlit("invalid --set value: ");
                        reveal_strlit(", expected key=value");
                        assert(bad@ =~= invalid_set_message(raw@));
                        lemma_err_persists(raws, n as int + 1);
                    }
                    return Err(bad);
                }
                let n_chars = chars.len();
                let right = slice_of(chars.as_slice(), i + 1, n_chars);
                assert(right@ =~= raw@.skip(i + 1));
                set_pair_exec(&mut out, string_of(k.as_slice()), string_of(right.as_slice()));
            },
        }
        n = n + 1;
    }
    assert(raws.take(set@.len() as int) =~= raws);
    Ok(out)
}

/// Once a prefix of the arguments is malformed, so is every longer prefix.
proof fn lemma_err_persists(raws: Seq<Seq<char>>, n: int)
    requires
        0 <= n <= raws.len(),
        parse_tweaks_spec(raws.take(n)) is Err,
    ensures
        parse_tweaks_spec(raws) == parse_tweaks_spec(raws.take(n)),
    decreases raws.len() - n,
{
    if n < raws.len() {
        assert(raws.take(n + 1).drop_last() =~= raws.take(n));
        lemma_err_persists(raws, n + 1);
    } else {
        assert(raws.take(n) =~= raws);
    }
}

/// The tweaks `defaults` then `overrides` set, one value per key.
pub open spec fn merged_tweaks(defaults: Seq<Pair>, overrides: Seq<Pair>) -> Seq<Pair>
    decreases overrides.len(),
{
    if overrides.len() == 0 {
        defaults
    } else {
        let prev = merged_tweaks(defaults, overrides.drop_last());
        set_pair(prev, overrides.last().0, overrides.last().1)
    }
}

/// The views of `&str` pairs.
pub open spec fn str_pair_views(pairs: Seq<(&str, &str)>) -> Seq<Pair> {
    pairs.map_values(|p: (&str, &str)| (p.0@, p.1@))
}

/// The defaults, with each override setting its key (replacing a default's
/// value in place, or appended).
pub fn merge_tweaks(defaults: &[(&str, &str)], overrides: Vec<(String, String)>) -> (r: Vec<(String, String)>)
    ensures
        pair_views(r@) == merged_tweaks(str_pair_views(defaults@), pair_views(overrides@)),
{
    let mut out: Vec<(String, String)> = Vec::new();
    let mut i: usize = 0;
    while i < defaults.len()
        invariant
            i <= defaults@.len(),
            pair_views(out@) == str_pair_views(defaults@).take(i as int),
        decreases defaults.len() - i,
    {
        let (k, v) = defaults[i];
        let ghost before = pair_views(out@);
        out.push((k.to_owned(), v.to_owned()));
        assert(pair_views(out@) =~= before.push((k@, v@)));
        assert(str_pair_views(defaults@).take(i + 1) =~= str_pair_views(defaults@).take(i as int).push((k@, v@)));
        i = i + 1;
    }
    assert(str_pair_views(defaults@).take(defaults@.len() as int) =~= str_pair_views(defaults@));
    let ghost base = pair_views(out@);
    let ghost ov = pair_views(overrides@);
    let mut j: usize = 0;
    while j < overrides.len()
        invariant
            j <= overrides@.len(),
            ov == pair_views(overrides@),
            pair_views(out@) == merged_tweaks(base, ov.take(j as int)),
        decreases overrides.len() - j,
    {
        assert(ov.take(j + 1).drop_last() =~= ov.take(j as int));
        let (k, v) = (overrides[j].0.clone(), overrides[j].1.clone());
        set_pair_exec(&mut out, k, v);
        j = j + 1;
    }
    assert(ov.take(overrides@.len() as int) =~= ov);
    out
}

/// The tweaks `mdev emulator config` applies without `--set`.
pub fn default_tweaks() -> (r: Vec<(&'static str, &'static str)>)
    ensures
        str_pair_views(r@) == seq![("showAVDManager"@, "no"@)],
{
    let r = vec![("showAVDManager", "no")];
    assert(str_pair_views(r@) =~= seq![("showAVDManager"@, "no"@)]);
    r
}

/// Merged tweaks keep one value per key.
pub proof fn lemma_merged_tweaks_keys_unique(defaults: Seq<Pair>, overrides: Seq<Pair>)
    requires
        keys_unique(defaults),
    ensures
        keys_unique(merged_tweaks(defaults, overrides)),
    decreases overrides.len(),
{
    if overrides.len() > 0 {
        lemma_merged_tweaks_keys_unique(defaults, overrides.drop_last());
        lemma_set_pair_keeps_keys_unique(merged_tweaks(defaults, overrides.drop_last()), overrides.last().0, overrides.last().1);
    }
}

/// Setting another key keeps every pair of key `k`.
proof fn lemma_set_pair_keeps_key(pairs: Seq<Pair>, k: Seq<char>, k2: Seq<char>, v2: Seq<char>)
    requires
        k != k2,
    ensures
        forall|i: int| 0 <= i < pairs.len() && (#[trigger] pairs[i]).0 == k ==> set_pair(pairs, k2, v2).contains(pairs[i]),
{
    lemma_key_index(pairs, k2);
    let r = set_pair(pairs, k2, v2);
    assert forall|i: int| 0 <= i < pairs.len() && (#[trigger] pairs[i]).0 == k implies r.contains(pairs[i]) by {
        assert(r[i] == pairs[i]);
    }
}

/// A default survives the merge unless an override names its key, and the
/// last override is what its key is set to.
pub proof fn lemma_merged_tweaks(defaults: Seq<Pair>, overrides: Seq<Pair>, k: Seq<char>)
    requires
        keys_unique(defaults),
    ensures
        (forall|m: int| 0 <= m < overrides.len() ==> (#[trigger] overrides[m]).0 != k) ==> forall|i: int|
            0 <= i < defaults.len() && (#[trigger] defaults[i]).0 == k ==> merged_tweaks(defaults, overrides).contains(defaults[i]),
        overrides.len() > 0 ==> ({
            let out = merged_tweaks(defaults, overrides);
            key_index(out, overrides.last().0) is Some && out[key_index(out, overrides.last().0)->0] == overrides.last()
        }),
    decreases overrides.len(),
{
    if overrides.len() > 0 {
        let prev = overrides.drop_last();
        lemma_merged_tweaks(defaults, prev, k);
        lemma_merged_tweaks_keys_unique(defaults, prev);
        let p = merged_tweaks(defaults, prev);
        lemma_set_pair_keeps_keys_unique(p, overrides.last().0, overrides.last().1);
        if forall|m: int| 0 <= m < overrides.len() ==> (#[trigger] overrides[m]).0 != k {
            assert forall|m: int| 0 <= m < prev.len() implies (#[trigger] prev[m]).0 != k by {
                assert(prev[m] == overrides[m]);
            }
            assert(overrides[overrides.len() - 1].0 != k);
            lemma_set_pair_keeps_key(p, k, overrides.last().0, overrides.last().1);
            assert forall|i: int| 0 <= i < defaults.len() && (#[trigger] defaults[i]).0 == k
                implies merged_tweaks(defaults, overrides).contains(defaults[i]) by {
                let j = choose|j: int| 0 <= j < p.len() && p[j] == defaults[i];
                assert(p[j].0 == k);
            }
        }
    }
}

/// `mdev emulator config` sets `showAVDManager=no` unless a `--set` names
/// that key, and each `--set` key ends up with the value given last for it.
pub proof fn lemma_config_tweaks_default(set: Seq<Seq<char>>)
    requires
        parse_tweaks_spec(set) is Ok,
        forall|m: int| 0 <= m < (parse_tweaks_spec(set)->Ok_0).len()
            ==> (#[trigger] (parse_tweaks_spec(set)->Ok_0)[m]).0 != "showAVDManager"@,
    ensures
        config_tweaks(set).contains(("showAVDManager"@, "no"@)),
{
    let d = seq![("showAVDManager"@, "no"@)];
    assert(keys_unique(d));
    lemma_merged_tweaks(d, parse_tweaks_spec(set)->Ok_0, "showAVDManager"@);
    assert(d[0] == ("showAVDManager"@, "no"@));
}

/// Parsed tweaks keep one value per key, and the last `--set` for a key wins.
pub proof fn lemma_parsed_tweaks_keys_unique(raws: Seq<Seq<char>>)
    ensures
        parse_tweaks_spec(raws) is Ok ==> keys_unique(parse_tweaks_spec(raws)->Ok_0),
        parse_tweaks_spec(raws) is Ok && raws.len() > 0 ==> {
            let out = parse_tweaks_spec(raws)->Ok_0;
            let p = tweak_of(raws.last())->0;
            key_index(out, p.0) is Some && out[key_index(out, p.0)->0] == p
        },
    decreases raws.len(),
{
    if raws.len() > 0 {
        lemma_parsed_tweaks_keys_unique(raws.drop_last());
        match parse_tweaks_spec(raws.drop_last()) {
            Ok(prev) => {
                match tweak_of(raws.last()) {
                    Some(p) => {
                        lemma_set_pair_keeps_keys_unique(prev, p.0, p.1);
                    },
                    None => {},
                }
            },
            Err(_) => {},
        }
    }
}


/// Whether `line` sets `key`, as the regular expression `^\s*KEY\s*=` (with
/// `KEY` matched literally and `\s` any Unicode white space) decides it.
pub open spec fn key_line_matches(line: Seq<char>, key: Seq<char>) -> bool {
    exists|i: int, j: int|
        #![trigger line.subrange(i, i + key.len()), line[j]]
        0 <= i && i + key.len() <= j < line.len()
        && (forall|m: int| 0 <= m < i ==> is_ws(#[trigger] line[m]))
        && line.subrange(i, i + key.len()) == key
        && (forall|m: int| i + key.len() <= m < j ==> is_ws(#[trigger] line[m]))
        && line[j] == '='
}

/// The regular expression a line setting `key` matches: `^\s*KEY\s*=`, the
/// key escaped so that it is matched literally.
pub open spec fn key_line_pattern(key: Seq<char>) -> Seq<char> {
    "^\\s*"@ + crate::app_detector::regex_escaped(key) + "\\s*="@
}

/// Whether `regex::Regex::new` accepts `pattern` (with the crate's default
/// limits, a function of the pattern alone).
pub uninterp spec fn regex_compiles(pattern: Seq<char>) -> bool;

/// `regex::Regex::new(pattern).is_ok()`: whether the pattern compiles.
#[verifier::external_body]
fn regex_compiles_check(pattern: &str) -> (b: bool)
    ensures
        b == regex_compiles(pattern@),
{
    regex::Regex::new(pattern).is_ok()
}

/// Compiles `pattern` with `regex::Regex::new` and tests `text` with
/// `Regex::is_match`; only a pattern that compiles is handed to it. For a
/// key-line pattern the contract states the match in plain terms
/// (`key_line_matches`): `\s` is any Unicode white space.
#[verifier::external_body]
fn regex_is_match(pattern: &str, text: &str) -> (b: bool)
    requires
        regex_compiles(pattern@),
    ensures
        forall|k: Seq<char>| pattern@ == #[trigger] key_line_pattern(k) ==> b == key_line_matches(text@, k),
{
    regex::Regex::new(pattern).unwrap().is_match(text)
}

/// The key-line pattern of `key` compiles.
pub open spec fn key_compiles(key: Seq<char>) -> bool {
    regex_compiles(key_line_pattern(key))
}

/// The key-line pattern of `key`; see `key_line_pattern`.
fn key_pattern(key: &str) -> (pattern: String)
    ensures
        pattern@ == key_line_pattern(key@),
{
    let escaped = crate::app_detector::escape_regex(key);
    let parts = ["^\\s*", escaped.as_str(), "\\s*="];
    let pattern = cat(&parts);
    assert(pattern@ == key_line_pattern(key@)) by {
        let pv = parts@;
        assert(pv.drop_last().drop_last().drop_last() =~= Seq::<&str>::empty());
        assert(crate::text::concat_views(pv.drop_last().drop_last().drop_last()) =~= Seq::<char>::empty());
        assert(pv.drop_last().drop_last().last() == "^\\s*");
        assert(Seq::<char>::empty() + "^\\s*"@ =~= "^\\s*"@);
        assert(crate::text::concat_views(pv.drop_last().drop_last()) =~= "^\\s*"@);
        assert(crate::text::concat_views(pv.drop_last()) =~= "^\\s*"@ + escaped@);
    }
    pattern
}

/// Whether the key-line pattern of `key` compiles; see `key_compiles`.
pub fn key_compiles_check(key: &str) -> (b: bool)
    ensures
        b == key_compiles(key@),
{
    let pattern = key_pattern(key);
    regex_compiles_check(pattern.as_str())
}

/// Tests `line` against `key_line_pattern(key)`; see `key_line_matches`.
fn key_line_regex_match(line: &str, key: &str) -> (b: bool)
    requires
        key_compiles(key@),
    ensures
        b == key_line_matches(line@, key@),
{
    let pattern = key_pattern(key);
    regex_is_match(pattern.as_str(), line)
}

/// `ls` without its trailing empty lines.
pub open spec fn drop_trailing_empty(ls: Seq<Seq<char>>) -> Seq<Seq<char>>
    decreases ls.len(),
{
    if ls.len() > 0 && ls.last().len() == 0 {
        drop_trailing_empty(ls.drop_last())
    } else {
        ls
    }
}

/// The lines of a `config.ini`: split at `\n`, one trailing `\r` removed from
/// each when the file uses CRLF, trailing empty lines dropped.
pub open spec fn ini_lines(c: Seq<char>, crlf: bool) -> Seq<Seq<char>> {
    if c.len() == 0 {
        Seq::empty()
    } else {
        drop_trailing_empty(split(c, '\n').map_values(|l: Seq<char>| if crlf { strip_cr(l) } else { l }))
    }
}

/// The index of the first line of `ls` that sets `key`.
pub open spec fn first_key_line(ls: Seq<Seq<char>>, key: Seq<char>) -> Option<int>
    decreases ls.len(),
{
    if ls.len() == 0 {
        None
    } else if key_line_matches(ls[0], key) {
        Some(0)
    } else {
        match first_key_line(ls.drop_first(), key) {
            Some(i) => Some(i + 1),
            None => None,
        }
    }
}

/// The value a `key=value` line holds: what follows the first `=`, trimmed.
pub open spec fn ini_value(line: Seq<char>) -> Seq<char> {
    match index_of(line, '=') {
        Some(i) => trim(line.skip(i + 1)),
        None => Seq::empty(),
    }
}

/// The line `key=value`.
pub open spec fn setting_line(k: Seq<char>, v: Seq<char>) -> Seq<char> {
    k + seq!['='] + v
}

/// Lines and per-key outcomes while tweaks are applied.
pub type UpsertState = (Seq<Seq<char>>, Seq<(Seq<char>, UpsertOutcome)>);

/// One tweak: the first line setting `k` keeps an equal value or is replaced;
/// without such a line the setting is appended.
pub open spec fn upsert_step(st: UpsertState, k: Seq<char>, v: Seq<char>) -> UpsertState {
    match first_key_line(st.0, k) {
        Some(i) => if ini_value(st.0[i]) == v {
            (st.0, st.1.push((k, UpsertOutcome::Unchanged)))
        } else {
            (st.0.update(i, setting_line(k, v)), st.1.push((k, UpsertOutcome::Replaced)))
        },
        None => (st.0.push(setting_line(k, v)), st.1.push((k, UpsertOutcome::Added))),
    }
}

/// The lines and outcomes after applying `tweaks` in order to `ls`.
pub open spec fn upsert_state(ls: Seq<Seq<char>>, tweaks: Seq<Pair>) -> UpsertState
    decreases tweaks.len(),
{
    if tweaks.len() == 0 {
        (ls, Seq::empty())
    } else {
        let prev = upsert_state(ls, tweaks.drop_last());
        upsert_step(prev, tweaks.last().0, tweaks.last().1)
    }
}

/// `ls` joined with `sep` between lines.
pub open spec fn join_with(ls: Seq<Seq<char>>, sep: Seq<char>) -> Seq<char>
    decreases ls.len(),
{
    if ls.len() == 0 {
        Seq::empty()
    } else if ls.len() == 1 {
        ls[0]
    } else {
        join_with(ls.drop_last(), sep) + sep + ls.last()
    }
}

/// Whether a `config.ini` uses CRLF line endings.
pub open spec fn uses_crlf(c: Seq<char>) -> bool {
    contains(c, seq!['\r', '\n'])
}

/// The line ending of a `config.ini`.
pub open spec fn eol_chars(crlf: bool) -> Seq<char> {
    if crlf { seq!['\r', '\n'] } else { seq!['\n'] }
}

/// The new `config.ini` text after the tweaks: the lines joined with the file's
/// line ending, ending with one line ending unless empty.
pub open spec fn upsert_text(c: Seq<char>, tweaks: Seq<Pair>) -> Seq<char> {
    let crlf = uses_crlf(c);
    let j = join_with(upsert_state(ini_lines(c, crlf), tweaks).0, eol_chars(crlf));
    if j.len() == 0 { j } else { j + eol_chars(crlf) }
}

/// The per-key outcomes of the tweaks on `c`.
pub open spec fn upsert_outcomes(c: Seq<char>, tweaks: Seq<Pair>) -> Seq<(Seq<char>, UpsertOutcome)> {
    upsert_state(ini_lines(c, uses_crlf(c)), tweaks).1
}

/// The key-line pattern of every key compiles.
pub open spec fn keys_compile(tweaks: Seq<Pair>) -> bool {
    forall|i: int| 0 <= i < tweaks.len() ==> key_compiles(#[trigger] tweaks[i].0)
}

/// The views of per-key outcomes.
pub open spec fn outcome_views(per_key: Seq<(String, UpsertOutcome)>) -> Seq<(Seq<char>, UpsertOutcome)> {
    per_key.map_values(|p: (String, UpsertOutcome)| (p.0@, p.1))
}

/// The index of the first line in `ls` that sets `key`.
fn find_key_line(ls: &Vec<Vec<char>>, key: &str) -> (r: Option<usize>)
    requires
        key_compiles(key@),
    ensures
        match r {
            Some(i) => first_key_line(ls.deep_view(), key@) == Some(i as int) && i < ls@.len(),
            None => first_key_line(ls.deep_view(), key@) is None,
        },
{
    let ghost lv = ls.deep_view();
    let mut i: usize = 0;
    assert(lv.skip(0) =~= lv);
    while i < ls.len()
        invariant
            i <= ls@.len(),
            lv == ls.deep_view(),
            key_compiles(key@),
            forall|m: int| 0 <= m < i ==> !key_line_matches(lv[m], key@),
        decreases ls.len() - i,
    {
        let line = string_of(ls[i].as_slice());
        assert(lv[i as int] == ls@[i as int]@);
        if key_line_regex_match(line.as_str(), key) {
            proof {
                lemma_first_key_line(lv, key@, i as int);
            }
            return Some(i);
        }
        i = i + 1;
    }
    proof {
        lemma_first_key_line_none(lv, key@);
    }
    None
}

proof fn lemma_first_key_line(ls: Seq<Seq<char>>, key: Seq<char>, i: int)
    requires
        0 <= i < ls.len(),
        key_line_matches(ls[i], key),
        forall|m: int| 0 <= m < i ==> !key_line_matches(ls[m], key),
    ensures
        first_key_line(ls, key) == Some(i),
    decreases i,
{
    if i > 0 {
        assert forall|m: int| 0 <= m < i - 1 implies !key_line_matches(ls.drop_first()[m], key) by {
            assert(ls.drop_first()[m] == ls[m + 1]);
        }
        assert(ls.drop_first()[i - 1] == ls[i]);
        lemma_first_key_line(ls.drop_first(), key, i - 1);
    }
}

proof fn lemma_first_key_line_none(ls: Seq<Seq<char>>, key: Seq<char>)
    requires
        forall|m: int| 0 <= m < ls.len() ==> !key_line_matches(ls[m], key),
    ensures
        first_key_line(ls, key) is None,
    decreases ls.len(),
{
    if ls.len() > 0 {
        assert forall|m: int| 0 <= m < ls.len() - 1 implies !key_line_matches(ls.drop_first()[m], key) by {
            assert(ls.drop_first()[m] == ls[m + 1]);
        }
        lemma_first_key_line_none(ls.drop_first(), key);
    }
}

proof fn lemma_first_key_line_bound(ls: Seq<Seq<char>>, key: Seq<char>)
    ensures
        first_key_line(ls, key) matches Some(i) ==> 0 <= i < ls.len(),
    decreases ls.len(),
{
    if ls.len() > 0 {
        lemma_first_key_line_bound(ls.drop_first(), key);
    }
}

proof fn lemma_first_key_line_found(ls: Seq<Seq<char>>, key: Seq<char>)
    ensures
        match first_key_line(ls, key) {
            Some(i) => 0 <= i < ls.len() && key_line_matches(ls[i], key)
                && forall|m: int| 0 <= m < i ==> !key_line_matches(#[trigger] ls[m], key),
            None => forall|m: int| 0 <= m < ls.len() ==> !key_line_matches(#[trigger] ls[m], key),
        },
    decreases ls.len(),
{
    if ls.len() > 0 {
        let rest = ls.drop_first();
        lemma_first_key_line_found(rest, key);
        if !key_line_matches(ls[0], key) {
            assert forall|m: int| 0 < m < ls.len() implies ls[m] == rest[m - 1] by {}
        }
    }
}

/// The line `key=value` sets `key` (when the key holds no `=`), and holds
/// the value, trimmed.
pub proof fn lemma_setting_line(k: Seq<char>, v: Seq<char>)
    requires
        forall|m: int| 0 <= m < k.len() ==> k[m] != '=',
    ensures
        key_line_matches(setting_line(k, v), k),
        ini_value(setting_line(k, v)) == trim(v),
{
    let line = setting_line(k, v);
    let j = k.len() as int;
    assert(line.subrange(0, 0 + k.len() as int) =~= k);
    assert(line[j] == '=');
    assert(forall|m: int| j <= m < j ==> is_ws(#[trigger] line[m]));
    assert(forall|m: int| 0 <= m < 0 ==> is_ws(#[trigger] line[m]));
    assert(key_line_matches(line, k));
    crate::text::lemma_index_of(line, '=');
    match index_of(line, '=') {
        Some(i) => {
            if i < k.len() {
                assert(line[i] == k[i]);
            }
            assert(i == k.len());
            assert(line.skip(i + 1) =~= v);
        },
        None => {
            assert(line[k.len() as int] == '=');
        },
    }
}

/// Applying a tweak a second time changes no line and reports it unchanged:
/// after the first application the first line setting the key holds the
/// value (for a key without `=` and a value without surrounding white space).
pub proof fn lemma_upsert_step_idempotent(st: UpsertState, k: Seq<char>, v: Seq<char>)
    requires
        forall|m: int| 0 <= m < k.len() ==> k[m] != '=',
        trim(v) == v,
    ensures
        ({
            let once = upsert_step(st, k, v);
            &&& first_key_line(once.0, k) matches Some(i) && ini_value(once.0[i]) == v
            &&& upsert_step(once, k, v) == (once.0, once.1.push((k, UpsertOutcome::Unchanged)))
        }),
{
    lemma_setting_line(k, v);
    lemma_first_key_line_found(st.0, k);
    let once = upsert_step(st, k, v);
    match first_key_line(st.0, k) {
        Some(i) => {
            if ini_value(st.0[i]) != v {
                assert forall|m: int| 0 <= m < i implies !key_line_matches(once.0[m], k) by {
                    assert(once.0[m] == st.0[m]);
                }
                lemma_first_key_line(once.0, k, i);
            } else {
                lemma_first_key_line(once.0, k, i);
            }
        },
        None => {
            let n = st.0.len() as int;
            assert forall|m: int| 0 <= m < n implies !key_line_matches(once.0[m], k) by {
                assert(once.0[m] == st.0[m]);
            }
            lemma_first_key_line(once.0, k, n);
        },
    }
}

/// A key written plainly: not empty, without `=` and without white space.
pub open spec fn plain_key(k: Seq<char>) -> bool {
    k.len() > 0 && forall|m: int| 0 <= m < k.len() ==> (#[trigger] k[m]) != '=' && !is_ws(k[m])
}

/// The first line of `ls` that sets `k` holds the value `v`.
pub open spec fn sets_value(ls: Seq<Seq<char>>, k: Seq<char>, v: Seq<char>) -> bool {
    first_key_line(ls, k) matches Some(i) && ini_value(ls[i]) == v
}

/// A line sets at most one plain key.
pub proof fn lemma_one_key_per_line(line: Seq<char>, k1: Seq<char>, k2: Seq<char>)
    requires
        plain_key(k1),
        plain_key(k2),
        key_line_matches(line, k1),
        key_line_matches(line, k2),
    ensures
        k1 == k2,
{
    let (i1, j1) = choose|i: int, j: int|
        #![trigger line.subrange(i, i + k1.len()), line[j]]
        0 <= i && i + k1.len() <= j < line.len()
        && (forall|m: int| 0 <= m < i ==> is_ws(#[trigger] line[m]))
        && line.subrange(i, i + k1.len()) == k1
        && (forall|m: int| i + k1.len() <= m < j ==> is_ws(#[trigger] line[m]))
        && line[j] == '=';
    let (i2, j2) = choose|i: int, j: int|
        #![trigger line.subrange(i, i + k2.len()), line[j]]
        0 <= i && i + k2.len() <= j < line.len()
        && (forall|m: int| 0 <= m < i ==> is_ws(#[trigger] line[m]))
        && line.subrange(i, i + k2.len()) == k2
        && (forall|m: int| i + k2.len() <= m < j ==> is_ws(#[trigger] line[m]))
        && line[j] == '=';
    assert(line[i1] == line.subrange(i1, i1 + k1.len())[0]);
    assert(line[i2] == line.subrange(i2, i2 + k2.len())[0]);
    assert(!is_ws(k1[0]) && !is_ws(k2[0]));
    if i1 < i2 {
        assert(is_ws(line[i1]));
    }
    if i2 < i1 {
        assert(is_ws(line[i2]));
    }
    let i = i1;
    if k1.len() < k2.len() {
        let p = i + k1.len();
        assert(line[p] == line.subrange(i, i + k2.len())[k1.len() as int]);
        assert(k2[k1.len() as int] != '=' && !is_ws(k2[k1.len() as int]));
        if j1 > p {
            assert(is_ws(line[p]));
        }
    } else if k2.len() < k1.len() {
        let p = i + k2.len();
        assert(line[p] == line.subrange(i, i + k1.len())[k2.len() as int]);
        assert(k1[k2.len() as int] != '=' && !is_ws(k1[k2.len() as int]));
        if j2 > p {
            assert(is_ws(line[p]));
        }
    } else {
        assert(k1 =~= k2);
    }
}

/// A tweak of another plain key leaves the value a plain key is set to.
proof fn lemma_step_keeps_other(st: UpsertState, k: Seq<char>, v: Seq<char>, k2: Seq<char>, v2: Seq<char>)
    requires
        plain_key(k),
        plain_key(k2),
        k != k2,
        sets_value(st.0, k, v),
    ensures
        sets_value(upsert_step(st, k2, v2).0, k, v),
{
    lemma_setting_line(k2, v2);
    let sl = setting_line(k2, v2);
    if key_line_matches(sl, k) {
        lemma_one_key_per_line(sl, k, k2);
    }
    lemma_first_key_line_found(st.0, k);
    lemma_first_key_line_found(st.0, k2);
    let i = first_key_line(st.0, k)->0;
    let l2 = upsert_step(st, k2, v2).0;
    match first_key_line(st.0, k2) {
        Some(i2) => {
            if ini_value(st.0[i2]) != v2 {
                if i2 == i {
                    lemma_one_key_per_line(st.0[i], k, k2);
                }
                assert forall|m: int| 0 <= m < i implies !key_line_matches(l2[m], k) by {
                    if m != i2 {
                        assert(l2[m] == st.0[m]);
                    }
                }
                assert(l2[i] == st.0[i]);
                lemma_first_key_line(l2, k, i);
            }
        },
        None => {
            assert forall|m: int| 0 <= m < i implies !key_line_matches(l2[m], k) by {
                assert(l2[m] == st.0[m]);
            }
            assert(l2[i] == st.0[i]);
            lemma_first_key_line(l2, k, i);
        },
    }
}

/// Tweaks whose keys are plain and distinct and whose values carry no
/// surrounding white space.
pub open spec fn plain_tweaks(tweaks: Seq<Pair>) -> bool {
    &&& forall|m: int| 0 <= m < tweaks.len() ==> plain_key(#[trigger] tweaks[m].0) && trim(tweaks[m].1) == tweaks[m].1
    &&& forall|a: int, b: int| 0 <= a < b < tweaks.len() ==> #[trigger] tweaks[a].0 != #[trigger] tweaks[b].0
}

proof fn lemma_first_pass(ls: Seq<Seq<char>>, tweaks: Seq<Pair>, n: int)
    requires
        plain_tweaks(tweaks),
        0 <= n <= tweaks.len(),
    ensures
        forall|m: int| 0 <= m < n ==> sets_value(upsert_state(ls, tweaks.take(n)).0, #[trigger] tweaks[m].0, tweaks[m].1),
    decreases n,
{
    if n > 0 {
        lemma_first_pass(ls, tweaks, n - 1);
        let prev = upsert_state(ls, tweaks.take(n - 1));
        assert(tweaks.take(n).drop_last() =~= tweaks.take(n - 1));
        assert(tweaks.take(n).last() == tweaks[n - 1]);
        let (k, v) = tweaks[n - 1];
        lemma_upsert_step_idempotent(prev, k, v);
        assert forall|m: int| 0 <= m < n implies sets_value(upsert_state(ls, tweaks.take(n)).0, #[trigger] tweaks[m].0, tweaks[m].1) by {
            if m < n - 1 {
                lemma_step_keeps_other(prev, tweaks[m].0, tweaks[m].1, k, v);
            }
        }
    }
}

proof fn lemma_second_pass(ls: Seq<Seq<char>>, tweaks: Seq<Pair>, n: int)
    requires
        0 <= n <= tweaks.len(),
        forall|m: int| 0 <= m < tweaks.len() ==> sets_value(ls, #[trigger] tweaks[m].0, tweaks[m].1),
    ensures
        upsert_state(ls, tweaks.take(n)).0 == ls,
        upsert_state(ls, tweaks.take(n)).1.len() == n,
        forall|m: int| 0 <= m < n ==> #[trigger] upsert_state(ls, tweaks.take(n)).1[m] == (tweaks[m].0, UpsertOutcome::Unchanged),
    decreases n,
{
    if n > 0 {
        lemma_second_pass(ls, tweaks, n - 1);
        assert(tweaks.take(n).drop_last() =~= tweaks.take(n - 1));
        assert(tweaks.take(n).last() == tweaks[n - 1]);
        assert(sets_value(ls, tweaks[n - 1].0, tweaks[n - 1].1));
    } else {
        assert(tweaks.take(0) =~= Seq::<Pair>::empty());
    }
}

/// Applying the same tweaks twice: the second application changes no line
/// and reports every key unchanged, for tweaks of distinct plain keys with
/// values free of surrounding white space.
pub proof fn lemma_upsert_idempotent(ls: Seq<Seq<char>>, tweaks: Seq<Pair>)
    requires
        plain_tweaks(tweaks),
    ensures
        ({
            let once = upsert_state(ls, tweaks).0;
            &&& forall|m: int| 0 <= m < tweaks.len() ==> sets_value(once, #[trigger] tweaks[m].0, tweaks[m].1)
            &&& upsert_state(once, tweaks).0 == once
            &&& upsert_state(once, tweaks).1.len() == tweaks.len()
            &&& forall|m: int| 0 <= m < tweaks.len()
                ==> #[trigger] upsert_state(once, tweaks).1[m] == (tweaks[m].0, UpsertOutcome::Unchanged)
        }),
{
    lemma_first_pass(ls, tweaks, tweaks.len() as int);
    assert(tweaks.take(tweaks.len() as int) =~= tweaks);
    let once = upsert_state(ls, tweaks).0;
    lemma_second_pass(once, tweaks, tweaks.len() as int);
}

/// The value a `key=value` line holds; see `ini_value`.
fn line_value(line: &Vec<char>) -> (r: Vec<char>)
    ensures
        r@ == ini_value(line@),
{
    match find_char(line.as_slice(), '=') {
        Some(i) => {
            let n = line.len();
            let rest = slice_of(line.as_slice(), i + 1, n);
            assert(rest@ =~= line@.skip(i + 1));
            trim_chars(rest.as_slice())
        },
        None => Vec::new(),
    }
}

/// The line `key=value`.
fn setting_line_exec(k: &str, v: &str) -> (r: Vec<char>)
    ensures
        r@ == setting_line(k@, v@),
{
    let mut r = chars_of(k);
    r.push('=');
    let mut w = chars_of(v);
    r.append(&mut w);
    r
}

/// Drops trailing empty lines.
fn pop_trailing_empty(ls: &mut Vec<Vec<char>>)
    ensures
        final(ls).deep_view() == drop_trailing_empty(old(ls).deep_view()),
{
    while ls.len() > 0 && ls[ls.len() - 1].len() == 0
        invariant
            drop_trailing_empty(ls.deep_view()) == drop_trailing_empty(old(ls).deep_view()),
        decreases ls.len(),
    {
        let ghost before = ls.deep_view();
        assert(before.last().len() == 0);
        ls.pop();
        assert(ls.deep_view() =~= before.drop_last());
    }
}

/// The lines of a `config.ini`; see `ini_lines`.
fn ini_lines_exec(v: &Vec<char>, crlf: bool) -> (r: Vec<Vec<char>>)
    ensures
        r.deep_view() == ini_lines(v@, crlf),
{
    if v.len() == 0 {
        let r: Vec<Vec<char>> = Vec::new();
        assert(r.deep_view() =~= Seq::<Seq<char>>::empty());
        return r;
    }
    let pieces = split_chars(v.as_slice(), '\n');
    let ghost pv = pieces.deep_view();
    let ghost mapped = pv.map_values(|l: Seq<char>| if crlf { strip_cr(l) } else { l });
    let mut out: Vec<Vec<char>> = Vec::new();
    let mut i: usize = 0;
    while i < pieces.len()
        invariant
            i <= pieces@.len(),
            pv == pieces.deep_view(),
            pv == split(v@, '\n'),
            mapped == pv.map_values(|l: Seq<char>| if crlf { strip_cr(l) } else { l }),
            out.deep_view() == mapped.take(i as int),
        decreases pieces.len() - i,
    {
        let mut line = pieces[i].clone();
        assert(line@ == pv[i as int]);
        if crlf && line.len() > 0 && line[line.len() - 1] == '\r' {
            line.pop();
        }
        assert(line@ == mapped[i as int]);
        assert(line.deep_view() =~= line@);
        let ghost before = out.deep_view();
        out.push(line);
        assert(out.deep_view() =~= before.push(mapped[i as int]));
        assert(mapped.take(i + 1) =~= mapped.take(i as int).push(mapped[i as int]));
        i = i + 1;
    }
    assert(mapped.take(pieces@.len() as int) =~= mapped);
    pop_trailing_empty(&mut out);
    out
}

/// `ls` joined with `sep`; see `join_with`.
fn join_lines(ls: &Vec<Vec<char>>, sep: &Vec<char>) -> (r: Vec<char>)
    ensures
        r@ == join_with(ls.deep_view(), sep@),
{
    let ghost lv = ls.deep_view();
    let mut out: Vec<char> = Vec::new();
    let mut i: usize = 0;
    while i < ls.len()
        invariant
            i <= ls@.len(),
            lv == ls.deep_view(),
            out@ == join_with(lv.take(i as int), sep@),
        decreases ls.len() - i,
    {
        assert(lv.take(i + 1).drop_last() =~= lv.take(i as int));
        assert(lv[i as int] == ls@[i as int]@);
        if i > 0 {
            let mut s = sep.clone();
            out.append(&mut s);
        }
        let mut piece = ls[i].clone();
        out.append(&mut piece);
        proof {
            if i == 0 {
                assert(out@ =~= lv.take(1)[0]);
            } else {
                assert(out@ =~= join_with(lv.take(i as int), sep@) + sep@ + lv[i as int]);
            }
        }
        i = i + 1;
    }
    assert(lv.take(ls@.len() as int) =~= lv);
    out
}

/// Sets each tweak in the `config.ini` text `content`: the first line setting
/// the key is replaced when its value differs, left alone when it is equal,
/// and a `key=value` line is appended when no line sets the key. The file's
/// CRLF line endings are kept, trailing blank lines collapse into one line
/// ending.
pub fn upsert_ini(content: &str, tweaks: &[(String, String)]) -> (r: (String, UpsertReport))
    requires
        keys_compile(pair_views(tweaks@)),
    ensures
        r.0@ == upsert_text(content@, pair_views(tweaks@)),
        outcome_views(r.1.per_key@) == upsert_outcomes(content@, pair_views(tweaks@)),
        r.1.eol == (if uses_crlf(content@) { Eol::Crlf } else { Eol::Lf }),
{
    let v = chars_of(content);
    let crlf_pat = ['\r', '\n'];
    let crlf = contains_chars(v.as_slice(), crlf_pat.as_slice());
    assert(crlf_pat@ =~= seq!['\r', '\n']);
    let eol = if crlf { Eol::Crlf } else { Eol::Lf };
    let mut sep: Vec<char> = Vec::new();
    if crlf {
        sep.push('\r');
    }
    sep.push('\n');
    assert(sep@ =~= eol_chars(crlf));
    let mut ls = ini_lines_exec(&v, crlf);
    let ghost tv = pair_views(tweaks@);
    let ghost start = ls.deep_view();
    let mut per_key: Vec<(String, UpsertOutcome)> = Vec::new();
    let mut t: usize = 0;
    while t < tweaks.len()
        invariant
            t <= tweaks@.len(),
            tv == pair_views(tweaks@),
            keys_compile(tv),
            start == ini_lines(content@, crlf),
            (ls.deep_view(), outcome_views(per_key@)) == upsert_state(start, tv.take(t as int)),
        decreases tweaks.len() - t,
    {
        assert(tv.take(t + 1).drop_last() =~= tv.take(t as int));
        let k = &tweaks[t].0;
        let val = &tweaks[t].1;
        assert(tv[t as int] == (k@, val@));
        assert(key_compiles(tv[t as int].0));
        assert(key_compiles(k@));
        let ghost lv = ls.deep_view();
        let ghost before = outcome_views(per_key@);
        match find_key_line(&ls, k.as_str()) {
            Some(i) => {
                let existing = line_value(&ls[i]);
                assert(ls@[i as int]@ == lv[i as int]);
                let want = chars_of(val.as_str());
                if chars_eq(existing.as_slice(), want.as_slice()) {
                    per_key.push((k.clone(), UpsertOutcome::Unchanged));
                    assert(outcome_views(per_key@) =~= before.push((k@, UpsertOutcome::Unchanged)));
                } else {
                    let nl = setting_line_exec(k.as_str(), val.as_str());
                    assert(nl.deep_view() =~= nl@);
                    ls.set(i, nl);
                    assert(ls.deep_view() =~= lv.update(i as int, setting_line(k@, val@)));
                    per_key.push((k.clone(), UpsertOutcome::Replaced));
                    assert(outcome_views(per_key@) =~= before.push((k@, UpsertOutcome::Replaced)));
                }
            },
            None => {
                let nl = setting_line_exec(k.as_str(), val.as_str());
                assert(nl.deep_view() =~= nl@);
                ls.push(nl);
                assert(ls.deep_view() =~= lv.push(setting_line(k@, val@)));
                per_key.push((k.clone(), UpsertOutcome::Added));
                assert(outcome_views(per_key@) =~= before.push((k@, UpsertOutcome::Added)));
            },
        }
        t = t + 1;
    }
    assert(tv.take(tweaks@.len() as int) =~= tv);
    let mut joined = join_lines(&ls, &sep);
    if joined.len() > 0 {
        let mut s = sep.clone();
        joined.append(&mut s);
    }
    (string_of(joined.as_slice()), UpsertReport { per_key, eol })
}


/// The value of a `path=` line of an AVD registry `.ini` (not `path.rel=`).
pub open spec fn registry_line(line: Seq<char>) -> Option<Seq<char>> {
    let t = trim_start(line);
    if starts_with(t, "path"@) {
        let r = trim_start(t.skip(4));
        if r.len() > 0 && r[0] == '=' {
            let v = trim(r.skip(1));
            if v.len() > 0 { Some(v) } else { None }
        } else {
            None
        }
    } else {
        None
    }
}

/// The first `path=` value among `ls`.
pub open spec fn registry_path(ls: Seq<Seq<char>>) -> Option<Seq<char>>
    decreases ls.len(),
{
    if ls.len() == 0 {
        None
    } else {
        match registry_line(ls[0]) {
            Some(v) => Some(v),
            None => registry_path(ls.drop_first()),
        }
    }
}

/// The `path=` value of one line; see `registry_line`.
fn registry_line_exec(line: &Vec<char>) -> (r: Option<Vec<char>>)
    ensures
        match r {
            Some(v) => registry_line(line@) == Some(v@),
            None => registry_line(line@) is None,
        },
{
    let t = trim_start_chars(line.as_slice());
    let key = ['p', 'a', 't', 'h'];
    proof {
        reveal_strlit("path");
        assert(key@ =~= "path"@);
    }
    if !starts_with_chars(t.as_slice(), key.as_slice()) {
        return None;
    }
    let n = t.len();
    let after = slice_of(t.as_slice(), 4, n);
    assert(after@ =~= t@.skip(4));
    let r = trim_start_chars(after.as_slice());
    if r.len() == 0 || r[0] != '=' {
        return None;
    }
    let m = r.len();
    let rest = slice_of(r.as_slice(), 1, m);
    assert(rest@ =~= r@.skip(1));
    let v = trim_chars(rest.as_slice());
    if v.len() == 0 {
        return None;
    }
    Some(v)
}

/// `str::trim_start`.
fn trim_start_chars(v: &[char]) -> (r: Vec<char>)
    ensures
        r@ == trim_start(v@),
{
    let n = v.len();
    let mut i: usize = 0;
    assert(v@.skip(0) =~= v@);
    while i < n && crate::text::is_whitespace(v[i])
        invariant
            i <= n == v@.len(),
            trim_start(v@) == trim_start(v@.skip(i as int)),
        decreases n - i,
    {
        assert(v@.skip(i as int).drop_first() =~= v@.skip(i + 1));
        i = i + 1;
    }
    let r = slice_of(v, i, n);
    assert(r@ =~= v@.skip(i as int));
    r
}

/// The AVD directory a registry `.ini` names in its `path=` line, if any.
pub fn parse_registry_path(contents: &str) -> (r: Option<String>)
    ensures
        match r {
            Some(p) => registry_path(lines(contents@)) == Some(p@),
            None => registry_path(lines(contents@)) is None,
        },
{
    let v = chars_of(contents);
    let ls = lines_of(v.as_slice());
    let ghost lv = ls.deep_view();
    let mut i: usize = 0;
    assert(lv.skip(0) =~= lv);
    while i < ls.len()
        invariant
            i <= ls@.len(),
            lv == ls.deep_view(),
            lv == lines(contents@),
            registry_path(lv) == registry_path(lv.skip(i as int)),
        decreases ls.len() - i,
    {
        assert(lv.skip(i as int).drop_first() =~= lv.skip(i + 1));
        assert(lv.skip(i as int)[0] == ls@[i as int]@);
        if let Some(val) = registry_line_exec(&ls[i]) {
            return Some(string_of(val.as_slice()));
        }
        i = i + 1;
    }
    None
}

/// `s` with every trailing repetition of `p` removed (`str::trim_end_matches`).
pub open spec fn trim_end_all(s: Seq<char>, p: Seq<char>) -> Seq<char>
    decreases s.len(),
{
    if p.len() > 0 && crate::text::ends_with(s, p) {
        trim_end_all(s.take(s.len() - p.len()), p)
    } else {
        s
    }
}

/// The AVD name a registry file name gives: `<name>.ini`, except hidden files
/// and the emulator's own `hardware-qemu.ini`.
pub open spec fn avd_stem(file_name: Seq<char>) -> Option<Seq<char>> {
    if crate::text::ends_with(file_name, ".ini"@) {
        let stem = trim_end_all(file_name, ".ini"@);
        if (stem.len() > 0 && stem[0] == '.') || stem == "hardware-qemu"@ {
            None
        } else {
            Some(stem)
        }
    } else {
        None
    }
}

/// `str::trim_end_matches` for a non-empty pattern.
fn trim_end_all_exec(s: &Vec<char>, p: &Vec<char>) -> (r: Vec<char>)
    requires
        p@.len() > 0,
    ensures
        r@ == trim_end_all(s@, p@),
{
    let mut cur = s.clone();
    while crate::text::ends_with_chars(cur.as_slice(), p.as_slice())
        invariant
            p@.len() > 0,
            trim_end_all(cur@, p@) == trim_end_all(s@, p@),
        decreases cur@.len(),
    {
        let n = cur.len() - p.len();
        let next = slice_of(cur.as_slice(), 0, n);
        assert(next@ =~= cur@.take(cur@.len() - p@.len()));
        cur = next;
    }
    cur
}

/// The AVD name for a registry file name; see `avd_stem`.
pub fn avd_stem_of(file_name: &str) -> (r: Option<String>)
    ensures
        match r {
            Some(s) => avd_stem(file_name@) == Some(s@),
            None => avd_stem(file_name@) is None,
        },
{
    let v = chars_of(file_name);
    let ini = chars_of(".ini");
    if !crate::text::ends_with_chars(v.as_slice(), ini.as_slice()) {
        return None;
    }
    proof {
        reveal_strlit(".ini");
    }
    let stem = trim_end_all_exec(&v, &ini);
    let hq = chars_of("hardware-qemu");
    if (stem.len() > 0 && stem[0] == '.') || chars_eq(stem.as_slice(), hq.as_slice()) {
        return None;
    }
    Some(string_of(stem.as_slice()))
}

/// A local Android Virtual Device: its name, directory and `config.ini`.
#[derive(Debug, Clone, PartialEq)]
pub struct Avd {
    pub name: String,
    pub dir: String,
    pub config_ini: String,
}

/// An AVD as plain values: name, directory, `config.ini` path.
pub type AvdView = (Seq<char>, Seq<char>, Seq<char>);

impl View for Avd {
    type V = AvdView;

    open spec fn view(&self) -> AvdView {
        (self.name@, self.dir@, self.config_ini@)
    }
}

/// The views of `avds`.
pub open spec fn avd_views(avds: Seq<Avd>) -> Seq<AvdView> {
    avds.map_values(|a: Avd| a@)
}

/// What was learned about one entry of the AVD root: its file name, its
/// contents when read (`None` when unreadable), whether the AVD directory it
/// points to exists and whether that holds a `config.ini` file.
pub type AvdProbe = (Seq<char>, Option<Seq<char>>, bool, bool);

/// The AVD directory a registry file points to: its `path=` value, or
/// `<root>/<name>.avd`.
pub open spec fn avd_dir_of(root: Seq<char>, stem: Seq<char>, contents: Seq<char>) -> Seq<char> {
    match registry_path(lines(contents)) {
        Some(p) => p,
        None => crate::paths::path_join(root, stem + ".avd"@),
    }
}

/// The AVD one entry of the root describes, when it is a readable registry
/// file pointing to an existing AVD directory with a `config.ini`.
pub open spec fn avd_of_probe(root: Seq<char>, probe: AvdProbe) -> Option<AvdView> {
    match (avd_stem(probe.0), probe.1) {
        (Some(stem), Some(contents)) => {
            let dir = avd_dir_of(root, stem, contents);
            if probe.2 && probe.3 {
                Some((stem, dir, crate::paths::path_join(dir, "config.ini"@)))
            } else {
                None
            }
        },
        _ => None,
    }
}

/// The AVDs the entries of the root describe, in directory order.
pub open spec fn avds_of_probes(root: Seq<char>, probes: Seq<AvdProbe>) -> Seq<AvdView>
    decreases probes.len(),
{
    if probes.len() == 0 {
        Seq::empty()
    } else {
        let prev = avds_of_probes(root, probes.drop_last());
        match avd_of_probe(root, probes.last()) {
            Some(a) => prev.push(a),
            None => prev,
        }
    }
}

/// AVDs ordered by name.
pub open spec fn sorted_by_name(avds: Seq<AvdView>) -> bool {
    forall|i: int, j: int| 0 <= i < j < avds.len() ==> crate::text::text_le(#[trigger] avds[i].0, #[trigger] avds[j].0)
}

/// Inserts `a` into the name-ordered `avds`.
fn insert_by_name(avds: &mut Vec<Avd>, a: Avd)
    requires
        sorted_by_name(avd_views(old(avds)@)),
    ensures
        sorted_by_name(avd_views(final(avds)@)),
        avd_views(final(avds)@).to_multiset() == avd_views(old(avds)@).to_multiset().insert(a@),
{
    let ghost before = avd_views(avds@);
    let mut p: usize = 0;
    while p < avds.len() && crate::text::text_le_exec(avds[p].name.as_str(), a.name.as_str())
        invariant
            p <= avds@.len(),
            avds@ == old(avds)@,
            before == avd_views(avds@),
            sorted_by_name(before),
            forall|i: int| 0 <= i < p ==> crate::text::text_le(#[trigger] before[i].0, a.name@),
        decreases avds.len() - p,
    {
        p = p + 1;
    }
    proof {
        if p < before.len() {
            crate::text::lemma_text_le_total(before[p as int].0, a.name@);
        }
    }
    avds.insert(p, a);
    proof {
        let after = avd_views(avds@);
        assert(after =~= before.insert(p as int, a@));
        vstd::seq_lib::to_multiset_insert(before, p as int, a@);
        assert forall|i: int, j: int| 0 <= i < j < after.len() implies crate::text::text_le(#[trigger] after[i].0, #[trigger] after[j].0) by {
            if i < p && j < p {
                assert(after[i] == before[i] && after[j] == before[j]);
            } else if i < p && j == p {
                assert(after[i] == before[i]);
            } else if i < p && j > p {
                assert(after[i] == before[i] && after[j] == before[j - 1]);
                assert(crate::text::text_le(before[i].0, a.name@));
                crate::text::lemma_text_le_total(before[p as int].0, a.name@);
                if j - 1 > p {
                    assert(crate::text::text_le(before[p as int].0, before[j - 1].0));
                    crate::text::lemma_text_le_transitive(a.name@, before[p as int].0, before[j - 1].0);
                }
                crate::text::lemma_text_le_transitive(before[i].0, a.name@, before[j - 1].0);
            } else if i == p {
                assert(after[j] == before[j - 1]);
                if j - 1 > p {
                    assert(crate::text::text_le(before[p as int].0, before[j - 1].0));
                    crate::text::lemma_text_le_transitive(a.name@, before[p as int].0, before[j - 1].0);
                }
            } else {
                assert(after[i] == before[i - 1] && after[j] == before[j - 1]);
            }
        }
    }
}

/// The requests discovery makes for one entry of the AVD root, and what it
/// learnt of it in `p`: a registry file (`avd_stem`) is read; when it could
/// be read, the directory it points to is checked; when that exists, its
/// `config.ini`.
pub open spec fn probe_calls(root: Seq<char>, p: AvdProbe, c: Seq<Call>) -> bool {
    match avd_stem(p.0) {
        None => c.len() == 0 && p.1 is None,
        Some(stem) => c.len() >= 1 && match c[0] {
            Call::ReadFile { path, reply } => path == crate::paths::path_join(root, p.0) && match reply {
                Err(_) => c.len() == 1 && p.1 is None,
                Ok(x) => p.1 == Some(x) && c.len() >= 2 && match c[1] {
                    Call::IsDir { path: d, reply: dir_ok } => d == avd_dir_of(root, stem, x) && p.2 == dir_ok && if !dir_ok {
                        c.len() == 2
                    } else {
                        c.len() == 3 && match c[2] {
                            Call::IsFile { path: f, reply: file_ok } => f == crate::paths::path_join(d, "config.ini"@) && p.3 == file_ok,
                            _ => false,
                        }
                    },
                    _ => false,
                },
            },
            _ => false,
        },
    }
}

/// `scan` is the discovery of the AVDs under `root` that found `avds`: the
/// root is listed, then each entry is probed in listing order
/// (`probe_calls`); `avds` are the AVDs those probes describe, ordered by
/// name.
pub open spec fn avd_scan(root: Seq<char>, scan: Seq<Call>, avds: Seq<AvdView>) -> bool {
    exists|reply: Option<Seq<Seq<char>>>, probes: Seq<AvdProbe>, chunks: Seq<Seq<Call>>|
        #[trigger] avd_scan_by(root, scan, avds, reply, probes, chunks)
}

/// `avd_scan` with the listing reply, the probes and the requests of each
/// probe named.
pub open spec fn avd_scan_by(
    root: Seq<char>,
    scan: Seq<Call>,
    avds: Seq<AvdView>,
    reply: Option<Seq<Seq<char>>>,
    probes: Seq<AvdProbe>,
    chunks: Seq<Seq<Call>>,
) -> bool {
    &&& avds_of_probes(root, probes).to_multiset() == avds.to_multiset()
    &&& scan == seq![Call::ListDir { path: root, reply: reply }] + chunks.flatten()
    &&& probes.len() == chunks.len()
    &&& (reply is None ==> probes.len() == 0)
    &&& (reply matches Some(names) ==> names.len() == probes.len()
        && forall|k: int| 0 <= k < probes.len() ==> (#[trigger] probes[k]).0 == names[k])
    &&& (forall|k: int| 0 <= k < probes.len() ==> probe_calls(root, #[trigger] probes[k], chunks[k]))
    &&& sorted_by_name(avds)
}

/// Finds the AVDs under `root`: each `<name>.ini` registry file (hidden files
/// and `hardware-qemu.ini` aside) that can be read and points, by its `path=`
/// line or by the `<name>.avd` convention, to a directory holding a
/// `config.ini`. The result is ordered by name.
pub fn discover_avds<R: Runner>(runner: &mut Session<R>, root: &str, verbose: bool) -> (r: Vec<Avd>)
    ensures
        extends(old(runner).calls(), final(runner).calls()),
        sorted_by_name(avd_views(r@)),
        exists|probes: Seq<AvdProbe>|
            avd_views(r@).to_multiset() == #[trigger] avds_of_probes(root@, probes).to_multiset(),
        avd_scan(root@, since(old(runner).calls(), final(runner).calls()), avd_views(r@)),
{
    let ghost start = runner.calls();
    let mut out: Vec<Avd> = Vec::new();
    let listed = runner.list_dir(root);
    let ghost listing = runner.calls();
    let ghost reply = crate::session::opt_names(listed);
    let ghost mut probes: Seq<AvdProbe> = Seq::empty();
    let ghost mut chunks: Seq<Seq<Call>> = Seq::empty();
    assert(avd_views(out@) =~= avds_of_probes(root@, probes));
    assert(chunks.flatten() =~= Seq::<Call>::empty());
    assert(since(start, listing) =~= seq![Call::ListDir { path: root@, reply: reply }] + chunks.flatten());
    let names = match listed {
        Some(n) => n,
        None => {
            assert(avd_views(out@).to_multiset() == avds_of_probes(root@, probes).to_multiset());
            assert(avd_scan_by(root@, since(start, runner.calls()), avd_views(out@), reply, probes, chunks));
            return out;
        },
    };
    let mut i: usize = 0;
    while i < names.len()
        invariant
            i <= names@.len(),
            extends(start, runner.calls()),
            start == old(runner).calls(),
            reply == Some(crate::paths::string_views(names@)),
            probes.len() == i,
            chunks.len() == i,
            since(start, runner.calls()) == seq![Call::ListDir { path: root@, reply: reply }] + chunks.flatten(),
            forall|k: int| 0 <= k < i ==> (#[trigger] probes[k]).0 == names@[k]@,
            forall|k: int| 0 <= k < i ==> probe_calls(root@, #[trigger] probes[k], chunks[k]),
            sorted_by_name(avd_views(out@)),
            avd_views(out@).to_multiset() == avds_of_probes(root@, probes).to_multiset(),
        decreases names.len() - i,
    {
        let filename = &names[i];
        let ghost before = runner.calls();
        let ghost mut pr: AvdProbe = (filename@, None, false, false);
        match avd_stem_of(filename.as_str()) {
            None => {},
            Some(stem) => {
                let file_path = crate::paths::join_path(root, filename.as_str());
                match runner.read_file(file_path.as_str()) {
                    Err(e) => {
                        if verbose {
                            runner.report(Level::Detail, &cat(&["    skip ", filename.as_str(), ": ", e.message.as_str()]));
                        }
                    },
                    Ok(contents) => {
                        let candidate = match parse_registry_path(contents.as_str()) {
                            Some(p) => p,
                            None => {
                                let avd_name = crate::text::concat(stem.as_str(), ".avd");
                                crate::paths::join_path(root, avd_name.as_str())
                            },
                        };
                        assert(candidate@ == avd_dir_of(root@, stem@, contents@));
                        let dir_ok = runner.is_dir(candidate.as_str());
                        if !dir_ok {
                            if verbose {
                                runner.report(Level::Detail, &cat(&["    skip ", stem.as_str(), ": avd dir missing (", candidate.as_str(), ")"]));
                            }
                            proof { pr = (filename@, Some(contents@), false, false); }
                        } else {
                            let config_ini = crate::paths::join_path(candidate.as_str(), "config.ini");
                            let file_ok = runner.is_file(config_ini.as_str());
                            if !file_ok {
                                if verbose {
                                    runner.report(Level::Detail, &cat(&["    skip ", stem.as_str(), ": config.ini missing"]));
                                }
                                proof { pr = (filename@, Some(contents@), true, false); }
                            } else {
                                let avd = Avd { name: stem, dir: candidate, config_ini };
                                let ghost av = avd@;
                                insert_by_name(&mut out, avd);
                                proof {
                                    pr = (filename@, Some(contents@), true, true);
                                    assert(avd_of_probe(root@, pr) == Some(av));
                                    assert(probes.push(pr).drop_last() =~= probes);
                                    vstd::seq_lib::to_multiset_build(avds_of_probes(root@, probes), av);
                                }
                            }
                        }
                    },
                }
            },
        }
        proof {
            assert(probes.push(pr).drop_last() =~= probes);
            let chunk = since(before, runner.calls());
            assert(probe_calls(root@, pr, chunk));
            chunks.lemma_flatten_push(chunk);
            crate::session::lemma_since_prefix(start, before, runner.calls());
            assert(since(start, runner.calls()) =~= since(start, before) + chunk);
            chunks = chunks.push(chunk);
            probes = probes.push(pr);
        }
        i = i + 1;
    }
    proof {
        assert(avd_scan_by(root@, since(start, runner.calls()), avd_views(out@), reply, probes, chunks));
    }
    out
}

/// What applying the tweaks to one AVD came to.
#[derive(Debug)]
pub enum ApplyOutcome {
    Updated(UpsertReport),
    Unchanged,
    Skipped(String),
    Failed(String),
}

/// An apply outcome as plain values.
pub enum ApplyView {
    Updated(Seq<(Seq<char>, UpsertOutcome)>, Eol),
    Unchanged,
    Skipped(Seq<char>),
    Failed(Seq<char>),
}

impl View for ApplyOutcome {
    type V = ApplyView;

    open spec fn view(&self) -> ApplyView {
        match self {
            ApplyOutcome::Updated(r) => ApplyView::Updated(outcome_views(r.per_key@), r.eol),
            ApplyOutcome::Unchanged => ApplyView::Unchanged,
            ApplyOutcome::Skipped(m) => ApplyView::Skipped(m@),
            ApplyOutcome::Failed(m) => ApplyView::Failed(m@),
        }
    }
}

/// Every key kept its value.
pub open spec fn all_unchanged(out: Seq<(Seq<char>, UpsertOutcome)>) -> bool {
    forall|i: int| 0 <= i < out.len() ==> (#[trigger] out[i]).1 == UpsertOutcome::Unchanged
}

/// An I/O error as plain values: whether access was denied, and the message.
pub type IoErrorView = (bool, Seq<char>);

/// The outcome of applying `tweaks` to one AVD: an AVD whose emulator runs is
/// skipped unless forced; an unreadable `config.ini` fails when access was
/// denied and is skipped otherwise; a dry run reports what would change;
/// a file that would not change is left alone; otherwise the write decides.
pub open spec fn apply_view(
    force: bool,
    dry_run: bool,
    running: bool,
    read: Result<Seq<char>, IoErrorView>,
    write: Result<(), Seq<char>>,
    tweaks: Seq<Pair>,
) -> ApplyView {
    if running && !force {
        ApplyView::Skipped("emulator running"@)
    } else {
        match read {
            Err(e) => if e.0 { ApplyView::Failed(e.1) } else { ApplyView::Skipped(e.1) },
            Ok(c) => {
                let out = upsert_outcomes(c, tweaks);
                let eol = if uses_crlf(c) { Eol::Crlf } else { Eol::Lf };
                if dry_run {
                    ApplyView::Updated(out, eol)
                } else if all_unchanged(out) && c == upsert_text(c, tweaks) {
                    ApplyView::Unchanged
                } else {
                    match write {
                        Err(m) => ApplyView::Failed(m),
                        Ok(_) => ApplyView::Updated(out, eol),
                    }
                }
            },
        }
    }
}

/// The value of the first pair of `tweaks` whose key is `k`, or the empty
/// text when none is.
pub open spec fn tweak_lookup(tweaks: Seq<(String, String)>, k: Seq<char>) -> Seq<char>
    decreases tweaks.len(),
{
    if tweaks.len() == 0 {
        Seq::empty()
    } else if tweaks[0].0@ == k {
        tweaks[0].1@
    } else {
        tweak_lookup(tweaks.drop_first(), k)
    }
}

/// The value of the tweak with key `k`, or the empty string.
fn tweak_value<'a>(tweaks: &'a [(String, String)], k: &str) -> (r: &'a str)
    ensures
        r@ == tweak_lookup(tweaks@, k@),
{
    let mut i: usize = 0;
    assert(tweaks@.subrange(0, tweaks@.len() as int) =~= tweaks@);
    while i < tweaks.len()
        invariant
            i <= tweaks@.len(),
            tweak_lookup(tweaks@, k@) == tweak_lookup(tweaks@.subrange(i as int, tweaks@.len() as int), k@),
        decreases tweaks.len() - i,
    {
        assert(tweaks@.subrange(i as int, tweaks@.len() as int).drop_first() =~= tweaks@.subrange(i + 1, tweaks@.len() as int));
        if crate::text::str_eq(tweaks[i].0.as_str(), k) {
            return tweaks[i].1.as_str();
        }
        i = i + 1;
    }
    proof {
        reveal_strlit("");
        assert(tweaks@.subrange(i as int, tweaks@.len() as int).len() == 0);
    }
    ""
}

/// The lock-file probes of `apply` in the AVD directory `dir`:
/// `hardware-qemu.ini.lock` (answered `b1`), then, when that is absent,
/// `multiinstance.lock` (answered `b2`).
pub open spec fn lock_probes(dir: Seq<char>, b1: bool, b2: bool) -> Seq<Call> {
    let first = Call::PathExists { path: crate::paths::path_join(dir, "hardware-qemu.ini.lock"@), reply: b1 };
    if b1 {
        seq![first]
    } else {
        seq![first, Call::PathExists { path: crate::paths::path_join(dir, "multiinstance.lock"@), reply: b2 }]
    }
}

/// The requests `apply` makes after reading `config.ini` (`w`) when it
/// writes: the backup copy to `config.ini.bak` when asked for, then the write
/// of the upserted text; the write's outcome.
pub open spec fn write_steps(dir: Seq<char>, ini: Seq<char>, backup: bool, text: Seq<char>, w: Seq<Call>, write: Result<(), Seq<char>>) -> bool {
    let k: int = if backup { 1 } else { 0 };
    &&& w.len() == k + 1
    &&& backup ==> (w[0] matches Call::CopyFile { from, to, .. } && from == ini && to == crate::paths::path_join(dir, "config.ini.bak"@))
    &&& w[k] matches Call::WriteFile { path, contents, reply } && path == ini && contents == text && write == match reply {
        Ok(_) => Ok::<(), Seq<char>>(()),
        Err(e) => Err(e.1),
    }
}

/// What `apply` asks of the runner (`t`) for the AVD in `dir` with
/// `config.ini` at `ini`, and its outcome `res`: the lock probes; then, unless
/// a running emulator skips it, the read of `config.ini`; then, when the file
/// is read, not a dry run, and would change, `write_steps` with the upserted
/// text. The outcome is `apply_view` of those answers.
pub open spec fn apply_trace(
    dir: Seq<char>,
    ini: Seq<char>,
    cfg: EmulatorConfigArgs,
    tweaks: Seq<Pair>,
    t: Seq<Call>,
    res: ApplyView,
) -> bool {
    exists|b1: bool, b2: bool, read: Result<Seq<char>, IoErrorView>, w: Seq<Call>, write: Result<(), Seq<char>>|
        #[trigger] apply_steps(dir, ini, cfg, tweaks, b1, b2, read, w, write) == t
        && res == apply_view(cfg.force, cfg.dry_run, b1 || b2, read, write, tweaks)
        && (apply_writes(cfg, b1 || b2, read, tweaks) ==> write_steps(dir, ini, cfg.backup, upsert_text(read->Ok_0, tweaks), w, write))
        && (!apply_writes(cfg, b1 || b2, read, tweaks) ==> w.len() == 0 && write == Ok::<(), Seq<char>>(()))
}

/// Whether `apply` goes on to write `config.ini`.
pub open spec fn apply_writes(cfg: EmulatorConfigArgs, running: bool, read: Result<Seq<char>, IoErrorView>, tweaks: Seq<Pair>) -> bool {
    &&& !(running && !cfg.force)
    &&& read is Ok
    &&& !cfg.dry_run
    &&& !(all_unchanged(upsert_outcomes(read->Ok_0, tweaks)) && read->Ok_0 == upsert_text(read->Ok_0, tweaks))
}

/// The requests of `apply` for the given answers: the lock probes, the read
/// unless skipped, then `w`.
pub open spec fn apply_steps(
    dir: Seq<char>,
    ini: Seq<char>,
    cfg: EmulatorConfigArgs,
    tweaks: Seq<Pair>,
    b1: bool,
    b2: bool,
    read: Result<Seq<char>, IoErrorView>,
    w: Seq<Call>,
    write: Result<(), Seq<char>>,
) -> Seq<Call> {
    if (b1 || b2) && !cfg.force {
        lock_probes(dir, b1, b2)
    } else {
        lock_probes(dir, b1, b2) + seq![Call::ReadFile { path: ini, reply: read }] + w
    }
}

/// Applies `tweaks` to one AVD's `config.ini`; see `apply_trace`.
#[verifier::spinoff_prover]
#[verifier::rlimit(50)]
pub fn apply<R: Runner>(runner: &mut Session<R>, avd: &Avd, tweaks: &[(String, String)], cfg: &EmulatorConfigArgs) -> (res: ApplyOutcome)
    requires
        keys_compile(pair_views(tweaks@)),
    ensures
        extends(old(runner).calls(), final(runner).calls()),
        apply_trace(avd.dir@, avd.config_ini@, *cfg, pair_views(tweaks@), since(old(runner).calls(), final(runner).calls()), res@),
{
    let ghost start = runner.calls();
    let tv = Ghost(pair_views(tweaks@));
    let lock1 = crate::paths::join_path(avd.dir.as_str(), "hardware-qemu.ini.lock");
    let lock2 = crate::paths::join_path(avd.dir.as_str(), "multiinstance.lock");
    let b1 = runner.path_exists(lock1.as_str());
    let b2 = if b1 { false } else { runner.path_exists(lock2.as_str()) };
    let running = b1 || b2;
    let ghost locks = runner.calls();
    assert(locks =~= start + lock_probes(avd.dir@, b1, b2));
    let ghost ok_read: Result<Seq<char>, IoErrorView> = Ok(Seq::empty());
    let ghost ok_write: Result<(), Seq<char>> = Ok(());
    let ghost no_w: Seq<Call> = Seq::empty();
    if running && !cfg.force {
        runner.report(Level::Warn, "    ! emulator running — skipped (use --force)");
        let r = ApplyOutcome::Skipped("emulator running".to_owned());
        assert(since(start, runner.calls()) =~= apply_steps(avd.dir@, avd.config_ini@, *cfg, tv@, b1, b2, ok_read, no_w, ok_write));
        assert(r@ == apply_view(cfg.force, cfg.dry_run, running, ok_read, ok_write, tv@));
        return r;
    }
    let content = match runner.read_file(avd.config_ini.as_str()) {
        Ok(c) => c,
        Err(e) => {
            let ghost rd: Result<Seq<char>, IoErrorView> = Err((e.permission_denied, e.message@));
            assert(since(start, runner.calls()) =~= apply_steps(avd.dir@, avd.config_ini@, *cfg, tv@, b1, b2, rd, no_w, ok_write));
            if e.permission_denied {
                runner.report(Level::Error, &cat(&["    ✗ ", e.message.as_str()]));
                let r = ApplyOutcome::Failed(e.message);
                assert(r@ == apply_view(cfg.force, cfg.dry_run, running, rd, ok_write, tv@));
                return r;
            }
            runner.report(Level::Warn, &cat(&["    ! config.ini unreadable: ", e.message.as_str()]));
            let r = ApplyOutcome::Skipped(e.message);
            assert(r@ == apply_view(cfg.force, cfg.dry_run, running, rd, ok_write, tv@));
            return r;
        },
    };
    let ghost rd: Result<Seq<char>, IoErrorView> = Ok(content@);
    let ghost after_read = runner.calls();
    assert(after_read =~= start + apply_steps(avd.dir@, avd.config_ini@, *cfg, tv@, b1, b2, rd, no_w, ok_write));
    let (new_content, report) = upsert_ini(content.as_str(), tweaks);
    if cfg.dry_run {
        let mut i: usize = 0;
        while i < report.per_key.len()
            invariant
                runner.calls() == after_read,
            decreases report.per_key.len() - i,
        {
            let k = report.per_key[i].0.as_str();
            let val = tweak_value(tweaks, k);
            let label = match report.per_key[i].1 {
                UpsertOutcome::Added => "would add",
                UpsertOutcome::Replaced => "would replace",
                UpsertOutcome::Unchanged => "unchanged",
            };
            runner.report(Level::Info, &cat(&["    ~ ", label, " ", k, "=", val]));
            i = i + 1;
        }
        let r = ApplyOutcome::Updated(report);
        assert(since(start, runner.calls()) =~= apply_steps(avd.dir@, avd.config_ini@, *cfg, tv@, b1, b2, rd, no_w, ok_write));
        assert(r@ == apply_view(cfg.force, cfg.dry_run, running, rd, ok_write, tv@));
        return r;
    }
    let mut unchanged = true;
    let mut j: usize = 0;
    while j < report.per_key.len()
        invariant
            j <= report.per_key@.len(),
            unchanged == forall|m: int| 0 <= m < j ==> report.per_key@[m].1 == UpsertOutcome::Unchanged,
        decreases report.per_key.len() - j,
    {
        if report.per_key[j].1 != UpsertOutcome::Unchanged {
            unchanged = false;
        }
        j = j + 1;
    }
    proof {
        let ov = outcome_views(report.per_key@);
        assert forall|m: int| 0 <= m < ov.len() implies (#[trigger] ov[m]).1 == report.per_key@[m].1 by {}
        if !unchanged {
            let m = choose|m: int| 0 <= m < report.per_key@.len() && report.per_key@[m].1 != UpsertOutcome::Unchanged;
            assert(ov[m].1 != UpsertOutcome::Unchanged);
        }
    }
    if unchanged && crate::text::str_eq(content.as_str(), new_content.as_str()) {
        let mut i: usize = 0;
        while i < report.per_key.len()
            invariant
                runner.calls() == after_read,
            decreases report.per_key.len() - i,
        {
            let k = report.per_key[i].0.as_str();
            let val = tweak_value(tweaks, k);
            runner.report(Level::Info, &cat(&["    ~ ", k, "=", val, " (already set)"]));
            i = i + 1;
        }
        let r = ApplyOutcome::Unchanged;
        assert(since(start, runner.calls()) =~= apply_steps(avd.dir@, avd.config_ini@, *cfg, tv@, b1, b2, rd, no_w, ok_write));
        assert(r@ == apply_view(cfg.force, cfg.dry_run, running, rd, ok_write, tv@));
        return r;
    }
    assert(apply_writes(*cfg, running, rd, tv@));
    let ghost mut w: Seq<Call> = Seq::empty();
    if cfg.backup {
        let bak = crate::paths::join_path(avd.dir.as_str(), "config.ini.bak");
        let copied = runner.copy_file(avd.config_ini.as_str(), bak.as_str());
        proof {
            w = w.push(runner.calls().last());
        }
        if let Err(e) = copied {
            runner.report(Level::Warn, &cat(&["    ! backup failed: ", e.message.as_str()]));
        }
    }
    let written = runner.write_file(avd.config_ini.as_str(), new_content.as_str());
    proof {
        w = w.push(runner.calls().last());
    }
    let ghost wr: Result<(), Seq<char>> = if written is Ok { Ok(()) } else { Err(written->Err_0.message@) };
    assert(runner.calls() =~= after_read + w);
    assert(since(start, runner.calls()) =~= apply_steps(avd.dir@, avd.config_ini@, *cfg, tv@, b1, b2, rd, w, wr));
    assert(write_steps(avd.dir@, avd.config_ini@, cfg.backup, upsert_text(content@, tv@), w, wr));
    if let Err(e) = written {
        runner.report(Level::Error, &cat(&["    ✗ write failed: ", e.message.as_str()]));
        let r = ApplyOutcome::Failed(e.message);
        assert(r@ == apply_view(cfg.force, cfg.dry_run, running, rd, wr, tv@));
        return r;
    }
    let mut i: usize = 0;
    let ghost after_write = runner.calls();
    while i < report.per_key.len()
        invariant
            runner.calls() == after_write,
        decreases report.per_key.len() - i,
    {
        let k = report.per_key[i].0.as_str();
        let val = tweak_value(tweaks, k);
        match report.per_key[i].1 {
            UpsertOutcome::Added | UpsertOutcome::Replaced => {
                runner.report(Level::Info, &cat(&["    ✓ set ", k, "=", val]));
            },
            UpsertOutcome::Unchanged => {
                runner.report(Level::Info, &cat(&["    ~ ", k, "=", val, " (already set)"]));
            },
        }
        i = i + 1;
    }
    let r = ApplyOutcome::Updated(report);
    assert(r@ == apply_view(cfg.force, cfg.dry_run, running, rd, wr, tv@));
    r
}

/// Where the AVDs live: `ANDROID_AVD_HOME`, else `$ANDROID_USER_HOME/avd`, else
/// `~/.android/avd`; each only when set, non-empty and an existing directory.
/// The arguments are the environment's answers: the two variables, the home
/// directory, and whether each candidate is a directory.
pub open spec fn avd_root_choice(
    avd_home: Option<Seq<char>>,
    avd_home_is_dir: bool,
    user_home: Option<Seq<char>>,
    user_avd_is_dir: bool,
    home: Option<Seq<char>>,
    home_avd_is_dir: bool,
) -> Option<Seq<char>> {
    if avd_home matches Some(v) && v.len() > 0 && avd_home_is_dir {
        avd_home
    } else if user_home matches Some(v) && v.len() > 0 && user_avd_is_dir {
        Some(crate::paths::path_join(user_home->0, "avd"@))
    } else if home is Some && home_avd_is_dir {
        Some(crate::paths::path_join(crate::paths::path_join(home->0, ".android"@), "avd"@))
    } else {
        None
    }
}

/// A set, non-empty variable value.
pub open spec fn nonempty(v: Option<Seq<char>>) -> bool {
    v is Some && v->0.len() > 0
}

/// The requests `resolve_avd_root` makes for the answers of `avd_root_choice`:
/// `$ANDROID_AVD_HOME` and, when non-empty, whether it is a directory; unless
/// that settled it, `$ANDROID_USER_HOME` and, when non-empty, whether its
/// `avd` is a directory; unless that settled it, the home directory and, when
/// known, whether its `.android/avd` is a directory.
pub open spec fn root_probes(
    a: Option<Seq<char>>,
    ad: bool,
    u: Option<Seq<char>>,
    ud: bool,
    h: Option<Seq<char>>,
    hd: bool,
) -> Seq<Call> {
    let s1 = seq![Call::EnvVar { name: "ANDROID_AVD_HOME"@, reply: a }];
    let s1b = if nonempty(a) { s1.push(Call::IsDir { path: a->0, reply: ad }) } else { s1 };
    if nonempty(a) && ad {
        s1b
    } else {
        let s2 = s1b.push(Call::EnvVar { name: "ANDROID_USER_HOME"@, reply: u });
        let s2b = if nonempty(u) {
            s2.push(Call::IsDir { path: crate::paths::path_join(u->0, "avd"@), reply: ud })
        } else {
            s2
        };
        if nonempty(u) && ud {
            s2b
        } else {
            let s3 = s2b.push(Call::HomeDir { reply: h });
            if h is Some {
                s3.push(Call::IsDir { path: crate::paths::path_join(crate::paths::path_join(h->0, ".android"@), "avd"@), reply: hd })
            } else {
                s3
            }
        }
    }
}

/// What `resolve_avd_root` asks (`t`) and answers (`r`).
pub open spec fn root_trace(t: Seq<Call>, r: Option<Seq<char>>) -> bool {
    exists|a: Option<Seq<char>>, ad: bool, u: Option<Seq<char>>, ud: bool, h: Option<Seq<char>>, hd: bool|
        #[trigger] root_probes(a, ad, u, ud, h, hd) == t && r == avd_root_choice(a, ad, u, ud, h, hd)
}

/// Finds the AVD root; see `avd_root_choice` and `root_probes`.
pub fn resolve_avd_root<R: Runner>(runner: &mut Session<R>) -> (r: Option<String>)
    ensures
        extends(old(runner).calls(), final(runner).calls()),
        root_trace(since(old(runner).calls(), final(runner).calls()), crate::text::opt_view(r)),
{
    let ghost start = runner.calls();
    let a = runner.env_var("ANDROID_AVD_HOME");
    let ghost av: Option<Seq<char>> = crate::text::opt_view(a);
    let mut ad = false;
    if let Some(v) = &a {
        if !v.as_str().is_empty() {
            ad = runner.is_dir(v.as_str());
            if ad {
                let r = Some(v.clone());
                assert(since(start, runner.calls()) =~= root_probes(av, true, None, false, None, false));
                assert(crate::text::opt_view(r) == avd_root_choice(av, true, None, false, None, false));
                return r;
            }
        }
    }
    let u = runner.env_var("ANDROID_USER_HOME");
    let ghost uv: Option<Seq<char>> = crate::text::opt_view(u);
    let mut ud = false;
    if let Some(v) = &u {
        if !v.as_str().is_empty() {
            let p = crate::paths::join_path(v.as_str(), "avd");
            ud = runner.is_dir(p.as_str());
            if ud {
                let r = Some(p);
                assert(since(start, runner.calls()) =~= root_probes(av, ad, uv, true, None, false));
                assert(crate::text::opt_view(r) == avd_root_choice(av, ad, uv, true, None, false));
                return r;
            }
        }
    }
    let home = runner.home_dir();
    let ghost hv: Option<Seq<char>> = crate::text::opt_view(home);
    let mut hd = false;
    if let Some(h) = &home {
        let android = crate::paths::join_path(h.as_str(), ".android");
        let p = crate::paths::join_path(android.as_str(), "avd");
        hd = runner.is_dir(p.as_str());
        if hd {
            let r = Some(p);
            assert(since(start, runner.calls()) =~= root_probes(av, ad, uv, ud, hv, true));
            assert(crate::text::opt_view(r) == avd_root_choice(av, ad, uv, ud, hv, true));
            return r;
        }
    }
    let r: Option<String> = None;
    assert(since(start, runner.calls()) =~= root_probes(av, ad, uv, ud, hv, hd));
    assert(crate::text::opt_view(r) == avd_root_choice(av, ad, uv, ud, hv, hd));
    r
}

/// The AVDs of `avds` whose name is among `wanted` (all of them when `wanted`
/// is empty), in order.
pub open spec fn selected_avds(avds: Seq<AvdView>, wanted: Seq<Seq<char>>) -> Seq<AvdView>
    decreases avds.len(),
{
    if avds.len() == 0 {
        Seq::empty()
    } else {
        let prev = selected_avds(avds.drop_last(), wanted);
        if wanted.len() == 0 || wanted.contains(avds.last().0) {
            prev.push(avds.last())
        } else {
            prev
        }
    }
}

/// Some wanted name is not the name of any AVD.
pub open spec fn some_avd_missing(avds: Seq<AvdView>, wanted: Seq<Seq<char>>) -> bool {
    exists|i: int| 0 <= i < wanted.len() && !#[trigger] avd_named(avds, wanted[i])
}

/// Some AVD of `avds` is named `name`.
pub open spec fn avd_named(avds: Seq<AvdView>, name: Seq<char>) -> bool {
    exists|j: int| 0 <= j < avds.len() && #[trigger] avds[j].0 == name
}

/// Some AVD failed.
pub open spec fn some_apply_failed(outcomes: Seq<ApplyView>) -> bool {
    exists|i: int| 0 <= i < outcomes.len() && #[trigger] outcomes[i] is Failed
}

/// The exit code of `mdev emulator config` from what it found: no AVD root or
/// no AVD is no error; a malformed `--set`, a key whose pattern does not compile or an unknown
/// `--avd` name is; otherwise it fails when some AVD failed.
pub open spec fn run_config_exit(
    root_found: bool,
    avds: Seq<AvdView>,
    set: Seq<Seq<char>>,
    wanted: Seq<Seq<char>>,
    outcomes: Seq<ApplyView>,
) -> i32 {
    if !root_found || avds.len() == 0 {
        0
    } else if parse_tweaks_spec(set) is Err {
        1
    } else if !keys_compile(merged_tweaks(seq![("showAVDManager"@, "no"@)], parse_tweaks_spec(set)->Ok_0)) {
        1
    } else if some_avd_missing(avds, wanted) {
        1
    } else if some_apply_failed(outcomes) {
        1
    } else {
        0
    }
}

/// The views of strings.
pub open spec fn string_views(v: Seq<String>) -> Seq<Seq<char>> {
    v.map_values(|s: String| s@)
}

/// Whether `name` is among `names`.
fn name_listed(names: &Vec<String>, name: &str) -> (b: bool)
    ensures
        b == string_views(names@).contains(name@),
{
    let ghost nv = string_views(names@);
    let mut i: usize = 0;
    while i < names.len()
        invariant
            i <= names@.len(),
            nv == string_views(names@),
            forall|k: int| 0 <= k < i ==> nv[k] != name@,
        decreases names.len() - i,
    {
        if crate::text::str_eq(names[i].as_str(), name) {
            assert(nv[i as int] == name@);
            return true;
        }
        i = i + 1;
    }
    false
}

/// The tweaks `mdev emulator config` applies for the `--set` arguments `set`:
/// the defaults overridden by the parsed arguments.
pub open spec fn config_tweaks(set: Seq<Seq<char>>) -> Seq<Pair> {
    merged_tweaks(seq![("showAVDManager"@, "no"@)], parse_tweaks_spec(set)->Ok_0)
}

/// Whether `mdev emulator config` goes on to apply the tweaks to the AVDs it
/// found: there is one, the `--set` arguments parse, the pattern of every
/// key compiles and every `--avd` name is an AVD.
pub open spec fn config_applies(avds: Seq<AvdView>, set: Seq<Seq<char>>, wanted: Seq<Seq<char>>) -> bool {
    &&& avds.len() > 0
    &&& parse_tweaks_spec(set) is Ok
    &&& keys_compile(config_tweaks(set))
    &&& !some_avd_missing(avds, wanted)
}

/// After discovering `avds`, the requests `applied` (one group per AVD) and
/// the outcomes: when the tweaks are applied, each selected AVD in order gets
/// exactly the requests of one `apply` with its outcome; otherwise nothing is
/// applied. The code follows from the outcomes.
pub open spec fn config_applied(
    cfg: EmulatorConfigArgs,
    avds: Seq<AvdView>,
    applied: Seq<Seq<Call>>,
    outcomes: Seq<ApplyView>,
    code: i32,
) -> bool {
    let set = string_views(cfg.set@);
    let wanted = string_views(cfg.avd@);
    let sel = selected_avds(avds, wanted);
    &&& code == run_config_exit(true, avds, set, wanted, outcomes)
    &&& (config_applies(avds, set, wanted) ==> {
        &&& applied.len() == sel.len()
        &&& outcomes.len() == sel.len()
        &&& forall|k: int| 0 <= k < sel.len() ==> apply_trace(sel[k].1, sel[k].2, cfg, config_tweaks(set), #[trigger] applied[k], outcomes[k])
    })
    &&& (!config_applies(avds, set, wanted) ==> applied.len() == 0 && outcomes.len() == 0)
}

/// What `run_config` asks of the runner (`t`) and answers (`code`): first the
/// requests of `resolve_avd_root`; without a root nothing more is asked and
/// the code is 0; with one, the discovery of the AVDs under it (`avd_scan`)
/// and then the applying (`config_applied`).
pub open spec fn config_trace(t: Seq<Call>, cfg: EmulatorConfigArgs, code: i32) -> bool {
    exists|n: int, root: Option<Seq<char>>|
        0 <= n <= t.len() && #[trigger] root_trace(t.take(n), root)
        && (root is None ==> n == t.len() && code == 0)
        && (root is Some ==> exists|scan_len: int, avds: Seq<AvdView>, applied: Seq<Seq<Call>>, outcomes: Seq<ApplyView>|
            #![trigger avd_scan(root->0, t.subrange(n, scan_len), avds), config_applied(cfg, avds, applied, outcomes, code)]
            n <= scan_len <= t.len()
            && avd_scan(root->0, t.subrange(n, scan_len), avds)
            && t.skip(scan_len) == applied.flatten()
            && config_applied(cfg, avds, applied, outcomes, code))
}

proof fn lemma_config_done(
    start: Seq<Call>,
    mid: Seq<Call>,
    scanned: Seq<Call>,
    end: Seq<Call>,
    root: Seq<char>,
    cfg: EmulatorConfigArgs,
    avds: Seq<AvdView>,
    applied: Seq<Seq<Call>>,
    outcomes: Seq<ApplyView>,
    code: i32,
)
    requires
        extends(start, mid),
        extends(mid, scanned),
        extends(scanned, end),
        root_trace(since(start, mid), Some(root)),
        avd_scan(root, since(mid, scanned), avds),
        since(scanned, end) == applied.flatten(),
        config_applied(cfg, avds, applied, outcomes, code),
    ensures
        extends(start, end),
        config_trace(since(start, end), cfg, code),
{
    let t = since(start, end);
    let n = since(start, mid).len() as int;
    let m = n + since(mid, scanned).len();
    assert(t.take(n) =~= since(start, mid));
    assert(t.subrange(n, m) =~= since(mid, scanned));
    assert(t.skip(m) =~= since(scanned, end));
    assert(root_trace(t.take(n), Some(root)));
    assert(0 <= n <= m <= t.len());
    assert(t.skip(m) == applied.flatten());
    assert(avd_scan(root, t.subrange(n, m), avds));
    assert(config_applied(cfg, avds, applied, outcomes, code));
    assert(exists|scan_len: int, avds: Seq<AvdView>, applied: Seq<Seq<Call>>, outcomes: Seq<ApplyView>|
        #![trigger avd_scan(root, t.subrange(n, scan_len), avds), config_applied(cfg, avds, applied, outcomes, code)]
        n <= scan_len <= t.len()
        && avd_scan(root, t.subrange(n, scan_len), avds)
        && t.skip(scan_len) == applied.flatten()
        && config_applied(cfg, avds, applied, outcomes, code));
    let r: Option<Seq<char>> = Some(root);
    assert(r->0 == root);
    assert(r is Some ==> exists|scan_len: int, avds: Seq<AvdView>, applied: Seq<Seq<Call>>, outcomes: Seq<ApplyView>|
        #![trigger avd_scan(r->0, t.subrange(n, scan_len), avds), config_applied(cfg, avds, applied, outcomes, code)]
        n <= scan_len <= t.len()
        && avd_scan(r->0, t.subrange(n, scan_len), avds)
        && t.skip(scan_len) == applied.flatten()
        && config_applied(cfg, avds, applied, outcomes, code));
    assert(0 <= n <= t.len() && root_trace(t.take(n), r) && (r is None ==> n == t.len() && code == 0));
}

/// Applies the default tweaks and the `--set` tweaks to the local AVDs (or the
/// `--avd` ones) and reports how many were configured.
pub fn run_config<R: Runner>(cfg: &EmulatorConfigArgs, runner: &mut Session<R>) -> (code: i32)
    ensures
        extends(old(runner).calls(), final(runner).calls()),
        config_trace(since(old(runner).calls(), final(runner).calls()), *cfg, code),
{
    let ghost start = runner.calls();
    let ghost set = string_views(cfg.set@);
    let ghost wanted = string_views(cfg.avd@);
    let ghost none: Seq<ApplyView> = Seq::empty();
    let ghost nothing: Seq<Seq<Call>> = Seq::empty();
    runner.report(Level::Info, "mdev emulator config");
    runner.report(Level::Info, "──────────────────────────────");
    let found = resolve_avd_root(runner);
    let ghost mid = runner.calls();
    let root = match found {
        Some(r) => r,
        None => {
            runner.report(Level::Warn, "No Android AVD root found (set ANDROID_AVD_HOME or install Android SDK)");
            proof {
                let t = since(start, runner.calls());
                assert(t.take(t.len() as int) =~= t);
            }
            return 0;
        },
    };
    runner.report(Level::Info, &cat(&["AVD root: ", root.as_str()]));
    let avds = discover_avds(runner, root.as_str(), cfg.verbose);
    let ghost scanned = runner.calls();
    let ghost av = avd_views(avds@);
    proof {
        assert(nothing.flatten() =~= Seq::<Call>::empty());
        assert(since(scanned, runner.calls()) =~= nothing.flatten());
    }
    if avds.len() == 0 {
        runner.report(Level::Warn, &cat(&["No AVDs found at ", root.as_str()]));
        proof {
            lemma_config_done(start, mid, scanned, runner.calls(), root@, *cfg, av, nothing, none, 0);
        }
        return 0;
    }
    let count = crate::text::decimal_text(avds.len() as u64);
    runner.report(Level::Info, &cat(&["Found ", count.as_str(), " AVD(s)."]));
    assert(cfg.set@.map_values(|s: String| s@) == set);
    let user_tweaks = match parse_tweaks(cfg.set.as_slice()) {
        Ok(t) => t,
        Err(e) => {
            runner.report(Level::Error, e.as_str());
            assert(run_config_exit(true, av, set, wanted, none) == 1);
            proof {
                lemma_config_done(start, mid, scanned, runner.calls(), root@, *cfg, av, nothing, none, 1);
            }
            return 1;
        },
    };
    let ghost uv = pair_views(user_tweaks@);
    let defaults = default_tweaks();
    let tweaks = merge_tweaks(defaults.as_slice(), user_tweaks);
    let ghost tv = pair_views(tweaks@);
    assert(tv == merged_tweaks(seq![("showAVDManager"@, "no"@)], uv));
    assert(tv == config_tweaks(set));
    let mut t: usize = 0;
    while t < tweaks.len()
        invariant
            extends(start, mid),
            extends(mid, scanned),
            scanned == runner.calls(),
            start == old(runner).calls(),
            nothing == Seq::<Seq<Call>>::empty(),
            none == Seq::<ApplyView>::empty(),
            root_trace(since(start, mid), Some(root@)),
            avd_scan(root@, since(mid, scanned), av),
            t <= tweaks@.len(),
            tv == pair_views(tweaks@),
            set == string_views(cfg.set@),
            wanted == string_views(cfg.avd@),
            parse_tweaks_spec(set) == Ok::<Seq<Pair>, Seq<char>>(uv),
            tv == config_tweaks(set),
            av.len() > 0,
            forall|m: int| 0 <= m < t ==> key_compiles(#[trigger] tv[m].0),
        decreases tweaks.len() - t,
    {
        assert(tv[t as int].0 == tweaks@[t as int].0@);
        if !key_compiles_check(tweaks[t].0.as_str()) {
            runner.report(Level::Error, &cat(&["tweak key cannot be matched: ", tweaks[t].0.as_str()]));
            assert(!keys_compile(tv));
            assert(run_config_exit(true, av, set, wanted, none) == 1);
            proof {
                assert(since(scanned, runner.calls()) =~= nothing.flatten());
                lemma_config_done(start, mid, scanned, runner.calls(), root@, *cfg, av, nothing, none, 1);
            }
            return 1;
        }
        t = t + 1;
    }
    assert(keys_compile(tv));
    if cfg.avd.len() > 0 {
        let mut w: usize = 0;
        while w < cfg.avd.len()
            invariant
                extends(start, mid),
                extends(mid, scanned),
                scanned == runner.calls(),
                start == old(runner).calls(),
                nothing == Seq::<Seq<Call>>::empty(),
                none == Seq::<ApplyView>::empty(),
                root_trace(since(start, mid), Some(root@)),
                avd_scan(root@, since(mid, scanned), av),
                w <= cfg.avd@.len(),
                wanted == string_views(cfg.avd@),
                av == avd_views(avds@),
                av.len() > 0,
                set == string_views(cfg.set@),
                parse_tweaks_spec(set) == Ok::<Seq<Pair>, Seq<char>>(uv),
                tv == config_tweaks(set),
                keys_compile(tv),
                forall|i: int| 0 <= i < w ==> #[trigger] avd_named(av, wanted[i]),
            decreases cfg.avd.len() - w,
        {
            let mut found = false;
            let mut j: usize = 0;
            while j < avds.len()
                invariant
                    j <= avds@.len(),
                    w < cfg.avd@.len(),
                    av == avd_views(avds@),
                    wanted == string_views(cfg.avd@),
                    found ==> avd_named(av, wanted[w as int]),
                    !found ==> forall|m: int| 0 <= m < j ==> #[trigger] av[m].0 != wanted[w as int],
                decreases avds.len() - j,
            {
                if crate::text::str_eq(avds[j].name.as_str(), cfg.avd[w].as_str()) {
                    assert(av[j as int].0 == wanted[w as int]);
                    assert(avd_named(av, wanted[w as int]));
                    found = true;
                }
                j = j + 1;
            }
            if !found {
                runner.report(Level::Error, &cat(&["AVD(s) not found: ", cfg.avd[w].as_str()]));
                assert(!avd_named(av, wanted[w as int])) by {
                    if avd_named(av, wanted[w as int]) {
                        let m = choose|m: int| 0 <= m < av.len() && #[trigger] av[m].0 == wanted[w as int];
                        assert(av[m].0 != wanted[w as int]);
                    }
                }
                assert(some_avd_missing(av, wanted));
                assert(run_config_exit(true, av, set, wanted, none) == 1);
                proof {
                    assert(since(scanned, runner.calls()) =~= nothing.flatten());
                    lemma_config_done(start, mid, scanned, runner.calls(), root@, *cfg, av, nothing, none, 1);
                }
                return 1;
            }
            w = w + 1;
        }
    }
    assert(!some_avd_missing(av, wanted));
    assert(config_applies(av, set, wanted));
    let total = avds.len();
    let mut updated: u64 = 0;
    let mut unchanged: u64 = 0;
    let mut skipped: u64 = 0;
    let mut failed: u64 = 0;
    let ghost mut outcomes: Seq<ApplyView> = Seq::empty();
    let ghost mut applied: Seq<Seq<Call>> = Seq::empty();
    let mut i: usize = 0;
    assert(selected_avds(av.take(0), wanted) =~= Seq::<AvdView>::empty()) by {
        assert(av.take(0) =~= Seq::<AvdView>::empty());
    }
    while i < avds.len()
        invariant
            extends(start, mid),
            extends(mid, scanned),
            extends(scanned, runner.calls()),
            start == old(runner).calls(),
            root_trace(since(start, mid), Some(root@)),
            avd_scan(root@, since(mid, scanned), av),
            av == avd_views(avds@),
            i <= avds@.len(),
            keys_compile(tv),
            tv == pair_views(tweaks@),
            set == string_views(cfg.set@),
            wanted == string_views(cfg.avd@),
            parse_tweaks_spec(set) == Ok::<Seq<Pair>, Seq<char>>(uv),
            tv == config_tweaks(set),
            config_applies(av, set, wanted),
            updated + unchanged + skipped + failed <= i,
            (failed > 0) == some_apply_failed(outcomes),
            since(scanned, runner.calls()) == applied.flatten(),
            applied.len() == selected_avds(av.take(i as int), wanted).len(),
            outcomes.len() == selected_avds(av.take(i as int), wanted).len(),
            forall|k: int| 0 <= k < applied.len() ==> apply_trace(
                selected_avds(av.take(i as int), wanted)[k].1,
                selected_avds(av.take(i as int), wanted)[k].2,
                *cfg,
                tv,
                #[trigger] applied[k],
                outcomes[k],
            ),
        decreases avds.len() - i,
    {
        let avd = &avds[i];
        let ghost before = runner.calls();
        let ghost sel0 = selected_avds(av.take(i as int), wanted);
        proof {
            assert(av.take(i + 1).drop_last() =~= av.take(i as int));
            assert(av.take(i + 1).last() == av[i as int]);
        }
        if cfg.avd.len() == 0 || name_listed(&cfg.avd, avd.name.as_str()) {
            runner.report(Level::Info, &cat(&["  → ", avd.name.as_str()]));
            if cfg.verbose {
                runner.report(Level::Detail, &cat(&["    dir: ", avd.dir.as_str()]));
            }
            let outcome = apply(runner, avd, tweaks.as_slice(), cfg);
            let ghost prev_outcomes = outcomes;
            proof {
                let chunk = since(before, runner.calls());
                let sel1 = selected_avds(av.take(i + 1), wanted);
                assert(sel1 == sel0.push(av[i as int]));
                applied.lemma_flatten_push(chunk);
                crate::session::lemma_since_prefix(scanned, before, runner.calls());
                assert(since(scanned, runner.calls()) =~= since(scanned, before) + chunk);
                applied = applied.push(chunk);
                outcomes = outcomes.push(outcome@);
                assert forall|k: int| 0 <= k < applied.len() implies apply_trace(sel1[k].1, sel1[k].2, *cfg, tv, #[trigger] applied[k], outcomes[k]) by {
                    if k < applied.len() - 1 {
                        assert(sel1[k] == sel0[k]);
                    }
                }
                if some_apply_failed(outcomes) {
                    let m = choose|m: int| 0 <= m < outcomes.len() && #[trigger] outcomes[m] is Failed;
                    if m < prev_outcomes.len() {
                        assert(prev_outcomes[m] is Failed);
                    }
                }
                if some_apply_failed(prev_outcomes) {
                    let m = choose|m: int| 0 <= m < prev_outcomes.len() && #[trigger] prev_outcomes[m] is Failed;
                    assert(outcomes[m] is Failed);
                }
            }
            match outcome {
                ApplyOutcome::Updated(report) => {
                    let mut any_change = false;
                    let mut k: usize = 0;
                    while k < report.per_key.len()
                        decreases report.per_key.len() - k,
                    {
                        if report.per_key[k].1 != UpsertOutcome::Unchanged {
                            any_change = true;
                        }
                        k = k + 1;
                    }
                    if any_change {
                        updated = updated + 1;
                    } else {
                        unchanged = unchanged + 1;
                    }
                },
                ApplyOutcome::Unchanged => unchanged = unchanged + 1,
                ApplyOutcome::Skipped(_) => skipped = skipped + 1,
                ApplyOutcome::Failed(_) => {
                    assert(outcomes[outcomes.len() - 1] is Failed);
                    failed = failed + 1;
                },
            }
        } else {
            proof {
                assert(selected_avds(av.take(i + 1), wanted) == sel0);
            }
        }
        i = i + 1;
    }
    let ok = crate::text::decimal_text(updated + unchanged);
    let total_text = crate::text::decimal_text(total as u64);
    runner.report(Level::Info, &cat(&[ok.as_str(), "/", total_text.as_str(), " AVD(s) configured."]));
    if skipped > 0 {
        let n = crate::text::decimal_text(skipped);
        runner.report(Level::Warn, &cat(&[n.as_str(), " skipped"]));
    }
    if failed > 0 {
        let n = crate::text::decimal_text(failed);
        runner.report(Level::Error, &cat(&[n.as_str(), " failed"]));
    }
    let code = if failed > 0 { 1 } else { 0 };
    assert(run_config_exit(true, av, set, wanted, outcomes) == code);
    proof {
        assert(av.take(avds@.len() as int) =~= av);
        lemma_config_done(start, mid, scanned, runner.calls(), root@, *cfg, av, applied, outcomes, code);
    }
    code
}

proof fn lemma_config_code(t: Seq<Call>, cfg: EmulatorConfigArgs, code: i32)
    requires
        config_trace(t, cfg, code),
    ensures
        exists|root_found: bool, avds: Seq<AvdView>, outcomes: Seq<ApplyView>|
            code == #[trigger] run_config_exit(root_found, avds, string_views(cfg.set@), string_views(cfg.avd@), outcomes),
{
    let (n, root) = choose|n: int, root: Option<Seq<char>>|
        0 <= n <= t.len() && #[trigger] root_trace(t.take(n), root)
        && (root is None ==> n == t.len() && code == 0)
        && (root is Some ==> exists|scan_len: int, avds: Seq<AvdView>, applied: Seq<Seq<Call>>, outcomes: Seq<ApplyView>|
            #![trigger avd_scan(root->0, t.subrange(n, scan_len), avds), config_applied(cfg, avds, applied, outcomes, code)]
            n <= scan_len <= t.len()
            && avd_scan(root->0, t.subrange(n, scan_len), avds)
            && t.skip(scan_len) == applied.flatten()
            && config_applied(cfg, avds, applied, outcomes, code));
    if root is None {
        assert(run_config_exit(false, Seq::empty(), string_views(cfg.set@), string_views(cfg.avd@), Seq::empty()) == 0);
    } else {
        let rt = root->0;
        let (scan_len, avds, applied, outcomes) = choose|scan_len: int, avds: Seq<AvdView>, applied: Seq<Seq<Call>>, outcomes: Seq<ApplyView>|
            #![trigger avd_scan(root->0, t.subrange(n, scan_len), avds), config_applied(cfg, avds, applied, outcomes, code)]
            n <= scan_len <= t.len()
            && avd_scan(root->0, t.subrange(n, scan_len), avds)
            && t.skip(scan_len) == applied.flatten()
            && config_applied(cfg, avds, applied, outcomes, code);
        assert(code == run_config_exit(true, avds, string_views(cfg.set@), string_views(cfg.avd@), outcomes));
    }
}

/// Known AVD `config.ini` keys: key, recommended value, description.
pub open spec fn known_tweak_table() -> Seq<(Seq<char>, Seq<char>, Seq<char>)> {
    seq![
        ("showAVDManager"@, "no"@, "Hide the AVD Manager / extended controls panel on next boot."@),
        ("hw.keyboard"@, "yes"@, "Enable hardware keyboard passthrough (type from host)."@),
        ("hw.mainKeys"@, "no"@, "Hide hardware navigation buttons (use on-screen system nav)."@),
        ("hw.gpu.enabled"@, "yes"@, "Enable GPU acceleration for the emulator."@),
        ("hw.gpu.mode"@, "host"@, "GPU rendering mode: host | swiftshader_indirect | off."@),
        ("hw.audioInput"@, "no"@, "Disable microphone input from host (quieter, safer)."@),
        ("hw.audioOutput"@, "no"@, "Disable audio output from the emulator."@),
        ("hw.camera.back"@, "none"@, "Back camera: none | emulated | webcam0."@),
        ("hw.camera.front"@, "none"@, "Front camera: none | emulated | webcam0."@),
        ("hw.ramSize"@, "2048"@, "Guest RAM in MB. Raise for heavier apps; lower to save host RAM."@),
        ("vm.heapSize"@, "256"@, "Per-app VM heap size in MB."@),
        ("disk.dataPartition.size"@, "6G"@, "Userdata partition size. Accepts suffixes like M or G."@),
        ("hw.lcd.density"@, "420"@, "Display density (dpi). Must match the skin's resolution."@),
        ("skin.dynamic"@, "yes"@, "Allow the skin to resize with the window."@),
        ("runtime.network.speed"@, "full"@, "Simulated network speed: full | gsm | edge | umts | lte …"@),
        ("runtime.network.latency"@, "none"@, "Simulated network latency: none | gsm | edge | umts …"@),
        ("fastboot.forceColdBoot"@, "no"@, "Force a cold boot on every launch (slower, clean state)."@),
    ]
}

/// Known AVD `config.ini` keys: key, recommended value, description. Keys are
/// case-sensitive and emulator-version-dependent.
pub fn known_tweaks() -> (r: Vec<(&'static str, &'static str, &'static str)>)
    ensures
        r@.map_values(|t: (&str, &str, &str)| (t.0@, t.1@, t.2@)) == known_tweak_table(),
{
    let r = vec![
        ("showAVDManager", "no", "Hide the AVD Manager / extended controls panel on next boot."),
        ("hw.keyboard", "yes", "Enable hardware keyboard passthrough (type from host)."),
        ("hw.mainKeys", "no", "Hide hardware navigation buttons (use on-screen system nav)."),
        ("hw.gpu.enabled", "yes", "Enable GPU acceleration for the emulator."),
        ("hw.gpu.mode", "host", "GPU rendering mode: host | swiftshader_indirect | off."),
        ("hw.audioInput", "no", "Disable microphone input from host (quieter, safer)."),
        ("hw.audioOutput", "no", "Disable audio output from the emulator."),
        ("hw.camera.back", "none", "Back camera: none | emulated | webcam0."),
        ("hw.camera.front", "none", "Front camera: none | emulated | webcam0."),
        ("hw.ramSize", "2048", "Guest RAM in MB. Raise for heavier apps; lower to save host RAM."),
        ("vm.heapSize", "256", "Per-app VM heap size in MB."),
        ("disk.dataPartition.size", "6G", "Userdata partition size. Accepts suffixes like M or G."),
        ("hw.lcd.density", "420", "Display density (dpi). Must match the skin's resolution."),
        ("skin.dynamic", "yes", "Allow the skin to resize with the window."),
        ("runtime.network.speed", "full", "Simulated network speed: full | gsm | edge | umts | lte …"),
        ("runtime.network.latency", "none", "Simulated network latency: none | gsm | edge | umts …"),
        ("fastboot.forceColdBoot", "no", "Force a cold boot on every launch (slower, clean state)."),
    ];
    assert(r@.map_values(|t: (&str, &str, &str)| (t.0@, t.1@, t.2@)) =~= known_tweak_table());
    r
}

/// `s` followed by spaces up to `width` characters (`format!("{:<width$}")`).
pub fn pad_right(s: &str, width: usize) -> (r: String)
    ensures
        r@ == s@ + Seq::new(if s@.len() < width { (width - s@.len()) as nat } else { 0 }, |i: int| ' '),
{
    let mut v = chars_of(s);
    let ghost start = v@;
    while v.len() < width
        invariant
            start.len() <= v@.len(),
            v@.len() <= width || v@ == start,
            v@ == start + Seq::new((v@.len() - start.len()) as nat, |i: int| ' '),
        decreases width - v.len(),
    {
        let ghost before = v@;
        v.push(' ');
        assert(v@ =~= start + Seq::new((v@.len() - start.len()) as nat, |i: int| ' '));
    }
    assert(v@ =~= start + Seq::new(if start.len() < width { (width - start.len()) as nat } else { 0 }, |i: int| ' '));
    string_of(v.as_slice())
}

/// Prints the catalog of known tweaks, the default ones marked with a star.
pub fn run_list<R: Runner>(runner: &R) -> (code: i32)
    ensures
        code == 0,
{
    runner.report(Level::Info, "mdev emulator list");
    runner.report(Level::Info, "──────────────────────────────");
    runner.report(Level::Info, "Known AVD config.ini tweaks (apply with `mdev emulator config --set key=value`):");
    runner.report(Level::Info, "");
    let known = known_tweaks();
    let defaults = default_tweaks();
    let mut key_width: usize = 0;
    let mut val_width: usize = 0;
    let mut i: usize = 0;
    while i < known.len()
        decreases known.len() - i,
    {
        let (k, v, _) = known[i];
        let kl = chars_of(k).len();
        let vl = chars_of(v).len();
        if kl > key_width {
            key_width = kl;
        }
        if vl > val_width {
            val_width = vl;
        }
        i = i + 1;
    }
    let mut j: usize = 0;
    while j < known.len()
        decreases known.len() - j,
    {
        let (key, val, desc) = known[j];
        let mut is_default = false;
        let mut d: usize = 0;
        while d < defaults.len()
            decreases defaults.len() - d,
        {
            if crate::text::str_eq(defaults[d].0, key) {
                is_default = true;
            }
            d = d + 1;
        }
        let marker = if is_default { "★" } else { " " };
        let kp = pad_right(key, key_width);
        let vp = pad_right(val, val_width);
        runner.report(Level::Info, &cat(&["  ", marker, " ", kp.as_str(), "  ", vp.as_str(), "  ", desc]));
        j = j + 1;
    }
    runner.report(Level::Info, "");
    runner.report(Level::Info, "★ applied by default. Values shown are recommended — override with `--set`.");
    0
}

/// Runs `mdev emulator`.
pub fn run<R: Runner>(args: &EmulatorArgs, runner: &R) -> (code: i32)
    ensures
        args.command is List ==> code == 0,
        args.command matches EmulatorCommands::Config(cfg) ==> exists|root_found: bool, avds: Seq<AvdView>, outcomes: Seq<ApplyView>|
            code == #[trigger] run_config_exit(root_found, avds, string_views(cfg.set@), string_views(cfg.avd@), outcomes),
{
    match &args.command {
        EmulatorCommands::Config(cfg) => {
            let mut s = Session::new(runner);
            let code = run_config(cfg, &mut s);
            proof {
                lemma_config_code(since(Seq::<Call>::empty(), s.calls()), *cfg, code);
            }
            code
        },
        EmulatorCommands::List => run_list(runner),
    }
}

} // verus!
