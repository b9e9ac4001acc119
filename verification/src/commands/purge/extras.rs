//! The purge scan for platform-agnostic junk that tends to balloon in size:
//! JVM heap dumps and crash logs, core dumps, package-manager debug logs,
//! editor backups, Finder metadata and linter caches.
use vstd::prelude::*;
use crate::commands::purge::common::{confirm, heavy_or_owned_names, is_heavy_or_owned_dir, name_in};
use crate::commands::purge::PurgeArgs;
use crate::paths::join_path;
use crate::runner::{Level, Runner};
use crate::session::{extends, quiet, reads_only, since, Call, Session};
use crate::runner::DirEntry;
use crate::text::{
    all_digits, cat, chars_of, decimal_text, ends_with, ends_with_chars, is_ascii_digit, is_digit, starts_with,
    starts_with_chars, str_eq,
};

verus! {

/// How deep below a project root the scan looks.
pub const MAX_DEPTH: usize = 6;

/// File names that are junk as they stand.
pub open spec fn exact_extra_file_names() -> Seq<Seq<char>> {
    seq![".DS_Store"@, "Thumbs.db"@, ".eslintcache"@, ".stylelintcache"@, "core"@, "nohup.out"@]
}

/// `name` is `prefix`, one or more ASCII digits, then `suffix`.
pub open spec fn pid_pattern(name: Seq<char>, prefix: Seq<char>, suffix: Seq<char>) -> bool {
    &&& starts_with(name, prefix)
    &&& ends_with(name, suffix)
    &&& prefix.len() + suffix.len() < name.len()
    &&& all_digits(name.subrange(prefix.len() as int, name.len() - suffix.len()))
}

/// A Vim swap file: a hidden name ending in `.swp`, `.swo` or `.swn`.
pub open spec fn vim_swap(name: Seq<char>) -> bool {
    &&& name.len() > 0
    &&& name[0] == '.'
    &&& (ends_with(name, ".swp"@) || ends_with(name, ".swo"@) || ends_with(name, ".swn"@))
}

/// A file name the scan reports: exact names, `java_pid<N>.hprof`,
/// `hs_err_pid<N>.log`, `*.dmp`, `core.<N>`, package-manager debug logs,
/// editor backups ending in `~` (not `~` alone) and Vim swap files.
pub open spec fn extra_file(name: Seq<char>) -> bool {
    ||| exact_extra_file_names().contains(name)
    ||| pid_pattern(name, "java_pid"@, ".hprof"@)
    ||| pid_pattern(name, "hs_err_pid"@, ".log"@)
    ||| ends_with(name, ".dmp"@)
    ||| (starts_with(name, "core."@) && all_digits(name.skip("core."@.len() as int)) && name.len() > "core."@.len())
    ||| starts_with(name, "npm-debug.log"@)
    ||| starts_with(name, "yarn-debug.log"@)
    ||| starts_with(name, "yarn-error.log"@)
    ||| starts_with(name, "lerna-debug.log"@)
    ||| (name.len() > 1 && name.last() == '~')
    ||| vim_swap(name)
}

/// Each documented kind of junk file is reported: Finder and Explorer
/// metadata, linter caches, core dumps and `nohup.out` by name; JVM heap
/// dumps and crash logs with their pid; `*.dmp` dumps; numbered core files;
/// npm, Yarn and Lerna debug logs (with any suffix, such as a pid); editor
/// backups ending in `~`; and Vim swap files.
pub proof fn lemma_extra_file_kinds(name: Seq<char>)
    ensures
        (name == ".DS_Store"@ || name == "Thumbs.db"@ || name == ".eslintcache"@ || name == ".stylelintcache"@
            || name == "core"@ || name == "nohup.out"@) ==> extra_file(name),
        pid_pattern(name, "java_pid"@, ".hprof"@) ==> extra_file(name),
        pid_pattern(name, "hs_err_pid"@, ".log"@) ==> extra_file(name),
        ends_with(name, ".dmp"@) ==> extra_file(name),
        (name.len() > 5 && starts_with(name, "core."@) && all_digits(name.skip(5))) ==> extra_file(name),
        starts_with(name, "npm-debug.log"@) ==> extra_file(name),
        starts_with(name, "yarn-debug.log"@) ==> extra_file(name),
        starts_with(name, "yarn-error.log"@) ==> extra_file(name),
        starts_with(name, "lerna-debug.log"@) ==> extra_file(name),
        (name.len() > 1 && name.last() == '~') ==> extra_file(name),
        (name.len() > 0 && name[0] == '.' && (ends_with(name, ".swp"@) || ends_with(name, ".swo"@)
            || ends_with(name, ".swn"@))) ==> extra_file(name),
{
    let s = exact_extra_file_names();
    assert(s[0] == ".DS_Store"@ && s[1] == "Thumbs.db"@ && s[2] == ".eslintcache"@);
    assert(s[3] == ".stylelintcache"@ && s[4] == "core"@ && s[5] == "nohup.out"@);
    reveal_strlit("core.");
}

/// Only `.nyc_output` is reported as a whole directory.
pub proof fn lemma_extra_dir_is_nyc_output(name: Seq<char>)
    ensures
        extra_dir(name) <==> name == ".nyc_output"@,
{
}

/// The scan leaves alone the trees that an ecosystem cleaner owns: framework
/// and bundler caches, Python tool caches, Bundler's directory, coverage
/// reports and Django's collected static files.
pub proof fn lemma_extras_skip_owned_trees(name: Seq<char>)
    requires
        name == ".next"@ || name == ".nuxt"@ || name == ".turbo"@ || name == ".vite"@ || name == ".parcel-cache"@
            || name == "env"@ || name == ".tox"@ || name == ".pytest_cache"@ || name == ".mypy_cache"@
            || name == ".ruff_cache"@ || name == ".bundle"@ || name == ".svelte-kit"@ || name == ".astro"@
            || name == "coverage"@ || name == "htmlcov"@ || name == "staticfiles"@,
    ensures
        extras_skip_names().contains(name),
{
    let s = extras_skip_names();
    assert(s[0] == ".next"@ && s[1] == ".nuxt"@ && s[2] == ".turbo"@ && s[3] == ".vite"@);
    assert(s[4] == ".parcel-cache"@ && s[5] == "env"@ && s[6] == ".tox"@ && s[7] == ".pytest_cache"@);
    assert(s[8] == ".mypy_cache"@ && s[9] == ".ruff_cache"@ && s[10] == ".bundle"@ && s[11] == ".svelte-kit"@);
    assert(s[12] == ".astro"@ && s[13] == "coverage"@ && s[14] == "htmlcov"@ && s[15] == "staticfiles"@);
}

/// A directory name the scan reports as a whole.
pub open spec fn extra_dir(name: Seq<char>) -> bool {
    name == ".nyc_output"@
}

/// Directory names the scan does not enter beyond the shared skip set: trees
/// that an ecosystem cleaner owns.
pub open spec fn extras_skip_names() -> Seq<Seq<char>> {
    seq![
        ".next"@, ".nuxt"@, ".turbo"@, ".vite"@, ".parcel-cache"@, "env"@, ".tox"@, ".pytest_cache"@,
        ".mypy_cache"@, ".ruff_cache"@, ".bundle"@, ".svelte-kit"@, ".astro"@, "coverage"@, "htmlcov"@,
        "staticfiles"@,
    ]
}

/// Every character of `v[from..to]` is an ASCII digit.
fn digits_between(v: &[char], from: usize, to: usize) -> (b: bool)
    requires
        from <= to <= v@.len(),
    ensures
        b == all_digits(v@.subrange(from as int, to as int)),
{
    let mut i = from;
    while i < to
        invariant
            from <= i <= to <= v@.len(),
            forall|k: int| from <= k < i ==> is_digit(#[trigger] v@[k]),
        decreases to - i,
    {
        if !is_ascii_digit(v[i]) {
            assert(v@.subrange(from as int, to as int)[i - from] == v@[i as int]);
            return false;
        }
        i = i + 1;
    }
    assert forall|k: int| 0 <= k < to - from implies is_digit(#[trigger] v@.subrange(from as int, to as int)[k]) by {
        assert(v@.subrange(from as int, to as int)[k] == v@[from + k]);
    }
    true
}

/// `name` is `prefix`, one or more ASCII digits, then `suffix`.
pub fn matches_pid_pattern(name: &str, prefix: &str, suffix: &str) -> (b: bool)
    ensures
        b == pid_pattern(name@, prefix@, suffix@),
{
    let v = chars_of(name);
    let p = chars_of(prefix);
    let s = chars_of(suffix);
    if !starts_with_chars(v.as_slice(), p.as_slice()) || !ends_with_chars(v.as_slice(), s.as_slice()) {
        return false;
    }
    if v.len() - s.len() <= p.len() {
        return false;
    }
    digits_between(v.as_slice(), p.len(), v.len() - s.len())
}

/// Whether `name` is a junk file name; see `extra_file`.
pub fn is_extra_file(name: &str) -> (b: bool)
    ensures
        b == extra_file(name@),
{
    let exact = [".DS_Store", "Thumbs.db", ".eslintcache", ".stylelintcache", "core", "nohup.out"];
    assert(exact@.map_values(|s: &str| s@) =~= exact_extra_file_names());
    if name_in(&exact, name) {
        return true;
    }
    if matches_pid_pattern(name, "java_pid", ".hprof") || matches_pid_pattern(name, "hs_err_pid", ".log") {
        return true;
    }
    let v = chars_of(name);
    if ends_with_chars(v.as_slice(), chars_of(".dmp").as_slice()) {
        return true;
    }
    let core = chars_of("core.");
    if starts_with_chars(v.as_slice(), core.as_slice()) && v.len() > core.len() {
        let digits = digits_between(v.as_slice(), core.len(), v.len());
        assert(v@.subrange(core@.len() as int, v@.len() as int) =~= v@.skip(core@.len() as int));
        if digits {
            return true;
        }
    }
    if starts_with_chars(v.as_slice(), chars_of("npm-debug.log").as_slice())
        || starts_with_chars(v.as_slice(), chars_of("yarn-debug.log").as_slice())
        || starts_with_chars(v.as_slice(), chars_of("yarn-error.log").as_slice())
        || starts_with_chars(v.as_slice(), chars_of("lerna-debug.log").as_slice())
    {
        return true;
    }
    if v.len() > 1 && v[v.len() - 1] == '~' {
        return true;
    }
    v.len() > 0 && v[0] == '.' && (ends_with_chars(v.as_slice(), chars_of(".swp").as_slice())
        || ends_with_chars(v.as_slice(), chars_of(".swo").as_slice())
        || ends_with_chars(v.as_slice(), chars_of(".swn").as_slice()))
}

/// Whether `name` is a junk directory name; see `extra_dir`.
pub fn is_extra_dir(name: &str) -> (b: bool)
    ensures
        b == extra_dir(name@),
{
    str_eq(name, ".nyc_output")
}

/// Directories that other cleaners own: the walk skips them so that it does
/// not count paths that an ecosystem cleaner is about to remove.
pub fn is_skip_dir(name: &str) -> (b: bool)
    ensures
        b == (heavy_or_owned_names().contains(name@) || extras_skip_names().contains(name@)),
{
    let more = [
        ".next", ".nuxt", ".turbo", ".vite", ".parcel-cache", "env", ".tox", ".pytest_cache", ".mypy_cache",
        ".ruff_cache", ".bundle", ".svelte-kit", ".astro", "coverage", "htmlcov", "staticfiles",
    ];
    assert(more@.map_values(|s: &str| s@) =~= extras_skip_names());
    is_heavy_or_owned_dir(name) || name_in(&more, name)
}

/// A junk file or directory found by the scan.
#[derive(Debug)]
pub struct Extra {
    pub path: String,
    /// The last component of `path`.
    pub name: String,
    /// Bytes: the file's length, or the total of a directory's files.
    pub size: u64,
    pub is_dir: bool,
}

impl View for Extra {
    type V = (Seq<char>, Seq<char>, u64, bool);

    open spec fn view(&self) -> (Seq<char>, Seq<char>, u64, bool) {
        (self.path@, self.name@, self.size, self.is_dir)
    }
}

/// What the scan reports: a junk directory or a junk file, by name.
pub open spec fn extra_entry(e: (Seq<char>, Seq<char>, u64, bool)) -> bool {
    if e.3 {
        extra_dir(e.1)
    } else {
        extra_file(e.1)
    }
}

/// Sizes in non-increasing order.
pub open spec fn by_size_desc(v: Seq<(Seq<char>, Seq<char>, u64, bool)>) -> bool {
    forall|i: int, j: int| 0 <= i < j < v.len() ==> #[trigger] v[i].2 >= #[trigger] v[j].2
}

/// The views of the items of `v`.
pub open spec fn extra_views(v: Seq<Extra>) -> Seq<(Seq<char>, Seq<char>, u64, bool)> {
    v.map_values(|e: Extra| e@)
}

/// The total bytes under directory `p`, adding up with saturation; entries
/// that cannot be listed count nothing.
fn dir_size<R: Runner>(runner: &mut Session<R>, p: &str) -> (r: u64)
    ensures
        reads_only(old(runner).calls(), final(runner).calls()),
{
    let mut total: u64 = 0;
    let mut stack: Vec<String> = Vec::new();
    stack.push(p.to_owned());
    let mut budget: usize = 0;
    while stack.len() > 0
        invariant
            reads_only(old(runner).calls(), runner.calls()),
        decreases usize::MAX - budget,
    {
        if budget == usize::MAX {
            break;
        }
        budget = budget + 1;
        let d = stack.pop().unwrap();
        if let Some(entries) = runner.dir_entries(d.as_str()) {
            let mut i: usize = 0;
            while i < entries.len()
                invariant
                    reads_only(old(runner).calls(), runner.calls()),
                decreases entries.len() - i,
            {
                let e = &entries[i];
                if e.is_dir && !e.is_symlink {
                    stack.push(join_path(d.as_str(), e.name.as_str()));
                } else {
                    total = total.saturating_add(e.len);
                }
                i = i + 1;
            }
        }
    }
    total
}

/// A view of one scanned item: path, name, size, whether a directory.
pub type ExtraView = (Seq<char>, Seq<char>, u64, bool);

/// What scanning `dir`, `depth` levels below the scan root, asks (`t`) and
/// reports (`out`): deeper than `MAX_DEPTH` nothing; otherwise the entries of
/// `dir`, then each entry in turn as `entry_walk` says, one group of requests
/// and of reported items each.
pub open spec fn walk_trace(dir: Seq<char>, depth: int, t: Seq<Call>, out: Seq<ExtraView>) -> bool
    decreases MAX_DEPTH + 1 - depth, 1int,
{
    if depth > MAX_DEPTH || depth < 0 {
        t.len() == 0 && out.len() == 0
    } else if t.len() == 0 {
        false
    } else {
        match t[0] {
            Call::DirEntries { path, reply } => path == dir && match reply {
                None => t.len() == 1 && out.len() == 0,
                Some(es) => exists|chunks: Seq<Seq<Call>>, outs: Seq<Seq<ExtraView>>|
                    #![trigger chunks.flatten(), outs.flatten()]
                    chunks.len() == es.len() && outs.len() == es.len()
                    && t.skip(1) == chunks.flatten() && out == outs.flatten()
                    && forall|k: int| 0 <= k < es.len() ==> entry_walk(dir, depth, es[k], #[trigger] chunks[k], outs[k]),
            },
            _ => false,
        }
    }
}

/// One entry `e` of `dir` scanned (`t`, reporting `out`): a junk directory
/// (not a symlink) is reported whole, its size counted by further requests;
/// another directory that no cleaner owns (nor a symlink) is scanned one level
/// down; a junk file is reported with its length; anything else is passed
/// over.
pub open spec fn entry_walk(dir: Seq<char>, depth: int, e: DirEntry, t: Seq<Call>, out: Seq<ExtraView>) -> bool
    decreases MAX_DEPTH + 1 - depth, 0int,
{
    let name = e.name@;
    let path = crate::paths::path_join(dir, name);
    if depth > MAX_DEPTH || depth < 0 {
        false
    } else if e.is_dir && !e.is_symlink {
        if extra_dir(name) {
            out.len() == 1 && out[0].0 == path && out[0].1 == name && out[0].3
        } else if !(heavy_or_owned_names().contains(name) || extras_skip_names().contains(name)) {
            walk_trace(path, depth + 1, t, out)
        } else {
            t.len() == 0 && out.len() == 0
        }
    } else if e.is_file && extra_file(name) {
        t.len() == 0 && out == seq![(path, name, e.len, false)]
    } else {
        t.len() == 0 && out.len() == 0
    }
}

/// `dir` joined with each of `names` in turn.
pub open spec fn joined_below(dir: Seq<char>, names: Seq<Seq<char>>) -> Seq<char>
    decreases names.len(),
{
    if names.len() == 0 {
        dir
    } else {
        joined_below(crate::paths::path_join(dir, names[0]), names.drop_first())
    }
}

/// A directory name the scan goes into: neither junk itself nor owned by
/// another cleaner nor skipped.
pub open spec fn entered_name(n: Seq<char>) -> bool {
    !extra_dir(n) && !(heavy_or_owned_names().contains(n) || extras_skip_names().contains(n))
}

/// The scan never goes into a tree another cleaner owns (dependency trees,
/// VCS data, build outputs, virtualenvs), into one the ecosystem cleaners
/// handle, nor into `.nyc_output`, which it reports whole; it goes into every
/// other directory.
pub proof fn lemma_entered_names(n: Seq<char>)
    ensures
        heavy_or_owned_names().contains(n) ==> !entered_name(n),
        extras_skip_names().contains(n) ==> !entered_name(n),
        n == ".nyc_output"@ ==> !entered_name(n),
        n != ".nyc_output"@ && !heavy_or_owned_names().contains(n) && !extras_skip_names().contains(n) ==> entered_name(n),
{
}

/// `e` is reported below `dir`: its path is `dir` joined with names of which
/// all but the last are directories the scan goes into, and the last is its
/// name; a directory is junk by name, a file too.
pub open spec fn reported_below(dir: Seq<char>, e: ExtraView) -> bool {
    exists|names: Seq<Seq<char>>|
        names.len() >= 1 && e.0 == #[trigger] joined_below(dir, names) && e.1 == names.last()
            && (forall|j: int| 0 <= j < names.len() - 1 ==> entered_name(#[trigger] names[j]))
            && (e.3 ==> extra_dir(e.1)) && (!e.3 ==> extra_file(e.1))
}

/// What holds of every item of each part holds of every item of the whole.
proof fn lemma_flatten_all(xs: Seq<Seq<ExtraView>>, dir: Seq<char>)
    requires
        forall|k: int, j: int| 0 <= k < xs.len() && 0 <= j < xs[k].len() ==> reported_below(dir, #[trigger] xs[k][j]),
    ensures
        forall|i: int| 0 <= i < xs.flatten().len() ==> reported_below(dir, #[trigger] xs.flatten()[i]),
    decreases xs.len(),
{
    if xs.len() > 0 {
        let rest = xs.drop_first();
        assert forall|k: int, j: int| 0 <= k < rest.len() && 0 <= j < rest[k].len() implies reported_below(dir, #[trigger] rest[k][j]) by {
            assert(rest[k] == xs[k + 1]);
        }
        lemma_flatten_all(rest, dir);
        let f = xs.flatten();
        assert(f == xs.first() + rest.flatten());
        assert forall|i: int| 0 <= i < f.len() implies reported_below(dir, #[trigger] f[i]) by {
            if i < xs.first().len() {
                assert(f[i] == xs[0][i]);
            } else {
                assert(f[i] == rest.flatten()[i - xs.first().len()]);
            }
        }
    }
}

/// Everything a scan of `dir` reports lies below it as `reported_below` says.
pub proof fn lemma_walk_reports(dir: Seq<char>, depth: int, t: Seq<Call>, out: Seq<ExtraView>)
    requires
        walk_trace(dir, depth, t, out),
    ensures
        forall|i: int| 0 <= i < out.len() ==> reported_below(dir, #[trigger] out[i]),
    decreases MAX_DEPTH + 1 - depth, 1int,
{
    if !(depth > MAX_DEPTH || depth < 0) && t.len() > 0 {
        match t[0] {
            Call::DirEntries { path, reply } => match reply {
                None => {},
                Some(es) => {
                    let (chunks, outs) = choose|chunks: Seq<Seq<Call>>, outs: Seq<Seq<ExtraView>>|
                        #![trigger chunks.flatten(), outs.flatten()]
                        chunks.len() == es.len() && outs.len() == es.len()
                        && t.skip(1) == chunks.flatten() && out == outs.flatten()
                        && forall|k: int| 0 <= k < es.len() ==> entry_walk(dir, depth, es[k], #[trigger] chunks[k], outs[k]);
                    assert forall|k: int, j: int| 0 <= k < outs.len() && 0 <= j < outs[k].len() implies reported_below(dir, #[trigger] outs[k][j]) by {
                        assert(entry_walk(dir, depth, es[k], chunks[k], outs[k]));
                        lemma_entry_reports(dir, depth, es[k], chunks[k], outs[k]);
                    }
                    lemma_flatten_all(outs, dir);
                },
            },
            _ => {},
        }
    }
}

/// Everything the scan of one entry `e` of `dir` reports lies below `dir`.
proof fn lemma_entry_reports(dir: Seq<char>, depth: int, e: DirEntry, t: Seq<Call>, out: Seq<ExtraView>)
    requires
        entry_walk(dir, depth, e, t, out),
    ensures
        forall|i: int| 0 <= i < out.len() ==> reported_below(dir, #[trigger] out[i]),
    decreases MAX_DEPTH + 1 - depth, 0int,
{
    let name = e.name@;
    let path = crate::paths::path_join(dir, name);
    let one = seq![name];
    assert(one.drop_first() =~= Seq::<Seq<char>>::empty());
    assert(one[0] == name);
    assert(joined_below(path, one.drop_first()) == path);
    assert(joined_below(dir, one) == path);
    if e.is_dir && !e.is_symlink {
        if extra_dir(name) {
            assert(reported_below(dir, out[0]));
        } else if !(heavy_or_owned_names().contains(name) || extras_skip_names().contains(name)) {
            lemma_walk_reports(path, depth + 1, t, out);
            assert forall|i: int| 0 <= i < out.len() implies reported_below(dir, #[trigger] out[i]) by {
                let x = out[i];
                assert(reported_below(path, x));
                let names = choose|names: Seq<Seq<char>>|
                    names.len() >= 1 && x.0 == #[trigger] joined_below(path, names) && x.1 == names.last()
                        && (forall|j: int| 0 <= j < names.len() - 1 ==> entered_name(#[trigger] names[j]))
                        && (x.3 ==> extra_dir(x.1)) && (!x.3 ==> extra_file(x.1));
                let more = seq![name] + names;
                assert(more.drop_first() =~= names);
                assert(more[0] == name);
                assert(joined_below(dir, more) == joined_below(path, names));
                assert(more.last() == names.last());
                assert forall|j: int| 0 <= j < more.len() - 1 implies entered_name(#[trigger] more[j]) by {
                    if j > 0 {
                        assert(more[j] == names[j - 1]);
                    }
                }
            }
        }
    } else if e.is_file && extra_file(name) {
        assert(reported_below(dir, out[0]));
    }
}

/// Collects the junk under `dir`, which is `depth` levels below the scan root.
fn walk<R: Runner>(runner: &mut Session<R>, dir: &str, depth: usize, out: &mut Vec<Extra>)
    requires
        depth <= MAX_DEPTH + 1,
        forall|i: int| 0 <= i < old(out)@.len() ==> extra_entry(#[trigger] old(out)@[i]@),
    ensures
        reads_only(old(runner).calls(), final(runner).calls()),
        forall|i: int| 0 <= i < final(out)@.len() ==> extra_entry(#[trigger] final(out)@[i]@),
        final(out)@.len() >= old(out)@.len(),
        extra_views(final(out)@).take(old(out)@.len() as int) == extra_views(old(out)@),
        walk_trace(dir@, depth as int, since(old(runner).calls(), final(runner).calls()), extra_views(final(out)@).skip(old(out)@.len() as int)),
    decreases MAX_DEPTH + 1 - depth,
{
    let ghost start = runner.calls();
    let ghost o0 = extra_views(out@);
    if depth > MAX_DEPTH {
        assert(extra_views(out@).skip(o0.len() as int) =~= Seq::<ExtraView>::empty());
        assert(extra_views(out@).take(o0.len() as int) =~= o0);
        return;
    }
    let listed = runner.dir_entries(dir);
    let ghost after_list = runner.calls();
    let entries = match listed {
        Some(e) => e,
        None => {
            assert(extra_views(out@).skip(o0.len() as int) =~= Seq::<ExtraView>::empty());
            assert(extra_views(out@).take(o0.len() as int) =~= o0);
            assert(since(start, runner.calls())[0] == runner.calls().last());
            return;
        },
    };
    let ghost es = entries@;
    assert(since(start, after_list)[0] == after_list.last());
    let ghost mut chunks: Seq<Seq<Call>> = Seq::empty();
    let ghost mut outs: Seq<Seq<ExtraView>> = Seq::empty();
    proof {
        assert(since(after_list, runner.calls()) =~= chunks.flatten());
        assert(extra_views(out@).skip(o0.len() as int) =~= outs.flatten());
    }
    let mut i: usize = 0;
    while i < entries.len()
        invariant
            reads_only(old(runner).calls(), runner.calls()),
            depth <= MAX_DEPTH,
            forall|k: int| 0 <= k < out@.len() ==> extra_entry(#[trigger] out@[k]@),
            start == old(runner).calls(),
            o0 == extra_views(old(out)@),
            extends(start, after_list),
            extends(after_list, runner.calls()),
            since(start, after_list).len() == 1,
            since(start, after_list)[0] == (Call::DirEntries { path: dir@, reply: Some(es) }),
            es == entries@,
            i <= es.len(),
            out@.len() >= o0.len(),
            extra_views(out@).take(o0.len() as int) == o0,
            chunks.len() == i,
            outs.len() == i,
            since(after_list, runner.calls()) == chunks.flatten(),
            extra_views(out@).skip(o0.len() as int) == outs.flatten(),
            forall|k: int| 0 <= k < i ==> entry_walk(dir@, depth as int, es[k], #[trigger] chunks[k], outs[k]),
        decreases entries.len() - i,
    {
        let ghost before = runner.calls();
        let ghost ob = extra_views(out@);
        let e = &entries[i];
        let name = e.name.as_str();
        let path = join_path(dir, name);
        let ghost pv = path@;
        if e.is_dir && !e.is_symlink {
            if is_extra_dir(name) {
                let size = dir_size(runner, path.as_str());
                let owned = name.to_owned();
                assert(owned@ == name@);
                out.push(Extra { path, name: owned, size, is_dir: true });
                proof {
                    assert(extra_views(out@).skip(ob.len() as int) =~= seq![(pv, name@, size, true)]);
                }
            } else if !is_skip_dir(name) {
                walk(runner, path.as_str(), depth + 1, out);
            } else {
                assert(since(before, runner.calls()) =~= Seq::<Call>::empty());
                assert(extra_views(out@).skip(ob.len() as int) =~= Seq::<ExtraView>::empty());
            }
        } else if e.is_file && is_extra_file(name) {
            let owned = name.to_owned();
            assert(owned@ == name@);
            out.push(Extra { path, name: owned, size: e.len, is_dir: false });
            proof {
                assert(since(before, runner.calls()) =~= Seq::<Call>::empty());
                assert(extra_views(out@).skip(ob.len() as int) =~= seq![(pv, name@, e.len, false)]);
            }
        } else {
            assert(since(before, runner.calls()) =~= Seq::<Call>::empty());
            assert(extra_views(out@).skip(ob.len() as int) =~= Seq::<ExtraView>::empty());
        }
        proof {
            let c = since(before, runner.calls());
            let o = extra_views(out@).skip(ob.len() as int);
            crate::session::lemma_since_prefix(after_list, before, runner.calls());
            assert(extra_views(out@).take(ob.len() as int) =~= ob) by {
                assert forall|q: int| 0 <= q < ob.len() implies extra_views(out@)[q] == ob[q] by {}
            }
            assert(extra_views(out@).take(o0.len() as int) =~= o0);
            assert(es[i as int] == *e);
            assert(entry_walk(dir@, depth as int, es[i as int], c, o)) by {
                assert(o.len() > 0 ==> o[0] == extra_views(out@)[ob.len() as int]);
            }
            chunks.lemma_flatten_push(c);
            outs.lemma_flatten_push(o);
            assert(since(after_list, runner.calls()) =~= since(after_list, before) + c);
            assert(extra_views(out@).skip(o0.len() as int) =~= ob.skip(o0.len() as int) + o);
            chunks = chunks.push(c);
            outs = outs.push(o);
        }
        i = i + 1;
    }
    proof {
        crate::session::lemma_since_prefix(start, after_list, runner.calls());
        let t = since(start, runner.calls());
        assert(t[0] == since(start, after_list)[0]);
        assert(t.skip(1) =~= since(after_list, runner.calls()));
        assert(forall|k: int| 0 <= k < es.len() ==> entry_walk(dir@, depth as int, es[k], #[trigger] chunks[k], outs[k]));
    }
}

/// Inserts `e` before the first item that is not larger.
fn insert_by_size(v: &mut Vec<Extra>, e: Extra)
    requires
        by_size_desc(extra_views(old(v)@)),
    ensures
        by_size_desc(extra_views(final(v)@)),
        extra_views(final(v)@).to_multiset() == extra_views(old(v)@).to_multiset().insert(e@),
{
    let ghost before = extra_views(v@);
    let ghost ev = e@;
    let mut k: usize = 0;
    while k < v.len() && v[k].size > e.size
        invariant
            k <= v@.len(),
            before == extra_views(v@),
            by_size_desc(before),
            forall|i: int| 0 <= i < k ==> #[trigger] before[i].2 > ev.2,
            ev == e@,
        decreases v.len() - k,
    {
        assert(before[k as int] == v@[k as int]@);
        k = k + 1;
    }
    proof {
        if k < before.len() {
            assert(before[k as int] == v@[k as int]@);
        }
    }
    v.insert(k, e);
    proof {
        let after = extra_views(v@);
        assert(after =~= before.insert(k as int, ev));
        vstd::seq_lib::to_multiset_insert(before, k as int, ev);
        assert forall|i: int, j: int| 0 <= i < j < after.len() implies #[trigger] after[i].2 >= #[trigger] after[j].2 by {
            if i < k && j < k {
                assert(after[i] == before[i] && after[j] == before[j]);
            } else if i < k && j == k {
                assert(after[i] == before[i]);
            } else if i < k && j > k {
                assert(after[i] == before[i] && after[j] == before[j - 1]);
            } else if i == k {
                assert(after[j] == before[j - 1]);
                if k < before.len() {
                    assert(before[k as int].2 <= ev.2);
                }
            } else {
                assert(after[i] == before[i - 1] && after[j] == before[j - 1]);
            }
        }
    }
}

/// `found` ordered by size, largest first; items of one size keep their order.
pub fn sort_by_size_desc(found: Vec<Extra>) -> (r: Vec<Extra>)
    ensures
        by_size_desc(extra_views(r@)),
        extra_views(r@).to_multiset() == extra_views(found@).to_multiset(),
{
    let ghost all = extra_views(found@);
    let mut rest = found;
    let mut out: Vec<Extra> = Vec::new();
    proof {
        broadcast use vstd::seq_lib::group_to_multiset_ensures;
        broadcast use vstd::multiset::group_multiset_axioms;
        assert(extra_views(out@) =~= Seq::<(Seq<char>, Seq<char>, u64, bool)>::empty());
        assert(extra_views(out@).to_multiset() =~= vstd::multiset::Multiset::empty());
        assert(extra_views(out@).to_multiset().add(extra_views(rest@).to_multiset()) =~= all.to_multiset());
    }
    while rest.len() > 0
        invariant
            by_size_desc(extra_views(out@)),
            extra_views(out@).to_multiset().add(extra_views(rest@).to_multiset()) == all.to_multiset(),
        decreases rest.len(),
    {
        let ghost rv = extra_views(rest@);
        let e = rest.pop().unwrap();
        proof {
            assert(extra_views(rest@) =~= rv.drop_last());
            assert(rv.drop_last().push(rv.last()) =~= rv);
            vstd::seq_lib::to_multiset_build(rv.drop_last(), rv.last());
        }
        insert_by_size(&mut out, e);
    }
    proof {
        assert(extra_views(rest@) =~= Seq::<(Seq<char>, Seq<char>, u64, bool)>::empty());
        broadcast use vstd::seq_lib::group_to_multiset_ensures;
    }
    out
}

/// The junk under `root`, at most `MAX_DEPTH` levels down, largest first.
/// Junk directories are reported whole and not entered; directories that
/// other cleaners own are not entered either.
pub fn find_extras<R: Runner>(runner: &mut Session<R>, root: &str) -> (r: Vec<Extra>)
    ensures
        reads_only(old(runner).calls(), final(runner).calls()),
        by_size_desc(extra_views(r@)),
        forall|i: int| 0 <= i < r@.len() ==> extra_entry(#[trigger] r@[i]@),
        exists|scanned: Seq<ExtraView>|
            #[trigger] walk_trace(root@, 0, since(old(runner).calls(), final(runner).calls()), scanned)
            && extra_views(r@).to_multiset() == scanned.to_multiset(),
        forall|i: int| 0 <= i < r@.len() ==> reported_below(root@, #[trigger] r@[i]@),
{
    let mut found: Vec<Extra> = Vec::new();
    walk(runner, root, 0, &mut found);
    let ghost fv = extra_views(found@);
    assert(fv.skip(0) =~= fv);
    assert forall|x| fv.to_multiset().count(x) > 0 implies extra_entry(x) by {
        broadcast use vstd::seq_lib::group_to_multiset_ensures;
        let k = choose|k: int| 0 <= k < fv.len() && fv[k] == x;
        assert(fv[k] == found@[k]@);
    }
    let r = sort_by_size_desc(found);
    assert forall|i: int| 0 <= i < r@.len() implies extra_entry(#[trigger] r@[i]@) by {
        let rv = extra_views(r@);
        assert(rv[i] == r@[i]@);
        broadcast use vstd::seq_lib::group_to_multiset_ensures;
        assert(rv.contains(rv[i]));
        assert(rv.to_multiset().count(rv[i]) > 0);
    }
    proof {
        lemma_walk_reports(root@, 0, since(old(runner).calls(), runner.calls()), fv);
        assert forall|i: int| 0 <= i < r@.len() implies reported_below(root@, #[trigger] r@[i]@) by {
            let rv = extra_views(r@);
            assert(rv[i] == r@[i]@);
            broadcast use vstd::seq_lib::group_to_multiset_ensures;
            assert(rv.contains(rv[i]));
            assert(fv.to_multiset().count(rv[i]) > 0);
            let k = choose|k: int| 0 <= k < fv.len() && fv[k] == rv[i];
            assert(reported_below(root@, fv[k]));
        }
    }
    r
}

/// The total size of `items`, saturating at `u64::MAX`.
pub open spec fn sizes_total(v: Seq<(Seq<char>, Seq<char>, u64, bool)>) -> nat
    decreases v.len(),
{
    if v.len() == 0 {
        0
    } else {
        sizes_total(v.drop_last()) + v.last().2 as nat
    }
}

/// The total size of `items`, saturating at `u64::MAX`.
pub fn total_size(items: &[Extra]) -> (t: u64)
    ensures
        t as nat == if sizes_total(items@.map_values(|e: Extra| e@)) <= u64::MAX {
            sizes_total(items@.map_values(|e: Extra| e@))
        } else {
            u64::MAX as nat
        },
{
    let ghost v = items@.map_values(|e: Extra| e@);
    let mut t: u64 = 0;
    let mut i: usize = 0;
    while i < items.len()
        invariant
            i <= items@.len(),
            v == items@.map_values(|e: Extra| e@),
            t as nat == if sizes_total(v.take(i as int)) <= u64::MAX {
                sizes_total(v.take(i as int))
            } else {
                u64::MAX as nat
            },
        decreases items.len() - i,
    {
        assert(v.take(i + 1).drop_last() =~= v.take(i as int));
        assert(v.take(i + 1).last() == items@[i as int]@);
        t = t.saturating_add(items[i].size);
        i = i + 1;
    }
    assert(v.take(items@.len() as int) =~= v);
    t
}

/// The item that is deleted without asking: `.DS_Store`, pure Finder metadata.
pub open spec fn noconfirm_entry(e: (Seq<char>, Seq<char>, u64, bool)) -> bool {
    e.1 == ".DS_Store"@
}

/// Whether `e` is deleted without asking; see `noconfirm_entry`.
pub fn is_noconfirm(e: &Extra) -> (b: bool)
    ensures
        b == noconfirm_entry(e@),
{
    str_eq(e.name.as_str(), ".DS_Store")
}

/// Removes one scanned item: a tree or a file.
fn delete_one<R: Runner>(runner: &mut Session<R>, e: &Extra) -> (r: Result<(), crate::runner::IoError>)
    ensures
        extends(old(runner).calls(), final(runner).calls()),
{
    if e.is_dir {
        runner.remove_dir_all(e.path.as_str())
    } else {
        runner.remove_file(e.path.as_str())
    }
}

/// How many of `items` are (`noconfirm`) or are not deleted without asking.
pub open spec fn group_size(items: Seq<Extra>, noconfirm: bool) -> nat
    decreases items.len(),
{
    if items.len() == 0 {
        0
    } else {
        group_size(items.drop_last(), noconfirm) + if noconfirm_entry(items.last()@) == noconfirm { 1nat } else { 0nat }
    }
}

/// Deletes the items of `items` that are (`noconfirm`) or are not deleted
/// without asking, reporting each failure; returns how many were deleted and
/// how many failed.
fn delete_group<R: Runner>(runner: &mut Session<R>, items: &[Extra], noconfirm: bool) -> (r: (usize, usize))
    ensures
        extends(old(runner).calls(), final(runner).calls()),
        r.0 + r.1 <= items@.len(),
        r.0 + r.1 == group_size(items@, noconfirm),
{
    let mut ok: usize = 0;
    let mut err: usize = 0;
    let mut i: usize = 0;
    while i < items.len()
        invariant
            extends(old(runner).calls(), runner.calls()),
            i <= items@.len(),
            ok + err <= i,
            ok + err == group_size(items@.take(i as int), noconfirm),
        decreases items.len() - i,
    {
        assert(items@.take(i + 1).drop_last() =~= items@.take(i as int));
        if is_noconfirm(&items[i]) == noconfirm {
            match delete_one(runner, &items[i]) {
                Ok(()) => ok = ok + 1,
                Err(e) => {
                    err = err + 1;
                    runner.report(
                        Level::Error,
                        cat(&["[extras] failed to delete ", items[i].path.as_str(), ": ", e.message.as_str()]).as_str(),
                    );
                },
            }
        }
        i = i + 1;
    }
    assert(items@.take(i as int) =~= items@);
    (ok, err)
}

/// The items of `items` that need a confirmation, in order.
pub fn prompted_items(items: &[Extra]) -> (r: Vec<usize>)
    ensures
        forall|k: int| 0 <= k < r@.len() ==> #[trigger] r@[k] < items@.len() && !noconfirm_entry(items@[r@[k] as int]@),
        forall|k: int, l: int| 0 <= k < l < r@.len() ==> r@[k] < r@[l],
        forall|j: int| 0 <= j < items@.len() && !noconfirm_entry(#[trigger] items@[j]@) ==> r@.contains(j as usize),
{
    let mut r: Vec<usize> = Vec::new();
    let mut i: usize = 0;
    while i < items.len()
        invariant
            i <= items@.len(),
            forall|k: int| 0 <= k < r@.len() ==> #[trigger] r@[k] < i && !noconfirm_entry(items@[r@[k] as int]@),
            forall|k: int, l: int| 0 <= k < l < r@.len() ==> r@[k] < r@[l],
            forall|j: int| 0 <= j < i && !noconfirm_entry(#[trigger] items@[j]@) ==> r@.contains(j as usize),
        decreases items.len() - i,
    {
        if !is_noconfirm(&items[i]) {
            let ghost before = r@;
            r.push(i);
            assert forall|j: int| 0 <= j < i + 1 && !noconfirm_entry(#[trigger] items@[j]@) implies r@.contains(j as usize) by {
                if j < i {
                    let k = choose|k: int| 0 <= k < before.len() && before[k] == j as usize;
                    assert(r@[k] == j as usize);
                } else {
                    assert(r@[before.len() as int] == i);
                }
            }
        }
        i = i + 1;
    }
    r
}

/// Per-project scan for size-hungry junk. Lists what it found with sizes
/// (written by `human_size`); a dry run stops there. Otherwise `.DS_Store`
/// files are deleted without asking and the rest after one default-No prompt.
pub fn run<R: Runner, F: Fn(u64) -> String>(runner: &mut Session<R>, args: &PurgeArgs, root: &str, dry_run: bool, verbose: bool, human_size: &F)
    requires
        forall|b: u64| human_size.requires((b,)),
    ensures
        extends(old(runner).calls(), final(runner).calls()),
        dry_run ==> quiet(old(runner).calls(), final(runner).calls()),
{
    let found = find_extras(runner, root);
    if found.len() == 0 {
        return;
    }
    let total = total_size(found.as_slice());
    let count = decimal_text(found.len() as u64);
    let total_text = human_size(total);
    runner.report(Level::Info, cat(&["[extras] ", count.as_str(), " candidate file(s) — ", total_text.as_str()]).as_str());
    let mut i: usize = 0;
    while i < found.len()
        invariant
            extends(old(runner).calls(), runner.calls()),
            dry_run ==> quiet(old(runner).calls(), runner.calls()),
            forall|b: u64| human_size.requires((b,)),
        decreases found.len() - i,
    {
        let size_text = human_size(found[i].size);
        runner.report(Level::Info, cat(&["  ", found[i].path.as_str(), " (", size_text.as_str(), ")"]).as_str());
        i = i + 1;
    }
    if dry_run {
        runner.report(Level::Info, cat(&["[extras] would delete ", count.as_str(), " item(s) — dry run"]).as_str());
        return;
    }
    let (mut ok, mut err) = delete_group(runner, found.as_slice(), true);
    let prompted = prompted_items(found.as_slice());
    if prompted.len() > 0 {
        let mut prompted_total: u64 = 0;
        let mut k: usize = 0;
        while k < prompted.len()
            invariant
                extends(old(runner).calls(), runner.calls()),
                dry_run ==> quiet(old(runner).calls(), runner.calls()),
                forall|j: int| 0 <= j < prompted@.len() ==> #[trigger] prompted@[j] < found@.len(),
            decreases prompted.len() - k,
        {
            prompted_total = prompted_total.saturating_add(found[prompted[k]].size);
            k = k + 1;
        }
        let n_text = decimal_text(prompted.len() as u64);
        let total_text = human_size(prompted_total);
        let prompt = cat(&["  Delete ", n_text.as_str(), " extra file(s) totaling ", total_text.as_str(), "?"]);
        if confirm(runner, prompt.as_str(), false) {
            let (ok2, err2) = delete_group(runner, found.as_slice(), false);
            ok = if ok <= usize::MAX - ok2 { ok + ok2 } else { usize::MAX };
            err = if err <= usize::MAX - err2 { err + err2 } else { usize::MAX };
        } else {
            runner.report(Level::Detail, "[extras] skipped (kept prompted files)");
        }
    }
    if ok > 0 || err > 0 {
        let ok_text = decimal_text(ok as u64);
        if err > 0 {
            let err_text = decimal_text(err as u64);
            runner.report(Level::Success, cat(&["[extras] deleted ", ok_text.as_str(), " item(s), ", err_text.as_str(), " failed"]).as_str());
        } else {
            runner.report(Level::Success, cat(&["[extras] deleted ", ok_text.as_str(), " item(s)"]).as_str());
        }
    }
}

} // verus!
