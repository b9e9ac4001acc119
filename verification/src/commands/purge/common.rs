//! What every purge cleaner shares: the skip set of its walks, and deletion
//! with dry runs, confirmation and reporting.
use vstd::prelude::*;
use crate::commands::purge::PurgeArgs;
use crate::paths::{join_path, path_join, string_views};
use crate::runner::{HostOs, Level, Runner};
use crate::text::concat_views;
use crate::session::{changes_disk, extends, quiet, reads_only, since, Call, Session};
use crate::text::{cat, str_eq};

verus! {

/// Shared cleaner contract for per-project-type modules.
pub trait Cleaner {
    fn clean<R: Runner>(&self, runner: &mut Session<R>, args: &PurgeArgs, root: &str, dry_run: bool, verbose: bool);
}

/// Confirm prompt wrapper — keeps a single place to swap behavior later
/// (e.g. force-yes, non-interactive CI).
pub fn confirm<R: Runner>(runner: &mut Session<R>, msg: &str, default_value: bool) -> (r: bool)
    ensures
        reads_only(old(runner).calls(), final(runner).calls()),
        final(runner).calls() == old(runner).calls().push(Call::Confirm { prompt: msg@, default: default_value, reply: r }),
{
    runner.confirm(msg, default_value)
}

/// Dependency/build/VCS trees that other cleaners own, or that never host
/// sibling artifacts a purge walk should descend into.
pub open spec fn heavy_or_owned_names() -> Seq<Seq<char>> {
    seq![
        "node_modules"@, ".git"@, "target"@, "build"@, "dist"@, "vendor"@, ".dart_tool"@, "Pods"@,
        "DerivedData"@, ".venv"@, "venv"@, "__pycache__"@, ".gradle"@,
    ]
}

/// Scans never descend into dependency trees, VCS data, build outputs, virtualenvs or tool caches.
pub proof fn lemma_heavy_or_owned_cover(name: Seq<char>)
    requires
        name == "node_modules"@ || name == ".git"@ || name == "target"@ || name == "build"@ || name == "dist"@
            || name == "vendor"@ || name == ".dart_tool"@ || name == "Pods"@ || name == "DerivedData"@
            || name == ".venv"@ || name == "venv"@ || name == "__pycache__"@ || name == ".gradle"@,
    ensures
        heavy_or_owned_names().contains(name),
{
    let s = heavy_or_owned_names();
    assert(s[0] == "node_modules"@ && s[1] == ".git"@ && s[2] == "target"@ && s[3] == "build"@);
    assert(s[4] == "dist"@ && s[5] == "vendor"@ && s[6] == ".dart_tool"@ && s[7] == "Pods"@);
    assert(s[8] == "DerivedData"@ && s[9] == ".venv"@ && s[10] == "venv"@ && s[11] == "__pycache__"@);
    assert(s[12] == ".gradle"@);
}

/// Whether `name` is one of `names`.
pub fn name_in(names: &[&str], name: &str) -> (b: bool)
    ensures
        b == names@.map_values(|s: &str| s@).contains(name@),
{
    let ghost nv = names@.map_values(|s: &str| s@);
    let mut i: usize = 0;
    while i < names.len()
        invariant
            i <= names@.len(),
            nv == names@.map_values(|s: &str| s@),
            forall|k: int| 0 <= k < i ==> nv[k] != name@,
        decreases names.len() - i,
    {
        if str_eq(names[i], name) {
            assert(nv[i as int] == name@);
            return true;
        }
        i = i + 1;
    }
    proof {
        if nv.contains(name@) {
            let k = choose|k: int| 0 <= k < nv.len() && nv[k] == name@;
        }
    }
    false
}

/// Shared skip set for purge walks; see `heavy_or_owned_names`.
pub fn is_heavy_or_owned_dir(name: &str) -> (b: bool)
    ensures
        b == heavy_or_owned_names().contains(name@),
{
    let names = [
        "node_modules", ".git", "target", "build", "dist", "vendor", ".dart_tool", "Pods",
        "DerivedData", ".venv", "venv", "__pycache__", ".gradle",
    ];
    assert(names@.map_values(|s: &str| s@) =~= heavy_or_owned_names());
    name_in(&names, name)
}

/// `root` joined with each of `rels`, in order.
pub open spec fn joined_all(root: Seq<char>, rels: Seq<Seq<char>>) -> Seq<Seq<char>> {
    rels.map_values(|r: Seq<char>| path_join(root, r))
}

/// `root` joined with each of `rels`, in order.
pub fn paths_under(root: &str, rels: &[&str]) -> (r: Vec<String>)
    ensures
        string_views(r@) == joined_all(root@, rels@.map_values(|s: &str| s@)),
{
    let ghost rv = rels@.map_values(|s: &str| s@);
    let mut out: Vec<String> = Vec::new();
    let mut i: usize = 0;
    while i < rels.len()
        invariant
            i <= rels@.len(),
            rv == rels@.map_values(|s: &str| s@),
            string_views(out@) == joined_all(root@, rv.take(i as int)),
        decreases rels.len() - i,
    {
        let ghost before = out@;
        out.push(join_path(root, rels[i]));
        assert(rv.take(i + 1) =~= rv.take(i as int).push(rv[i as int]));
        assert(string_views(out@) =~= string_views(before).push(path_join(root@, rv[i as int])));
        assert(joined_all(root@, rv.take(i + 1)) =~= joined_all(root@, rv.take(i as int)).push(path_join(root@, rv[i as int])));
        i = i + 1;
    }
    assert(rv.take(rels@.len() as int) =~= rv);
    out
}

/// The project-type flags that the mobile cleaners look at were given.
pub open spec fn mobile_flags(args: PurgeArgs) -> bool {
    args.flutter || args.pub_cache || args.gradle || args.android || args.ios
}

/// Whether any of the mobile project-type flags was given; see `mobile_flags`.
pub fn has_mobile_flags(args: &PurgeArgs) -> (b: bool)
    ensures
        b == mobile_flags(*args),
{
    args.flutter || args.pub_cache || args.gradle || args.android || args.ios
}

/// The user's home directory, or the empty path when it is unknown.
pub fn home_or_empty<R: Runner>(runner: &mut Session<R>) -> (r: String)
    ensures
        reads_only(old(runner).calls(), final(runner).calls()),
{
    match runner.home_dir() {
        Some(h) => h,
        None => String::new(),
    }
}

/// Whether the commands run on macOS.
pub fn on_macos<R: Runner>(runner: &mut Session<R>) -> (r: bool)
    ensures
        reads_only(old(runner).calls(), final(runner).calls()),
        since(old(runner).calls(), final(runner).calls()).len() == 1,
        since(old(runner).calls(), final(runner).calls())[0] is Host,
        r == is_mac_reply(since(old(runner).calls(), final(runner).calls())[0]),
{
    let ghost start = runner.calls();
    let r = runner.host_os() == HostOs::MacOs;
    assert(since(start, runner.calls())[0] == runner.calls().last());
    r
}

/// The host question answered macOS.
pub open spec fn is_mac_reply(c: Call) -> bool {
    c matches Call::Host { reply } && reply == HostOs::MacOs
}

/// How to remove a path: directory tree, single file, or auto-detect.
#[derive(Debug, Clone, Copy, PartialEq, Eq, Structural)]
pub enum EntryKind {
    Dir,
    File,
    /// A directory tree when the path is a directory, else a file.
    Auto,
}

/// Scope for multi-path delete prompts: skip all, wipe all, or pick per path.
#[derive(Debug, Clone, Copy, PartialEq, Eq, Structural)]
pub enum DeleteScope {
    Skip,
    All,
    Pick,
}

/// The line of a dry run: the path, with `[tag] would delete` before it when tagged.
pub fn format_dry_run(path: &str, tag: Option<&str>) -> (r: String)
    ensures
        r@ == match tag {
            Some(t) => "  ~ ["@ + t@ + "] would delete "@ + path@,
            None => "  ~ "@ + path@,
        },
{
    match tag {
        Some(t) => {
            let a = crate::text::concat("  ~ [", t);
            let b = crate::text::concat(a.as_str(), "] would delete ");
            crate::text::concat(b.as_str(), path)
        },
        None => crate::text::concat("  ~ ", path),
    }
}

/// The line of a deletion that worked.
pub fn format_success(path: &str, tag: Option<&str>) -> (r: String)
    ensures
        r@ == match tag {
            Some(t) => "  ✓ ["@ + t@ + "] Deleted "@ + path@,
            None => "  ✓ Deleted "@ + path@,
        },
{
    match tag {
        Some(t) => {
            let a = crate::text::concat("  ✓ [", t);
            let b = crate::text::concat(a.as_str(), "] Deleted ");
            crate::text::concat(b.as_str(), path)
        },
        None => crate::text::concat("  ✓ Deleted ", path),
    }
}

/// The line of a deletion that failed, with the error.
pub fn format_fail(path: &str, tag: Option<&str>, err: &str) -> (r: String)
    ensures
        r@ == match tag {
            Some(t) => "  ✗ ["@ + t@ + "] Failed to delete "@ + path@ + ": "@ + err@,
            None => "  ✗ Failed to delete "@ + path@ + ": "@ + err@,
        },
{
    let head = match tag {
        Some(t) => {
            let a = crate::text::concat("  ✗ [", t);
            crate::text::concat(a.as_str(), "] Failed to delete ")
        },
        None => "  ✗ Failed to delete ".to_string(),
    };
    let b = crate::text::concat(head.as_str(), path);
    let c = crate::text::concat(b.as_str(), ": ");
    crate::text::concat(c.as_str(), err)
}

/// The removal request `c` for `path`: a tree removal when `tree`, else a
/// file removal.
pub open spec fn removes(c: Call, path: Seq<char>, tree: bool) -> bool {
    if tree {
        c matches Call::RemoveDirAll { path: p, .. } && p == path
    } else {
        c matches Call::RemoveFile { path: p, .. } && p == path
    }
}

/// What `delete_entry` asks of the runner (`t`) for `path`: whether it
/// exists; then, when it does and this is no dry run, its removal as `kind`
/// says (for `Auto`, after asking whether it is a directory). A missing path
/// and a dry run remove nothing.
pub open spec fn delete_trace(path: Seq<char>, kind: EntryKind, dry_run: bool, t: Seq<Call>) -> bool {
    &&& t.len() >= 1
    &&& match t[0] {
        Call::PathExists { path: p, reply } => p == path && if !reply || dry_run {
            t.len() == 1
        } else {
            match kind {
                EntryKind::Dir => t.len() == 2 && removes(t[1], path, true),
                EntryKind::File => t.len() == 2 && removes(t[1], path, false),
                EntryKind::Auto => {
                    &&& t.len() == 3
                    &&& t[1] matches Call::IsDir { path: q, reply: d } && q == path && removes(t[2], path, d)
                },
            }
        },
        _ => false,
    }
}

/// Single entry-point for dry-run-aware file/dir deletion used by purge
/// modules. Missing paths are no-ops; `tag` prefixes log lines as `[tag]`;
/// `kind` chooses a tree removal, a file removal, or by what the path is.
/// See `delete_trace` for the requests it makes.
pub fn delete_entry<R: Runner>(runner: &mut Session<R>, path: &str, tag: Option<&str>, kind: EntryKind, dry_run: bool, verbose: bool)
    ensures
        extends(old(runner).calls(), final(runner).calls()),
        dry_run ==> quiet(old(runner).calls(), final(runner).calls()),
        delete_trace(path@, kind, dry_run, since(old(runner).calls(), final(runner).calls())),
{
    let ghost start = runner.calls();
    let e = runner.path_exists(path);
    let ghost c0 = Call::PathExists { path: path@, reply: e };
    if !e {
        assert(since(start, runner.calls()) =~= seq![c0]);
        return;
    }
    if dry_run {
        runner.report(Level::Detail, format_dry_run(path, tag).as_str());
        assert(since(start, runner.calls()) =~= seq![c0]);
        return;
    }
    let result = match kind {
        EntryKind::Dir => runner.remove_dir_all(path),
        EntryKind::File => runner.remove_file(path),
        EntryKind::Auto => {
            if runner.is_dir(path) {
                runner.remove_dir_all(path)
            } else {
                runner.remove_file(path)
            }
        },
    };
    let ghost after = runner.calls();
    proof {
        match kind {
            EntryKind::Auto => {
                assert(since(start, after) =~= seq![c0, after[start.len() as int + 1], after[start.len() as int + 2]]);
            },
            _ => {
                assert(since(start, after) =~= seq![c0, after[start.len() as int + 1]]);
            },
        }
    }
    match result {
        Ok(()) => runner.report(Level::Success, format_success(path, tag).as_str()),
        Err(e) => {
            runner.report(Level::Error, format_fail(path, tag, e.message.as_str()).as_str());
            if verbose {
                runner.report(Level::Error, e.message.as_str());
            }
        },
    }
}

/// The length of the last `delete_trace` at the end of `t`: the requests for
/// one path end in a removal exactly when it was removed.
pub open spec fn last_delete_len(t: Seq<Call>, kind: EntryKind) -> int {
    if t.len() > 0 && crate::session::is_removal(t.last()) {
        if kind is Auto { 3 } else { 2 }
    } else {
        1
    }
}

/// The requests of deleting each of `paths` in turn as `kind`: `t` splits
/// into one `delete_trace` per path, in order.
pub open spec fn deletes_trace(paths: Seq<Seq<char>>, kind: EntryKind, dry_run: bool, t: Seq<Call>) -> bool
    decreases paths.len(),
{
    if paths.len() == 0 {
        t.len() == 0
    } else {
        let n = last_delete_len(t, kind);
        &&& n <= t.len()
        &&& deletes_trace(paths.drop_last(), kind, dry_run, t.take(t.len() - n))
        &&& delete_trace(paths.last(), kind, dry_run, t.skip(t.len() - n))
    }
}

/// `c` asks whether `p` exists.
pub open spec fn probes_path(c: Call, p: Seq<char>) -> bool {
    c matches Call::PathExists { path, .. } && path == p
}

/// `c` asks whether a path exists and the answer is yes.
pub open spec fn found_existing(c: Call) -> bool {
    c matches Call::PathExists { reply, .. } && reply
}

/// The path `c` asks about, when it asks whether one exists.
pub open spec fn probed_path(c: Call) -> Seq<char> {
    match c {
        Call::PathExists { path, .. } => path,
        _ => Seq::empty(),
    }
}

/// `c` removes `p`, as a tree or as a file.
pub open spec fn removes_path(c: Call, p: Seq<char>) -> bool {
    removes(c, p, true) || removes(c, p, false)
}

/// What one path's deletion asks, seen from outside: it looks at the path,
/// removes it when it exists and this is no dry run, and removes nothing else.
proof fn lemma_delete_one(path: Seq<char>, kind: EntryKind, dry_run: bool, t: Seq<Call>)
    requires
        delete_trace(path, kind, dry_run, t),
    ensures
        probes_path(t[0], path),
        forall|k: int| 0 < k < t.len() ==> !(#[trigger] t[k] is PathExists),
        forall|k: int| 0 <= k < t.len() && crate::session::is_removal(#[trigger] t[k]) ==> removes_path(t[k], path),
        found_existing(t[0]) && !dry_run
            ==> exists|k: int| 0 < k < t.len() && removes_path(#[trigger] t[k], path),
{
    match kind {
        EntryKind::Auto => {
            if t.len() == 3 {
                assert(removes_path(t[2], path));
            }
        },
        _ => {
            if t.len() == 2 {
                assert(removes_path(t[1], path));
            }
        },
    }
}

/// Deleting a list of paths looks at every one of them; outside a dry run,
/// each that exists is removed after it is looked at; and nothing but the
/// listed paths is ever removed.
pub proof fn lemma_deletes_each(paths: Seq<Seq<char>>, kind: EntryKind, dry_run: bool, t: Seq<Call>)
    requires
        deletes_trace(paths, kind, dry_run, t),
    ensures
        forall|i: int| 0 <= i < paths.len() ==> exists|j: int| 0 <= j < t.len() && probes_path(#[trigger] t[j], #[trigger] paths[i]),
        forall|j: int| 0 <= j < t.len() && !dry_run && found_existing(#[trigger] t[j])
            ==> exists|k: int| j < k < t.len() && removes_path(#[trigger] t[k], probed_path(t[j])),
        forall|k: int| 0 <= k < t.len() && crate::session::is_removal(#[trigger] t[k])
            ==> exists|i: int| 0 <= i < paths.len() && removes_path(t[k], #[trigger] paths[i]),
    decreases paths.len(),
{
    if paths.len() > 0 {
        let n = last_delete_len(t, kind);
        let m = t.len() - n;
        let t1 = t.take(m);
        let t2 = t.skip(m);
        let prev = paths.drop_last();
        lemma_deletes_each(prev, kind, dry_run, t1);
        lemma_delete_one(paths.last(), kind, dry_run, t2);
        assert forall|i: int| 0 <= i < paths.len() implies exists|j: int| 0 <= j < t.len() && probes_path(#[trigger] t[j], #[trigger] paths[i]) by {
            if i < paths.len() - 1 {
                assert(prev[i] == paths[i]);
                let j = choose|j: int| 0 <= j < t1.len() && probes_path(#[trigger] t1[j], prev[i]);
                assert(t[j] == t1[j]);
            } else {
                assert(t[m] == t2[0]);
            }
        }
        assert forall|j: int| 0 <= j < t.len() && !dry_run && found_existing(#[trigger] t[j])
            implies exists|k: int| j < k < t.len() && removes_path(#[trigger] t[k], probed_path(t[j])) by {
            if j < m {
                assert(t1[j] == t[j]);
                let k = choose|k: int| j < k < t1.len() && removes_path(#[trigger] t1[k], probed_path(t[j]));
                assert(t[k] == t1[k]);
            } else {
                assert(t2[j - m] == t[j]);
                if j > m {
                    assert(!(t2[j - m] is PathExists));
                }
                let k = choose|k: int| 0 < k < t2.len() && removes_path(#[trigger] t2[k], paths.last());
                assert(t[m + k] == t2[k]);
            }
        }
        assert forall|k: int| 0 <= k < t.len() && crate::session::is_removal(#[trigger] t[k])
            implies exists|i: int| 0 <= i < paths.len() && removes_path(t[k], #[trigger] paths[i]) by {
            if k < m {
                assert(t1[k] == t[k]);
                let i = choose|i: int| 0 <= i < prev.len() && removes_path(t1[k], #[trigger] prev[i]);
                assert(paths[i] == prev[i]);
            } else {
                assert(t2[k - m] == t[k]);
                assert(paths[paths.len() - 1] == paths.last());
            }
        }
    }
}

/// One more path deleted after the others: the requests split as
/// `deletes_trace` says.
pub proof fn lemma_deletes_step(
    start: Seq<Call>,
    before: Seq<Call>,
    end: Seq<Call>,
    done: Seq<Seq<char>>,
    p: Seq<char>,
    kind: EntryKind,
    dry_run: bool,
)
    requires
        extends(start, before),
        extends(before, end),
        deletes_trace(done, kind, dry_run, since(start, before)),
        delete_trace(p, kind, dry_run, since(before, end)),
        !(kind is Auto),
    ensures
        extends(start, end),
        deletes_trace(done.push(p), kind, dry_run, since(start, end)),
{
    crate::session::lemma_since_prefix(start, before, end);
    let now = since(start, end);
    let k = since(start, before).len() as int;
    let seg = since(before, end);
    assert(done.push(p).drop_last() =~= done);
    assert(last_delete_len(now, kind) == seg.len()) by {
        assert(now.last() == seg.last());
    }
    assert(now.take(now.len() - seg.len()) == since(start, before));
    assert(now.skip(now.len() - seg.len()) == seg);
}

/// Delete each existing path. In dry-run mode, print a `~` line instead.
/// See `deletes_trace` for the requests it makes.
pub fn delete_paths<R: Runner>(runner: &mut Session<R>, paths: &[String], dry_run: bool, verbose: bool)
    ensures
        extends(old(runner).calls(), final(runner).calls()),
        dry_run ==> quiet(old(runner).calls(), final(runner).calls()),
        deletes_trace(crate::paths::string_views(paths@), EntryKind::Dir, dry_run, since(old(runner).calls(), final(runner).calls())),
{
    delete_tagged(runner, paths, None, dry_run, verbose);
}

/// `delete_paths` with each log line tagged `[tag]`.
pub(crate) fn delete_tagged<R: Runner>(runner: &mut Session<R>, paths: &[String], tag: Option<&str>, dry_run: bool, verbose: bool)
    ensures
        extends(old(runner).calls(), final(runner).calls()),
        dry_run ==> quiet(old(runner).calls(), final(runner).calls()),
        deletes_trace(crate::paths::string_views(paths@), EntryKind::Dir, dry_run, since(old(runner).calls(), final(runner).calls())),
{
    let ghost start = runner.calls();
    let ghost pv = crate::paths::string_views(paths@);
    let mut i: usize = 0;
    assert(since(start, runner.calls()) =~= Seq::<Call>::empty());
    assert(pv.take(0) =~= Seq::<Seq<char>>::empty());
    while i < paths.len()
        invariant
            i <= paths@.len(),
            start == old(runner).calls(),
            pv == crate::paths::string_views(paths@),
            extends(old(runner).calls(), runner.calls()),
            dry_run ==> quiet(old(runner).calls(), runner.calls()),
            deletes_trace(pv.take(i as int), EntryKind::Dir, dry_run, since(start, runner.calls())),
        decreases paths.len() - i,
    {
        let ghost before = runner.calls();
        delete_entry(runner, paths[i].as_str(), tag, EntryKind::Dir, dry_run, verbose);
        proof {
            let done = since(start, before);
            let now = since(start, runner.calls());
            let k = done.len() as int;
            assert(now.take(k) =~= done);
            assert(now.skip(k) =~= since(before, runner.calls()));
            assert(pv.take(i + 1).drop_last() =~= pv.take(i as int));
            assert(pv.take(i + 1).last() == paths@[i as int]@);
            assert(deletes_trace(pv.take(i + 1).drop_last(), EntryKind::Dir, dry_run, now.take(k)));
            assert(delete_trace(pv.take(i + 1).last(), EntryKind::Dir, dry_run, now.skip(k)));
            assert(pv.take(i + 1).len() > 0);
            assert(0 <= k <= now.len());
            let ps = pv.take(i + 1);
            let seg = since(before, runner.calls());
            assert(last_delete_len(now, EntryKind::Dir) == seg.len()) by {
                assert(now.last() == seg.last());
            }
            assert(deletes_trace(ps, EntryKind::Dir, dry_run, now));
        }
        i = i + 1;
    }
    assert(pv.take(i as int) =~= pv);
}

/// Recursively delete `path` (directory), printing success or failure. No-op if missing.
pub fn delete_path_verbose<R: Runner>(runner: &mut Session<R>, path: &str, verbose: bool)
    ensures
        extends(old(runner).calls(), final(runner).calls()),
{
    delete_entry(runner, path, None, EntryKind::Dir, false, verbose);
}

/// `p` is one of `candidates`.
pub open spec fn listed_in(p: Seq<char>, candidates: Seq<String>) -> bool {
    exists|j: int| 0 <= j < candidates.len() && #[trigger] candidates[j]@ == p
}

/// What `existing_paths` asks (`t`) and returns (`r`) for `cands`: whether
/// each candidate exists, in order; the result keeps, in order, exactly those
/// that do.
pub open spec fn existing_trace(cands: Seq<Seq<char>>, t: Seq<Call>, r: Seq<Seq<char>>) -> bool
    decreases cands.len(),
{
    if cands.len() == 0 {
        t.len() == 0 && r.len() == 0
    } else {
        &&& t.len() > 0
        &&& match t.last() {
            Call::PathExists { path, reply } => path == cands.last() && if reply {
                r.len() > 0 && r.last() == cands.last() && existing_trace(cands.drop_last(), t.drop_last(), r.drop_last())
            } else {
                existing_trace(cands.drop_last(), t.drop_last(), r)
            },
            _ => false,
        }
    }
}

/// Paths from `candidates` that currently exist on disk, in order; see
/// `existing_trace`.
pub fn existing_paths<R: Runner>(runner: &mut Session<R>, candidates: &[String]) -> (r: Vec<String>)
    ensures
        reads_only(old(runner).calls(), final(runner).calls()),
        r@.len() <= candidates@.len(),
        forall|i: int| 0 <= i < r@.len() ==> #[trigger] listed_in(r@[i]@, candidates@),
        existing_trace(crate::paths::string_views(candidates@), since(old(runner).calls(), final(runner).calls()), crate::paths::string_views(r@)),
{
    let ghost start = runner.calls();
    let ghost cv = crate::paths::string_views(candidates@);
    let mut out: Vec<String> = Vec::new();
    let mut i: usize = 0;
    assert(since(start, runner.calls()) =~= Seq::<Call>::empty());
    assert(cv.take(0) =~= Seq::<Seq<char>>::empty());
    while i < candidates.len()
        invariant
            i <= candidates@.len(),
            start == old(runner).calls(),
            cv == crate::paths::string_views(candidates@),
            reads_only(old(runner).calls(), runner.calls()),
            out@.len() <= i,
            forall|k: int| 0 <= k < out@.len() ==> #[trigger] listed_in(out@[k]@, candidates@),
            existing_trace(cv.take(i as int), since(start, runner.calls()), crate::paths::string_views(out@)),
        decreases candidates.len() - i,
    {
        let ghost before_calls = runner.calls();
        let ghost before = out@;
        let e = runner.path_exists(candidates[i].as_str());
        if e {
            out.push(candidates[i].clone());
            assert forall|k: int| 0 <= k < out@.len() implies #[trigger] listed_in(out@[k]@, candidates@) by {
                if k < before.len() {
                    assert(out@[k] == before[k]);
                } else {
                    assert(out@[k]@ == candidates@[i as int]@);
                }
            }
        }
        proof {
            let now = since(start, runner.calls());
            assert(now.drop_last() =~= since(start, before_calls));
            assert(cv.take(i + 1).drop_last() =~= cv.take(i as int));
            assert(cv.take(i + 1).last() == candidates@[i as int]@);
            if e {
                assert(crate::paths::string_views(out@).drop_last() =~= crate::paths::string_views(before));
            } else {
                assert(out@ == before);
            }
        }
        i = i + 1;
    }
    assert(cv.take(i as int) =~= cv);
    out
}

/// The scope the menu answer `choice` picks: `1` all, `2` one by one, anything
/// else none.
pub open spec fn scope_of_choice(choice: usize) -> DeleteScope {
    if choice == 1 {
        DeleteScope::All
    } else if choice == 2 {
        DeleteScope::Pick
    } else {
        DeleteScope::Skip
    }
}

/// Prompt None / All / Some (default None). Used for global cache batches.
pub fn prompt_delete_scope<R: Runner>(runner: &mut Session<R>, msg: &str) -> (s: DeleteScope)
    ensures
        reads_only(old(runner).calls(), final(runner).calls()),
        exists|choice: usize| s == #[trigger] scope_of_choice(choice),
        final(runner).calls() == old(runner).calls().push(scope_menu(msg@, scope_reply(final(runner).calls().last()))),
        s == scope_of_choice(scope_reply(final(runner).calls().last())),
{
    let items = ["None", "All", "Some (confirm each)"];
    assert(crate::session::strs_view(items@) =~= scope_items());
    let choice = runner.select(msg, &items, 0);
    let s = if choice == 1 {
        DeleteScope::All
    } else if choice == 2 {
        DeleteScope::Pick
    } else {
        DeleteScope::Skip
    };
    assert(s == scope_of_choice(choice));
    s
}

/// The items of the scope menu.
pub open spec fn scope_items() -> Seq<Seq<char>> {
    seq!["None"@, "All"@, "Some (confirm each)"@]
}

/// The scope menu `prompt` answered `choice`.
pub open spec fn scope_menu(prompt: Seq<char>, choice: usize) -> Call {
    Call::Select { prompt, items: scope_items(), default: 0, reply: choice }
}

/// The answer to a menu request.
pub open spec fn scope_reply(c: Call) -> usize {
    match c {
        Call::Select { reply, .. } => reply,
        _ => 0,
    }
}

/// The question asked before deleting `p` one by one.
pub open spec fn delete_question(p: Seq<char>) -> Seq<char> {
    "  Delete "@ + p + "?"@
}

/// The per-path confirmations `t` of `paths` (default No) and the paths
/// confirmed, `r`, in order.
pub open spec fn pick_trace(paths: Seq<Seq<char>>, t: Seq<Call>, r: Seq<Seq<char>>) -> bool
    decreases paths.len(),
{
    if paths.len() == 0 {
        t.len() == 0 && r.len() == 0
    } else {
        &&& t.len() > 0
        &&& match t.last() {
            Call::Confirm { prompt, default, reply } => prompt == delete_question(paths.last()) && !default && if reply {
                r.len() > 0 && r.last() == paths.last() && pick_trace(paths.drop_last(), t.drop_last(), r.drop_last())
            } else {
                pick_trace(paths.drop_last(), t.drop_last(), r)
            },
            _ => false,
        }
    }
}

/// What `select_paths_to_delete` asks (`t`) and returns (`r`) for `existing`:
/// nothing when there is nothing to delete; else the scope menu, then for
/// `All` every path, for `Pick` the confirmed ones (`pick_trace`), for `Skip`
/// none.
pub open spec fn selection_trace(existing: Seq<Seq<char>>, prompt: Seq<char>, t: Seq<Call>, r: Seq<Seq<char>>) -> bool {
    if existing.len() == 0 {
        t.len() == 0 && r.len() == 0
    } else {
        &&& t.len() >= 1
        &&& t[0] == scope_menu(prompt, scope_reply(t[0]))
        &&& match scope_of_choice(scope_reply(t[0])) {
            DeleteScope::Skip => t.len() == 1 && r.len() == 0,
            DeleteScope::All => t.len() == 1 && r == existing,
            DeleteScope::Pick => pick_trace(existing, t.skip(1), r),
        }
    }
}

/// Resolve which paths to delete: none, all, or those confirmed one by one
/// (default No). Nothing is asked when there is nothing to delete.
pub fn select_paths_to_delete<R: Runner>(runner: &mut Session<R>, existing: &[String], scope_prompt: &str) -> (r: Vec<String>)
    ensures
        reads_only(old(runner).calls(), final(runner).calls()),
        existing@.len() == 0 ==> r@.len() == 0,
        r@.len() <= existing@.len(),
        forall|i: int| 0 <= i < r@.len() ==> #[trigger] listed_in(r@[i]@, existing@),
        selection_trace(
            crate::paths::string_views(existing@),
            scope_prompt@,
            since(old(runner).calls(), final(runner).calls()),
            crate::paths::string_views(r@),
        ),
{
    let ghost start = runner.calls();
    let ghost ev = crate::paths::string_views(existing@);
    if existing.len() == 0 {
        let r: Vec<String> = Vec::new();
        assert(since(start, runner.calls()) =~= Seq::<Call>::empty());
        assert(crate::paths::string_views(r@) =~= Seq::<Seq<char>>::empty());
        return r;
    }
    let scope = prompt_delete_scope(runner, scope_prompt);
    let ghost menu = runner.calls();
    assert(since(start, menu) =~= seq![menu.last()]);
    match scope {
        DeleteScope::Skip => {
            let r: Vec<String> = Vec::new();
            assert(crate::paths::string_views(r@) =~= Seq::<Seq<char>>::empty());
            r
        },
        DeleteScope::All => {
            let mut out: Vec<String> = Vec::new();
            let mut i: usize = 0;
            while i < existing.len()
                invariant
                    reads_only(old(runner).calls(), runner.calls()),
                    runner.calls() == menu,
                    i <= existing@.len(),
                    out@.len() == i,
                    forall|k: int| 0 <= k < out@.len() ==> #[trigger] listed_in(out@[k]@, existing@),
                    forall|k: int| 0 <= k < out@.len() ==> out@[k]@ == existing@[k]@,
                decreases existing.len() - i,
            {
                let ghost before = out@;
                out.push(existing[i].clone());
                assert forall|k: int| 0 <= k < out@.len() implies #[trigger] listed_in(out@[k]@, existing@) by {
                    if k < before.len() {
                        assert(out@[k] == before[k]);
                    } else {
                        assert(out@[k]@ == existing@[i as int]@);
                    }
                }
                assert forall|k: int| 0 <= k < out@.len() implies out@[k]@ == existing@[k]@ by {
                    if k < before.len() {
                        assert(out@[k] == before[k]);
                    }
                }
                i = i + 1;
            }
            assert(crate::paths::string_views(out@) =~= ev);
            out
        },
        DeleteScope::Pick => {
            let mut out: Vec<String> = Vec::new();
            let mut i: usize = 0;
            assert(since(menu, runner.calls()) =~= Seq::<Call>::empty());
            assert(ev.take(0) =~= Seq::<Seq<char>>::empty());
            assert(crate::paths::string_views(out@) =~= Seq::<Seq<char>>::empty());
            while i < existing.len()
                invariant
                    reads_only(old(runner).calls(), runner.calls()),
                    extends(menu, runner.calls()),
                    start == old(runner).calls(),
                    since(start, menu) == seq![menu.last()],
                    ev == crate::paths::string_views(existing@),
                    i <= existing@.len(),
                    out@.len() <= i,
                    forall|k: int| 0 <= k < out@.len() ==> #[trigger] listed_in(out@[k]@, existing@),
                    pick_trace(ev.take(i as int), since(menu, runner.calls()), crate::paths::string_views(out@)),
                decreases existing.len() - i,
            {
                let ghost before_calls = runner.calls();
                let ghost before = out@;
                let parts = ["  Delete ", existing[i].as_str(), "?"];
                let q = cat(&parts);
                assert(q@ == delete_question(existing@[i as int]@)) by {
                    let pv = parts@;
                    assert(pv.drop_last().drop_last().drop_last() =~= Seq::<&str>::empty());
                    assert(concat_views(pv.drop_last().drop_last().drop_last()) =~= Seq::<char>::empty());
                    assert(pv.drop_last().drop_last().last() == "  Delete ");
                    assert(Seq::<char>::empty() + "  Delete "@ =~= "  Delete "@);
                    assert(concat_views(pv.drop_last().drop_last()) =~= "  Delete "@);
                    assert(concat_views(pv.drop_last()) =~= "  Delete "@ + existing@[i as int]@);
                }
                let yes = confirm(runner, q.as_str(), false);
                if yes {
                    out.push(existing[i].clone());
                    assert forall|k: int| 0 <= k < out@.len() implies #[trigger] listed_in(out@[k]@, existing@) by {
                        if k < before.len() {
                            assert(out@[k] == before[k]);
                        } else {
                            assert(out@[k]@ == existing@[i as int]@);
                        }
                    }
                }
                proof {
                    let now = since(menu, runner.calls());
                    assert(now.drop_last() =~= since(menu, before_calls));
                    assert(ev.take(i + 1).drop_last() =~= ev.take(i as int));
                    assert(ev.take(i + 1).last() == existing@[i as int]@);
                    if yes {
                        assert(crate::paths::string_views(out@).drop_last() =~= crate::paths::string_views(before));
                    } else {
                        assert(out@ == before);
                    }
                }
                i = i + 1;
            }
            proof {
                assert(ev.take(i as int) =~= ev);
                let t = since(start, runner.calls());
                assert(t.skip(1) =~= since(menu, runner.calls()));
                assert(t[0] == menu.last());
            }
            out
        },
    }
}

/// An answer that agrees to deleting: yes to a question, or "All" / "Some"
/// in the scope menu.
pub open spec fn is_consent(c: Call) -> bool {
    ||| c matches Call::Confirm { reply, .. } && reply
    ||| c matches Call::Select { reply, .. } && (reply == 1 || reply == 2)
}

/// Every request of `t` that may change the disk comes after an answer that
/// agreed to deleting.
pub open spec fn consented_changes(t: Seq<Call>) -> bool {
    forall|i: int| 0 <= i < t.len() && #[trigger] changes_disk(t[i]) ==> exists|j: int| 0 <= j < i && #[trigger] is_consent(t[j])
}

/// Requests that change nothing need no consent.
pub proof fn lemma_quiet_consented(start: Seq<Call>, end: Seq<Call>)
    requires
        extends(start, end),
        quiet(start, end),
    ensures
        consented_changes(since(start, end)),
{
    let t = since(start, end);
    assert forall|i: int| 0 <= i < t.len() && #[trigger] changes_disk(t[i]) implies exists|j: int| 0 <= j < i && #[trigger] is_consent(t[j]) by {
        assert(t[i] == end[start.len() + i]);
    }
}

/// Consent keeps across two runs of requests one after the other.
pub proof fn lemma_consented_concat(start: Seq<Call>, mid: Seq<Call>, end: Seq<Call>)
    requires
        extends(start, mid),
        extends(mid, end),
        consented_changes(since(start, mid)),
        consented_changes(since(mid, end)),
    ensures
        consented_changes(since(start, end)),
{
    let a = since(start, mid);
    let b = since(mid, end);
    let t = since(start, end);
    assert forall|i: int| 0 <= i < t.len() && #[trigger] changes_disk(t[i]) implies exists|j: int| 0 <= j < i && #[trigger] is_consent(t[j]) by {
        if i < a.len() {
            assert(t[i] == a[i]);
            let j = choose|j: int| 0 <= j < i && #[trigger] is_consent(a[j]);
            assert(t[j] == a[j]);
        } else {
            let k = i - a.len();
            assert(t[i] == b[k]);
            let j = choose|j: int| 0 <= j < k && #[trigger] is_consent(b[j]);
            assert(t[a.len() + j] == b[j]);
        }
    }
}

/// After an answer that agreed, anything may follow.
pub proof fn lemma_consented_after(start: Seq<Call>, mid: Seq<Call>, end: Seq<Call>, aj: int)
    requires
        extends(start, mid),
        extends(mid, end),
        consented_changes(since(start, mid)),
        0 <= aj < since(start, mid).len(),
        is_consent(since(start, mid)[aj]),
    ensures
        consented_changes(since(start, end)),
{
    let a = since(start, mid);
    let t = since(start, end);
    assert(t[aj] == a[aj]);
    assert forall|i: int| 0 <= i < t.len() && #[trigger] changes_disk(t[i]) implies exists|j: int| 0 <= j < i && #[trigger] is_consent(t[j]) by {
        if i < a.len() {
            assert(t[i] == a[i]);
            let j = choose|j: int| 0 <= j < i && #[trigger] is_consent(a[j]);
            assert(t[j] == a[j]);
        } else {
            assert(is_consent(t[aj]));
        }
    }
}

/// A per-path pick that chose something holds an agreeing answer.
pub proof fn lemma_pick_consent(paths: Seq<Seq<char>>, t: Seq<Call>, r: Seq<Seq<char>>)
    requires
        pick_trace(paths, t, r),
        r.len() > 0,
    ensures
        exists|j: int| 0 <= j < t.len() && #[trigger] is_consent(t[j]),
    decreases paths.len(),
{
    if paths.len() > 0 {
        match t.last() {
            Call::Confirm { reply, .. } => {
                if reply {
                    assert(is_consent(t[t.len() - 1]));
                } else {
                    lemma_pick_consent(paths.drop_last(), t.drop_last(), r);
                    let j = choose|j: int| 0 <= j < t.drop_last().len() && #[trigger] is_consent(t.drop_last()[j]);
                    assert(t[j] == t.drop_last()[j]);
                }
            },
            _ => {},
        }
    }
}

/// A selection that chose something holds an agreeing answer.
pub proof fn lemma_selection_consent(existing: Seq<Seq<char>>, prompt: Seq<char>, t: Seq<Call>, r: Seq<Seq<char>>)
    requires
        selection_trace(existing, prompt, t, r),
        r.len() > 0,
    ensures
        exists|j: int| 0 <= j < t.len() && #[trigger] is_consent(t[j]),
{
    let c = scope_reply(t[0]);
    if scope_of_choice(c) is All {
        assert(is_consent(t[0]));
    } else if scope_of_choice(c) is Pick {
        lemma_pick_consent(existing, t.skip(1), r);
        let j = choose|j: int| 0 <= j < t.skip(1).len() && #[trigger] is_consent(t.skip(1)[j]);
        assert(t[j + 1] == t.skip(1)[j]);
    }
}

/// Global-cache flow: in a dry run each path is listed, else None / All / Some
/// is asked and the selected paths are deleted. Returns how many paths were
/// listed or deleted (0 when there are none or the user declined).
pub fn delete_existing_with_confirm<R: Runner>(
    runner: &mut Session<R>,
    existing: &[String],
    dry_run: bool,
    verbose: bool,
    tag: Option<&str>,
    confirm_msg: &str,
) -> (n: usize)
    ensures
        extends(old(runner).calls(), final(runner).calls()),
        dry_run ==> quiet(old(runner).calls(), final(runner).calls()),
        existing@.len() == 0 ==> n == 0 && since(old(runner).calls(), final(runner).calls()).len() == 0,
        dry_run ==> n == existing@.len(),
        n <= existing@.len(),
        dry_run ==> deletes_trace(crate::paths::string_views(existing@), EntryKind::Dir, true, since(old(runner).calls(), final(runner).calls())),
        !dry_run ==> exists|k: int, chosen: Seq<Seq<char>>|
            0 <= k <= since(old(runner).calls(), final(runner).calls()).len()
            && #[trigger] selection_trace(crate::paths::string_views(existing@), confirm_msg@, since(old(runner).calls(), final(runner).calls()).take(k), chosen)
            && deletes_trace(chosen, EntryKind::Dir, false, since(old(runner).calls(), final(runner).calls()).skip(k))
            && n == chosen.len(),        consented_changes(since(old(runner).calls(), final(runner).calls())),
{
    let ghost start = runner.calls();
    if existing.len() == 0 {
        proof {
            lemma_quiet_consented(start, runner.calls());
            let t = since(start, runner.calls());
            assert(t.len() == 0);
            let e: Seq<Seq<char>> = Seq::empty();
            assert(t.take(0) =~= t && t.skip(0) =~= t);
            assert(selection_trace(crate::paths::string_views(existing@), confirm_msg@, t.take(0), e));
            assert(deletes_trace(e, EntryKind::Dir, false, t.skip(0)));
        }
        return 0;
    }
    if dry_run {
        delete_tagged(runner, existing, tag, true, verbose);
        proof { lemma_quiet_consented(start, runner.calls()); }
        return existing.len();
    }
    let selected = select_paths_to_delete(runner, existing, confirm_msg);
    let ghost chose = runner.calls();
    proof { lemma_quiet_consented(start, chose); }
    delete_tagged(runner, selected.as_slice(), tag, false, verbose);
    proof {
        crate::session::lemma_since_prefix(start, chose, runner.calls());
        let t = since(start, runner.calls());
        let k = since(start, chose).len() as int;
        assert(selection_trace(crate::paths::string_views(existing@), confirm_msg@, t.take(k), crate::paths::string_views(selected@)));
        if selected@.len() > 0 {
            lemma_selection_consent(crate::paths::string_views(existing@), confirm_msg@, since(start, chose), crate::paths::string_views(selected@));
            let j = choose|j: int| 0 <= j < since(start, chose).len() && #[trigger] is_consent(since(start, chose)[j]);
            lemma_consented_after(start, chose, runner.calls(), j);
        } else {
            assert(since(chose, runner.calls()).len() == 0);
            assert(since(start, runner.calls()) =~= since(start, chose));
        }
    }
    selected.len()
}

} // verus!
