//! Go caches: per project `bin/` and `pkg/` of a module root; globally the
//! module cache (through `go clean -modcache`) and the go-build cache.
use vstd::prelude::*;
use crate::commands::purge::common::{found_existing, lemma_deletes_each, probes_path, removes_path, consented_changes, lemma_consented_after, lemma_quiet_consented, confirm, delete_trace, deletes_trace, home_or_empty, joined_all, lemma_deletes_step, EntryKind};
use crate::commands::purge::PurgeArgs;
use crate::paths::{join_path, path_join};
use crate::runner::{HostOs, Level, Runner};
use crate::session::{extends, quiet, reads_only, since, Call, Session};
use crate::text::{cat, opt_view};

verus! {

/// Per-project Go cleanup: removes `bin/` and `pkg/` when `go.mod` is present
/// at `root` (re-checked, though dispatch implies Go).
pub fn run<R: Runner>(runner: &mut Session<R>, args: &PurgeArgs, root: &str, dry_run: bool, verbose: bool)
    ensures
        extends(old(runner).calls(), final(runner).calls()),
        dry_run ==> quiet(old(runner).calls(), final(runner).calls()),
        go_trace(root@, dry_run, since(old(runner).calls(), final(runner).calls())),
{
    let ghost start = runner.calls();
    let go_mod = join_path(root, "go.mod");
    if !runner.path_exists(go_mod.as_str()) {
        if verbose {
            runner.report(Level::Detail, cat(&["[go] skip ", root, " — no go.mod"]).as_str());
        }
        assert(since(start, runner.calls())[0] == runner.calls().last());
        return;
    }
    let ghost marked = runner.calls();
    assert(since(start, marked)[0] == marked.last());
    let subs = ["bin", "pkg"];
    let ghost rels = seq!["bin"@, "pkg"@];
    assert(subs@.map_values(|s: &str| s@) =~= rels);
    let ghost targets = joined_all(root@, rels);
    let mut i: usize = 0;
    assert(since(marked, runner.calls()) =~= Seq::<Call>::empty());
    assert(targets.take(0) =~= Seq::<Seq<char>>::empty());
    while i < subs.len()
        invariant
            i <= subs@.len(),
            subs@.map_values(|s: &str| s@) == rels,
            targets == joined_all(root@, rels),
            start == old(runner).calls(),
            extends(start, marked),
            extends(marked, runner.calls()),
            since(start, marked).len() == 1,
            since(start, marked)[0] is PathExists,
            dry_run ==> quiet(old(runner).calls(), runner.calls()),
            deletes_trace(targets.take(i as int), EntryKind::Dir, dry_run, since(marked, runner.calls())),
        decreases subs.len() - i,
    {
        let ghost before = runner.calls();
        let path = join_path(root, subs[i]);
        assert(path@ == targets[i as int]);
        if runner.path_exists(path.as_str()) {
            if dry_run {
                runner.report(Level::Info, cat(&["[go] would delete ", path.as_str()]).as_str());
            } else {
                match runner.remove_dir_all(path.as_str()) {
                    Ok(()) => runner.report(Level::Success, cat(&["[go] deleted ", path.as_str()]).as_str()),
                    Err(e) => runner.report(
                        Level::Error,
                        cat(&["[go] failed to delete ", path.as_str(), ": ", e.message.as_str()]).as_str(),
                    ),
                }
            }
        }
        proof {
            let seg = since(before, runner.calls());
            assert(seg[0] == runner.calls()[before.len() as int]);
            if seg.len() == 2 {
                assert(seg[1] == runner.calls().last());
            }
            assert(delete_trace(targets[i as int], EntryKind::Dir, dry_run, seg));
            lemma_deletes_step(marked, before, runner.calls(), targets.take(i as int), targets[i as int], EntryKind::Dir, dry_run);
            assert(targets.take(i as int).push(targets[i as int]) =~= targets.take(i + 1));
        }
        i = i + 1;
    }
    proof {
        assert(targets.take(2) =~= targets);
        crate::session::lemma_since_prefix(start, marked, runner.calls());
        let t = since(start, runner.calls());
        assert(t[0] == since(start, marked)[0]);
        assert(t.skip(1) =~= since(marked, runner.calls()));
    }
}

/// What cleaning the Go module at `root` asks (`t`): whether `go.mod` exists;
/// when it does, the deletion of `bin/` and `pkg/` there.
pub open spec fn go_trace(root: Seq<char>, dry_run: bool, t: Seq<Call>) -> bool {
    &&& t.len() >= 1
    &&& match t[0] {
        Call::PathExists { path, reply } => path == path_join(root, "go.mod"@) && if !reply {
            t.len() == 1
        } else {
            deletes_trace(joined_all(root, seq!["bin"@, "pkg"@]), EntryKind::Dir, dry_run, t.skip(1))
        },
        _ => false,
    }
}

/// Cleaning a Go module looks for `go.mod` first and does nothing more when
/// it is missing; when it is there, `bin/` and `pkg/` beside it are looked
/// at, each that exists is removed outside a dry run, and nothing else is
/// ever removed.
pub proof fn lemma_go_cleans_bin_and_pkg(root: Seq<char>, dry_run: bool, t: Seq<Call>)
    requires
        go_trace(root, dry_run, t),
    ensures
        probes_path(t[0], path_join(root, "go.mod"@)),
        !found_existing(t[0]) ==> t.len() == 1,
        found_existing(t[0]) ==> exists|j: int| 0 < j < t.len() && probes_path(#[trigger] t[j], path_join(root, "bin"@)),
        found_existing(t[0]) ==> exists|j: int| 0 < j < t.len() && probes_path(#[trigger] t[j], path_join(root, "pkg"@)),
        forall|j: int| 0 < j < t.len() && !dry_run && found_existing(#[trigger] t[j])
            ==> exists|k: int| j < k < t.len() && removes_path(#[trigger] t[k], crate::commands::purge::common::probed_path(t[j])),
        forall|k: int| 0 <= k < t.len() && crate::session::is_removal(#[trigger] t[k])
            ==> removes_path(t[k], path_join(root, "bin"@)) || removes_path(t[k], path_join(root, "pkg"@)),
{
    if found_existing(t[0]) {
        let paths = joined_all(root, seq!["bin"@, "pkg"@]);
        let u = t.skip(1);
        lemma_deletes_each(paths, EntryKind::Dir, dry_run, u);
        assert(paths[0] == path_join(root, "bin"@));
        assert(paths[1] == path_join(root, "pkg"@));
        let j0 = choose|j: int| 0 <= j < u.len() && probes_path(#[trigger] u[j], paths[0]);
        assert(t[j0 + 1] == u[j0]);
        let j1 = choose|j: int| 0 <= j < u.len() && probes_path(#[trigger] u[j], paths[1]);
        assert(t[j1 + 1] == u[j1]);
        assert forall|j: int| 0 < j < t.len() && !dry_run && found_existing(#[trigger] t[j])
            implies exists|k: int| j < k < t.len() && removes_path(#[trigger] t[k], crate::commands::purge::common::probed_path(t[j])) by {
            assert(u[j - 1] == t[j]);
            let k = choose|k: int| j - 1 < k < u.len() && removes_path(#[trigger] u[k], crate::commands::purge::common::probed_path(u[j - 1]));
            assert(t[k + 1] == u[k]);
        }
        assert forall|k: int| 0 <= k < t.len() && crate::session::is_removal(#[trigger] t[k])
            implies removes_path(t[k], path_join(root, "bin"@)) || removes_path(t[k], path_join(root, "pkg"@)) by {
            assert(k > 0);
            assert(u[k - 1] == t[k]);
            let i = choose|i: int| 0 <= i < paths.len() && removes_path(u[k - 1], #[trigger] paths[i]);
        }
    }
}

/// Where the go-build cache lives on `os`: under `Library/Caches` on macOS,
/// under `.cache` on Linux, and nowhere known elsewhere.
pub open spec fn build_cache_path(home: Seq<char>, os: HostOs) -> Option<Seq<char>> {
    if os == HostOs::MacOs {
        Some(path_join(home, "Library/Caches/go-build"@))
    } else if os == HostOs::Linux {
        Some(path_join(home, ".cache/go-build"@))
    } else {
        None
    }
}

/// The go-build cache is `Library/Caches/go-build` under the home directory
/// on macOS and `.cache/go-build` under it on Linux; no place is known on
/// other systems.
pub proof fn lemma_go_build_cache_locations(home: Seq<char>, os: HostOs)
    ensures
        os == HostOs::MacOs ==> build_cache_path(home, os) == Some(path_join(home, "Library/Caches/go-build"@)),
        os == HostOs::Linux ==> build_cache_path(home, os) == Some(path_join(home, ".cache/go-build"@)),
        os != HostOs::MacOs && os != HostOs::Linux ==> build_cache_path(home, os) is None,
{
}

/// The go-build cache under `home`; see `build_cache_path`.
pub fn build_cache(home: &str, os: HostOs) -> (r: Option<String>)
    ensures
        opt_view(r) == build_cache_path(home@, os),
{
    if os == HostOs::MacOs {
        Some(join_path(home, "Library/Caches/go-build"))
    } else if os == HostOs::Linux {
        Some(join_path(home, ".cache/go-build"))
    } else {
        None
    }
}

/// Global Go cleanup: `go clean -modcache` when `go` is on the path, and the
/// go-build cache when it exists; listed in a dry run, otherwise done after
/// one default-No prompt.
pub fn run_global<R: Runner>(runner: &mut Session<R>, args: &PurgeArgs, dry_run: bool, verbose: bool)
    ensures
        extends(old(runner).calls(), final(runner).calls()),
        dry_run ==> quiet(old(runner).calls(), final(runner).calls()),
        consented_changes(since(old(runner).calls(), final(runner).calls())),
{
    let ghost start = runner.calls();
    let go_available = runner.which("go").is_some();
    let home = home_or_empty(runner);
    let cache = build_cache(home.as_str(), runner.host_os());
    let cache_present = match &cache {
        Some(p) => runner.path_exists(p.as_str()),
        None => false,
    };
    if !go_available && !cache_present {
        if verbose {
            runner.report(Level::Detail, "[go] nothing to purge globally");
        }
        proof { lemma_quiet_consented(start, runner.calls()); }
        return;
    }
    runner.report(Level::Info, "[go] global caches:");
    if go_available {
        runner.report(Level::Info, "  go clean -modcache");
    }
    if let Some(p) = &cache {
        if runner.path_exists(p.as_str()) {
            runner.report(Level::Info, cat(&["  ", p.as_str()]).as_str());
        }
    }
    if dry_run {
        if go_available {
            runner.report(Level::Info, "[go] would run `go clean -modcache`");
        }
        if let Some(p) = &cache {
            if runner.path_exists(p.as_str()) {
                runner.report(Level::Info, cat(&["[go] would delete ", p.as_str()]).as_str());
            }
        }
        proof { lemma_quiet_consented(start, runner.calls()); }
        return;
    }
    let ghost asked = runner.calls();
    proof { lemma_quiet_consented(start, asked); }
    let yes = confirm(runner, "  Delete Go global caches?", false);
    let ghost mid = runner.calls();
    proof { lemma_quiet_consented(start, mid); }
    if !yes {
        runner.report(Level::Detail, "[go] skipped");
        return;
    }
    if go_available {
        let result = runner.run("go", &["clean", "-modcache"], None);
        if result.is_success() {
            runner.report(Level::Success, "[go] go clean -modcache");
        } else {
            runner.report(Level::Error, cat(&["[go] go clean -modcache failed: ", result.stderr.as_str()]).as_str());
        }
    }
    if let Some(p) = &cache {
        if runner.path_exists(p.as_str()) {
            match runner.remove_dir_all(p.as_str()) {
                Ok(()) => runner.report(Level::Success, cat(&["[go] deleted ", p.as_str()]).as_str()),
                Err(e) => runner.report(
                    Level::Error,
                    cat(&["[go] failed to delete ", p.as_str(), ": ", e.message.as_str()]).as_str(),
                ),
            }
        }
    }
    proof {
        let aj = mid.len() - 1 - start.len();
        assert(since(start, mid)[aj] == mid[mid.len() - 1]);
        lemma_consented_after(start, mid, runner.calls(), aj);
    }
}

} // verus!
