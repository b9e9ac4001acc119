//! Rust/Cargo caches: per project `target/` (never `Cargo.lock`); globally the
//! registry and git caches under `~/.cargo`.
use vstd::prelude::*;
use crate::commands::purge::common::{consented_changes, lemma_consented_concat, lemma_quiet_consented, delete_entry, delete_trace, delete_existing_with_confirm, existing_paths, home_or_empty, joined_all, paths_under, EntryKind};
use crate::commands::purge::PurgeArgs;
use crate::paths::string_views;
use crate::runner::{Level, Runner};
use crate::session::{extends, quiet, reads_only, since, Session};
use crate::text::cat;

verus! {

/// Per-project Rust/Cargo cleanup: deletes `target/` if present.
pub fn run<R: Runner>(runner: &mut Session<R>, args: &PurgeArgs, root: &str, dry_run: bool, verbose: bool)
    ensures
        extends(old(runner).calls(), final(runner).calls()),
        dry_run ==> quiet(old(runner).calls(), final(runner).calls()),
        delete_trace(crate::paths::path_join(root@, "target"@), EntryKind::Dir, dry_run, since(old(runner).calls(), final(runner).calls())),
{
    let path = crate::paths::join_path(root, "target");
    delete_entry(runner, path.as_str(), Some("rust"), EntryKind::Dir, dry_run, verbose);
}

/// Cargo's global caches, relative to the home directory.
pub open spec fn cargo_cache_rels() -> Seq<Seq<char>> {
    seq![".cargo/registry/cache"@, ".cargo/registry/src"@, ".cargo/git/db"@]
}

/// The global Cargo cleanup covers the registry's downloaded crates and sources and the git checkouts' database.
pub proof fn lemma_cargo_cache_rels_cover(rel: Seq<char>)
    requires
        rel == ".cargo/registry/cache"@ || rel == ".cargo/registry/src"@ || rel == ".cargo/git/db"@,
    ensures
        cargo_cache_rels().contains(rel),
{
    let s = cargo_cache_rels();
    assert(s[0] == ".cargo/registry/cache"@ && s[1] == ".cargo/registry/src"@ && s[2] == ".cargo/git/db"@);
}

/// Cargo's global caches under `home`.
pub fn global_candidates(home: &str) -> (r: Vec<String>)
    ensures
        string_views(r@) == joined_all(home@, cargo_cache_rels()),
{
    let rels = [".cargo/registry/cache", ".cargo/registry/src", ".cargo/git/db"];
    assert(rels@.map_values(|s: &str| s@) =~= cargo_cache_rels());
    paths_under(home, &rels)
}

/// Global Cargo cache cleanup: lists the existing caches, then deletes them
/// after one prompt (listed only in a dry run).
pub fn run_global<R: Runner>(runner: &mut Session<R>, args: &PurgeArgs, dry_run: bool, verbose: bool)
    ensures
        extends(old(runner).calls(), final(runner).calls()),
        dry_run ==> quiet(old(runner).calls(), final(runner).calls()),
        consented_changes(since(old(runner).calls(), final(runner).calls())),
{
    let ghost start = runner.calls();
    let home = home_or_empty(runner);
    let candidates = global_candidates(home.as_str());
    let existing = existing_paths(runner, candidates.as_slice());
    if existing.len() == 0 {
        proof { lemma_quiet_consented(start, runner.calls()); }
        return;
    }
    runner.report(Level::Info, "[rust] global caches to delete:");
    let mut i: usize = 0;
    while i < existing.len()
        invariant
            extends(old(runner).calls(), runner.calls()),
            quiet(old(runner).calls(), runner.calls()),
            dry_run ==> quiet(old(runner).calls(), runner.calls()),
        decreases existing.len() - i,
    {
        runner.report(Level::Info, cat(&["  ", existing[i].as_str()]).as_str());
        i = i + 1;
    }
    let ghost listed = runner.calls();
    proof { lemma_quiet_consented(start, listed); }
    delete_existing_with_confirm(runner, existing.as_slice(), dry_run, verbose, Some("rust"), "Delete global Rust/Cargo caches?");
    proof { lemma_consented_concat(start, listed, runner.calls()); }
}

} // verus!
