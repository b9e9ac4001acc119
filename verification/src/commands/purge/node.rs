//! Node/frontend caches: per project, the well-known build, bundler and
//! dependency directories; globally, the package managers' stores.
use vstd::prelude::*;
use crate::commands::purge::common::{consented_changes, lemma_consented_after, lemma_consented_concat, lemma_quiet_consented, confirm, delete_path_verbose, delete_paths, deletes_trace, home_or_empty, joined_all, paths_under, EntryKind};
use crate::commands::purge::PurgeArgs;
use crate::paths::{join_path, path_join, string_views};
use crate::runner::{HostOs, Level, Runner};
use crate::session::{extends, quiet, reads_only, since, Session};
use crate::text::cat;

verus! {

/// Build, bundler and dependency caches of a Node project, relative to its root.
pub open spec fn node_cache_rels() -> Seq<Seq<char>> {
    seq![
        "node_modules"@, ".next"@, ".nuxt"@, ".turbo"@, ".vite"@, ".parcel-cache"@, "dist"@, "build"@,
        ".svelte-kit"@, ".astro"@, "coverage"@,
    ]
}

/// The per-project cleanup covers the dependency tree, each bundler's and
/// framework's build cache and the coverage output.
pub proof fn lemma_node_cache_rels_cover_tools(rel: Seq<char>)
    requires
        rel == "node_modules"@ || rel == ".next"@ || rel == ".nuxt"@ || rel == ".turbo"@ || rel == ".vite"@
            || rel == ".parcel-cache"@ || rel == "dist"@ || rel == "build"@ || rel == ".svelte-kit"@
            || rel == ".astro"@ || rel == "coverage"@,
    ensures
        node_cache_rels().contains(rel),
{
    let s = node_cache_rels();
    assert(s[0] == "node_modules"@ && s[1] == ".next"@ && s[2] == ".nuxt"@ && s[3] == ".turbo"@);
    assert(s[4] == ".vite"@ && s[5] == ".parcel-cache"@ && s[6] == "dist"@ && s[7] == "build"@);
    assert(s[8] == ".svelte-kit"@ && s[9] == ".astro"@ && s[10] == "coverage"@);
}

/// What `run` deletes under `root`.
pub fn targets(root: &str) -> (r: Vec<String>)
    ensures
        string_views(r@) == joined_all(root@, node_cache_rels()),
{
    let rels = [
        "node_modules", ".next", ".nuxt", ".turbo", ".vite", ".parcel-cache", "dist", "build", ".svelte-kit",
        ".astro", "coverage",
    ];
    assert(rels@.map_values(|s: &str| s@) =~= node_cache_rels());
    paths_under(root, &rels)
}

/// Per-project Node/frontend cache cleanup; see `targets`.
pub fn run<R: Runner>(runner: &mut Session<R>, args: &PurgeArgs, root: &str, dry_run: bool, verbose: bool)
    ensures
        extends(old(runner).calls(), final(runner).calls()),
        dry_run ==> quiet(old(runner).calls(), final(runner).calls()),
        deletes_trace(joined_all(root@, node_cache_rels()), EntryKind::Dir, dry_run, since(old(runner).calls(), final(runner).calls())),
{
    let t = targets(root);
    delete_paths(runner, t.as_slice(), dry_run, verbose);
}

/// The global stores: npm's and pnpm's, Yarn's on Linux and on macOS, and Bun's.
pub open spec fn global_store_paths(home: Seq<char>, os: HostOs) -> Seq<Seq<char>> {
    seq![path_join(home, ".npm"@), path_join(home, ".pnpm-store"@)]
        + (if os == HostOs::Linux { seq![path_join(home, ".cache/yarn"@)] } else { Seq::empty() })
        + (if os == HostOs::MacOs { seq![path_join(home, "Library/Caches/Yarn"@)] } else { Seq::empty() })
        + seq![path_join(home, ".bun/install/cache"@)]
}

/// npm's, pnpm's and Bun's stores are looked for on every system; Yarn's
/// cache under `.cache/yarn` on Linux and under `Library/Caches/Yarn` on macOS.
pub proof fn lemma_node_global_store_locations(home: Seq<char>, os: HostOs)
    ensures
        global_store_paths(home, os).contains(path_join(home, ".npm"@)),
        global_store_paths(home, os).contains(path_join(home, ".pnpm-store"@)),
        global_store_paths(home, os).contains(path_join(home, ".bun/install/cache"@)),
        os == HostOs::Linux ==> global_store_paths(home, os).contains(path_join(home, ".cache/yarn"@)),
        os == HostOs::MacOs ==> global_store_paths(home, os).contains(path_join(home, "Library/Caches/Yarn"@)),
{
    let g = global_store_paths(home, os);
    assert(g[0] == path_join(home, ".npm"@));
    assert(g[1] == path_join(home, ".pnpm-store"@));
    assert(g[g.len() - 1] == path_join(home, ".bun/install/cache"@));
    if os == HostOs::Linux {
        assert(g[2] == path_join(home, ".cache/yarn"@));
    }
    if os == HostOs::MacOs {
        assert(g[2] == path_join(home, "Library/Caches/Yarn"@));
    }
}

/// The global stores under `home`; see `global_store_paths`.
pub fn global_candidates(home: &str, os: HostOs) -> (r: Vec<String>)
    ensures
        string_views(r@) == global_store_paths(home@, os),
{
    let mut out: Vec<String> = Vec::new();
    out.push(join_path(home, ".npm"));
    out.push(join_path(home, ".pnpm-store"));
    if os == HostOs::Linux {
        out.push(join_path(home, ".cache/yarn"));
    }
    if os == HostOs::MacOs {
        out.push(join_path(home, "Library/Caches/Yarn"));
    }
    out.push(join_path(home, ".bun/install/cache"));
    assert(string_views(out@) =~= global_store_paths(home@, os));
    out
}

/// Global Node cache cleanup: each existing store is listed in a dry run, and
/// otherwise deleted after its own default-No prompt.
pub fn run_global<R: Runner>(runner: &mut Session<R>, args: &PurgeArgs, dry_run: bool, verbose: bool)
    ensures
        extends(old(runner).calls(), final(runner).calls()),
        dry_run ==> quiet(old(runner).calls(), final(runner).calls()),
        consented_changes(since(old(runner).calls(), final(runner).calls())),
{
    let ghost start = runner.calls();
    let home = home_or_empty(runner);
    let candidates = global_candidates(home.as_str(), runner.host_os());
    proof { lemma_quiet_consented(start, runner.calls()); }
    let mut i: usize = 0;
    while i < candidates.len()
        invariant
            start == old(runner).calls(),
            extends(old(runner).calls(), runner.calls()),
            dry_run ==> quiet(old(runner).calls(), runner.calls()),
            consented_changes(since(start, runner.calls())),
        decreases candidates.len() - i,
    {
        let ghost before = runner.calls();
        let path = candidates[i].as_str();
        let found = runner.path_exists(path);
        proof {
            lemma_quiet_consented(before, runner.calls());
            lemma_consented_concat(start, before, runner.calls());
        }
        if found {
            if dry_run {
                runner.report(Level::Info, cat(&["[node] would delete ", path]).as_str());
            } else {
                let ghost asked = runner.calls();
                let prompt = cat(&["[node] Delete ", path, "?"]);
                let yes = confirm(runner, prompt.as_str(), false);
                let ghost mid = runner.calls();
                proof {
                    lemma_quiet_consented(asked, mid);
                    lemma_consented_concat(start, asked, mid);
                }
                if yes {
                    delete_path_verbose(runner, path, verbose);
                    proof {
                        let aj = mid.len() - 1 - start.len();
                        assert(since(start, mid)[aj] == mid[mid.len() - 1]);
                        lemma_consented_after(start, mid, runner.calls(), aj);
                    }
                }
            }
        }
        i = i + 1;
    }
}

} // verus!
