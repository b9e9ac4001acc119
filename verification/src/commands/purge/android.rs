//! Per-project cleanup of an Android project's build outputs.
use vstd::prelude::*;
use crate::commands::purge::common::{delete_paths, deletes_trace, has_mobile_flags, joined_all, mobile_flags, paths_under, EntryKind};
use crate::commands::purge::PurgeArgs;
use crate::paths::string_views;
use crate::runner::Runner;
use crate::session::{extends, quiet, reads_only, since, Session};

verus! {

/// Build outputs of an Android project, relative to its root.
pub open spec fn android_build_rels() -> Seq<Seq<char>> {
    seq!["build"@, "app/build"@, ".gradle"@, ".dart_tool"@]
}

/// The Android cleanup covers the root and app build outputs, the Gradle project cache and `.dart_tool`.
pub proof fn lemma_android_build_rels_cover(rel: Seq<char>)
    requires
        rel == "build"@ || rel == "app/build"@ || rel == ".gradle"@ || rel == ".dart_tool"@,
    ensures
        android_build_rels().contains(rel),
{
    let s = android_build_rels();
    assert(s[0] == "build"@ && s[1] == "app/build"@ && s[2] == ".gradle"@ && s[3] == ".dart_tool"@);
}

/// The build outputs of the Android project at `root`, unless project-type
/// flags were given without `--android`.
pub open spec fn android_targets(args: PurgeArgs, root: Seq<char>) -> Seq<Seq<char>> {
    if !mobile_flags(args) || args.android {
        joined_all(root, android_build_rels())
    } else {
        Seq::empty()
    }
}

/// What `run` deletes under `root`: the build outputs, unless project-type
/// flags were given without `--android`.
pub fn targets(args: &PurgeArgs, root: &str) -> (r: Vec<String>)
    ensures
        string_views(r@) == android_targets(*args, root@),
{
    if !has_mobile_flags(args) || args.android {
        let rels = ["build", "app/build", ".gradle", ".dart_tool"];
        assert(rels@.map_values(|s: &str| s@) =~= android_build_rels());
        paths_under(root, &rels)
    } else {
        let r: Vec<String> = Vec::new();
        assert(string_views(r@) =~= Seq::empty());
        r
    }
}

/// Deletes the build outputs of the Android project at `root`; see `targets`.
pub fn run<R: Runner>(runner: &mut Session<R>, args: &PurgeArgs, root: &str, dry_run: bool, verbose: bool)
    ensures
        extends(old(runner).calls(), final(runner).calls()),
        dry_run ==> quiet(old(runner).calls(), final(runner).calls()),
        deletes_trace(android_targets(*args, root@), EntryKind::Dir, dry_run, since(old(runner).calls(), final(runner).calls())),
{
    let t = targets(args, root);
    delete_paths(runner, t.as_slice(), dry_run, verbose);
}

/// Without mobile flags, or with `--android`, every build output of the
/// Android project is cleaned; mobile flags without `--android` clean none.
pub proof fn lemma_android_targets_gated(args: PurgeArgs, root: Seq<char>)
    ensures
        !mobile_flags(args) ==> android_targets(args, root) == joined_all(root, android_build_rels()),
        args.android ==> android_targets(args, root) == joined_all(root, android_build_rels()),
        mobile_flags(args) && !args.android ==> android_targets(args, root).len() == 0,
{
}

} // verus!
