//! Per-project cleanup of an iOS project's pods and build outputs (macOS only).
use vstd::prelude::*;
use crate::commands::purge::common::{delete_paths, deletes_trace, has_mobile_flags, is_mac_reply, joined_all, mobile_flags, on_macos, paths_under, EntryKind};
use crate::commands::purge::PurgeArgs;
use crate::paths::string_views;
use crate::runner::Runner;
use crate::session::{extends, quiet, reads_only, since, Session};

verus! {

/// Pods and build outputs of an iOS project, relative to its root.
pub open spec fn ios_build_rels() -> Seq<Seq<char>> {
    seq!["Pods"@, ".symlinks"@, "build"@]
}

/// The iOS cleanup covers the CocoaPods tree, Flutter's plugin links and the build output.
pub proof fn lemma_ios_build_rels_cover(name: Seq<char>)
    requires
        name == "Pods"@ || name == ".symlinks"@ || name == "build"@,
    ensures
        ios_build_rels().contains(name),
{
    let s = ios_build_rels();
    assert(s[0] == "Pods"@ && s[1] == ".symlinks"@ && s[2] == "build"@);
}

/// The pods and build outputs of the iOS project at `root`, on macOS, unless
/// project-type flags were given without `--ios`.
pub open spec fn ios_targets(args: PurgeArgs, root: Seq<char>, macos: bool) -> Seq<Seq<char>> {
    if (!mobile_flags(args) || args.ios) && macos {
        joined_all(root, ios_build_rels())
    } else {
        Seq::empty()
    }
}

/// What `run` deletes under `root`: on macOS the pods and build outputs,
/// unless project-type flags were given without `--ios`.
pub fn targets(args: &PurgeArgs, root: &str, macos: bool) -> (r: Vec<String>)
    ensures
        string_views(r@) == ios_targets(*args, root@, macos),
{
    if (!has_mobile_flags(args) || args.ios) && macos {
        let rels = ["Pods", ".symlinks", "build"];
        assert(rels@.map_values(|s: &str| s@) =~= ios_build_rels());
        paths_under(root, &rels)
    } else {
        let r: Vec<String> = Vec::new();
        assert(string_views(r@) =~= Seq::empty());
        r
    }
}

/// Deletes the pods and build outputs of the iOS project at `root`; see `targets`.
pub fn run<R: Runner>(runner: &mut Session<R>, args: &PurgeArgs, root: &str, dry_run: bool, verbose: bool)
    ensures
        extends(old(runner).calls(), final(runner).calls()),
        dry_run ==> quiet(old(runner).calls(), final(runner).calls()),
        since(old(runner).calls(), final(runner).calls()).len() >= 1 && since(old(runner).calls(), final(runner).calls())[0] is Host,
        deletes_trace(ios_targets(*args, root@, is_mac_reply(since(old(runner).calls(), final(runner).calls())[0])), EntryKind::Dir, dry_run, since(old(runner).calls(), final(runner).calls()).skip(1)),
{
    let ghost start = runner.calls();
    let mac = on_macos(runner);
    let ghost asked = runner.calls();
    let t = targets(args, root, mac);
    delete_paths(runner, t.as_slice(), dry_run, verbose);
    proof {
        crate::session::lemma_since_prefix(start, asked, runner.calls());
    }
}

/// The iOS project's pods and build outputs are cleaned only on macOS, and
/// there without mobile flags or with `--ios`; mobile flags without `--ios`
/// clean none.
pub proof fn lemma_ios_targets_gated(args: PurgeArgs, root: Seq<char>, macos: bool)
    ensures
        !macos ==> ios_targets(args, root, macos).len() == 0,
        macos && (!mobile_flags(args) || args.ios) ==> ios_targets(args, root, macos) == joined_all(root, ios_build_rels()),
        mobile_flags(args) && !args.ios ==> ios_targets(args, root, macos).len() == 0,
{
}

} // verus!
