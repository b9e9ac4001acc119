//! Per-project cleanup of a Flutter project: `flutter clean`, then the build
//! outputs of its Android and iOS hosts.
use vstd::prelude::*;
use crate::commands::purge::common::{delete_paths, deletes_trace, has_mobile_flags, is_mac_reply, joined_all, mobile_flags, on_macos, paths_under, EntryKind};
use crate::commands::purge::PurgeArgs;
use crate::paths::{path_join, string_views};
use crate::runner::{Level, Runner};
use crate::session::{extends, quiet, reads_only, since, strs_view, Call, Session};
use crate::text::cat;

verus! {

/// Build outputs of the Android host, relative to the project root.
pub open spec fn flutter_android_rels() -> Seq<Seq<char>> {
    seq!["android/build"@, "android/app/build"@, "android/.gradle"@]
}

/// The Flutter cleanup covers the Android host's build outputs and Gradle cache.
pub proof fn lemma_flutter_android_rels_cover(rel: Seq<char>)
    requires
        rel == "android/build"@ || rel == "android/app/build"@ || rel == "android/.gradle"@,
    ensures
        flutter_android_rels().contains(rel),
{
    let s = flutter_android_rels();
    assert(s[0] == "android/build"@ && s[1] == "android/app/build"@ && s[2] == "android/.gradle"@);
}

/// Pods and build outputs of the iOS host, relative to the project root.
pub open spec fn flutter_ios_rels() -> Seq<Seq<char>> {
    seq!["ios/Pods"@, "ios/.symlinks"@, "ios/build"@]
}

/// The Flutter cleanup covers the iOS host's pods, plugin links and build output.
pub proof fn lemma_flutter_ios_rels_cover(rel: Seq<char>)
    requires
        rel == "ios/Pods"@ || rel == "ios/.symlinks"@ || rel == "ios/build"@,
    ensures
        flutter_ios_rels().contains(rel),
{
    let s = flutter_ios_rels();
    assert(s[0] == "ios/Pods"@ && s[1] == "ios/.symlinks"@ && s[2] == "ios/build"@);
}

/// `flutter clean` runs unless project-type flags were given without `--flutter`.
pub fn runs_flutter_clean(args: &PurgeArgs) -> (b: bool)
    ensures
        b == (!mobile_flags(*args) || args.flutter),
{
    !has_mobile_flags(args) || args.flutter
}

/// What `run` deletes under `root`: the Android host's outputs unless flags
/// exclude them, then on macOS the iOS host's pods and outputs unless flags
/// exclude them (`--flutter` includes both).
pub fn targets(args: &PurgeArgs, root: &str, macos: bool) -> (r: Vec<String>)
    ensures
        string_views(r@) == (if !mobile_flags(*args) || args.android || args.flutter {
            joined_all(root@, flutter_android_rels())
        } else {
            Seq::empty()
        }) + (if (!mobile_flags(*args) || args.ios || args.flutter) && macos {
            joined_all(root@, flutter_ios_rels())
        } else {
            Seq::empty()
        }),
{
    let explicit = has_mobile_flags(args);
    let mut out: Vec<String> = Vec::new();
    if !explicit || args.android || args.flutter {
        let rels = ["android/build", "android/app/build", "android/.gradle"];
        assert(rels@.map_values(|s: &str| s@) =~= flutter_android_rels());
        out = paths_under(root, &rels);
    }
    let ghost first = string_views(out@);
    if (!explicit || args.ios || args.flutter) && macos {
        let rels = ["ios/Pods", "ios/.symlinks", "ios/build"];
        assert(rels@.map_values(|s: &str| s@) =~= flutter_ios_rels());
        let mut more = paths_under(root, &rels);
        let ghost second = string_views(more@);
        out.append(&mut more);
        assert(string_views(out@) =~= first + second);
    } else {
        assert(string_views(out@) =~= first + Seq::empty());
    }
    out
}

/// Runs `flutter clean` in `root`, reporting the outcome.
fn run_flutter_clean<R: Runner>(runner: &mut Session<R>, root: &str, dry_run: bool, verbose: bool)
    ensures
        extends(old(runner).calls(), final(runner).calls()),
        dry_run ==> quiet(old(runner).calls(), final(runner).calls()),
        dry_run ==> since(old(runner).calls(), final(runner).calls()).len() == 0,
        !dry_run ==> since(old(runner).calls(), final(runner).calls()).len() == 1 && is_flutter_clean(since(old(runner).calls(), final(runner).calls())[0], root@),
{
    let ghost start = runner.calls();
    let label = cat(&["flutter clean (", root, ")"]);
    if dry_run {
        runner.report(Level::Detail, cat(&["  ~ ", label.as_str()]).as_str());
        return;
    }
    let clean_args = ["clean"];
    assert(strs_view(clean_args@) =~= seq!["clean"@]);
    let result = runner.run("flutter", &clean_args, Some(root));
    assert(since(start, runner.calls())[0] == runner.calls().last());
    if result.is_success() {
        runner.report(Level::Success, cat(&["  ✓ ", label.as_str()]).as_str());
    } else {
        runner.report(Level::Error, cat(&["  ✗ Failed: ", label.as_str()]).as_str());
        if verbose {
            runner.report(Level::Error, result.stderr.as_str());
        }
    }
}

/// Cleans the Flutter project at `root`; see `runs_flutter_clean` and `targets`.
pub fn run<R: Runner>(runner: &mut Session<R>, args: &PurgeArgs, root: &str, dry_run: bool, verbose: bool)
    ensures
        extends(old(runner).calls(), final(runner).calls()),
        dry_run ==> quiet(old(runner).calls(), final(runner).calls()),
        flutter_trace(*args, root@, dry_run, since(old(runner).calls(), final(runner).calls())),
{
    let ghost start = runner.calls();
    if runs_flutter_clean(args) {
        run_flutter_clean(runner, root, dry_run, verbose);
    }
    let ghost cleaned = runner.calls();
    let mac = on_macos(runner);
    let ghost asked = runner.calls();
    let t = targets(args, root, mac);
    delete_paths(runner, t.as_slice(), dry_run, verbose);
    proof {
        crate::session::lemma_since_prefix(start, cleaned, asked);
        crate::session::lemma_since_prefix(start, asked, runner.calls());
        let all = since(start, runner.calls());
        let k = since(start, cleaned).len() as int;
        assert(all[k] == since(cleaned, asked)[0]);
        if k == 1 {
            assert(all[0] == since(start, cleaned)[0]);
        }
        assert(all.skip(k + 1) =~= since(asked, runner.calls()));
    }
}

/// A `flutter clean` run in `root`.
pub open spec fn is_flutter_clean(c: Call, root: Seq<char>) -> bool {
    c matches Call::Run { exe, args, dir, .. } && exe == "flutter"@ && args == seq!["clean"@] && dir == Some(root)
}

/// What cleaning the Flutter project at `root` asks (`t`): `flutter clean`
/// there unless flags exclude it or this is a dry run; the host question;
/// then the deletion of `targets` for the answer.
pub open spec fn flutter_trace(args: PurgeArgs, root: Seq<char>, dry_run: bool, t: Seq<Call>) -> bool {
    let k: int = if (!mobile_flags(args) || args.flutter) && !dry_run { 1 } else { 0 };
    &&& t.len() >= k + 1
    &&& (k == 1 ==> is_flutter_clean(t[0], root))
    &&& t[k] is Host
    &&& deletes_trace(flutter_targets(args, root, is_mac_reply(t[k])), EntryKind::Dir, dry_run, t.skip(k + 1))
}

/// The outputs cleaning the Flutter project at `root` deletes: the Android
/// host's unless flags exclude them, then on macOS the iOS host's unless flags
/// exclude them.
pub open spec fn flutter_targets(args: PurgeArgs, root: Seq<char>, macos: bool) -> Seq<Seq<char>> {
    (if !mobile_flags(args) || args.android || args.flutter {
        joined_all(root, flutter_android_rels())
    } else {
        Seq::empty()
    }) + (if (!mobile_flags(args) || args.ios || args.flutter) && macos {
        joined_all(root, flutter_ios_rels())
    } else {
        Seq::empty()
    })
}

/// A Flutter project's Android host outputs are cleaned without mobile flags
/// or with `--android` or `--flutter`; its iOS host outputs the same way with
/// `--ios` in place of `--android`, and on macOS only.
pub proof fn lemma_flutter_targets_gated(args: PurgeArgs, root: Seq<char>, macos: bool)
    ensures
        (!mobile_flags(args) || args.android || args.flutter) ==> forall|i: int| 0 <= i < flutter_android_rels().len()
            ==> flutter_targets(args, root, macos).contains(path_join(root, #[trigger] flutter_android_rels()[i])),
        (!mobile_flags(args) || args.ios || args.flutter) && macos ==> forall|i: int| 0 <= i < flutter_ios_rels().len()
            ==> flutter_targets(args, root, macos).contains(path_join(root, #[trigger] flutter_ios_rels()[i])),
        !macos && mobile_flags(args) && !args.android && !args.flutter ==> flutter_targets(args, root, macos).len() == 0,
{
    let t = flutter_targets(args, root, macos);
    let a = if !mobile_flags(args) || args.android || args.flutter { joined_all(root, flutter_android_rels()) } else { Seq::empty() };
    if !mobile_flags(args) || args.android || args.flutter {
        assert forall|i: int| 0 <= i < flutter_android_rels().len()
            implies t.contains(path_join(root, #[trigger] flutter_android_rels()[i])) by {
            assert(t[i] == a[i]);
        }
    }
    if (!mobile_flags(args) || args.ios || args.flutter) && macos {
        assert forall|i: int| 0 <= i < flutter_ios_rels().len()
            implies t.contains(path_join(root, #[trigger] flutter_ios_rels()[i])) by {
            assert(t[a.len() + i] == joined_all(root, flutter_ios_rels())[i]);
        }
    }
}

/// `flutter clean` runs first in the project, without mobile flags or with
/// `--flutter`, and never in a dry run.
pub proof fn lemma_flutter_clean_gated(args: PurgeArgs, root: Seq<char>, dry_run: bool, t: Seq<Call>)
    requires
        flutter_trace(args, root, dry_run, t),
    ensures
        (!mobile_flags(args) || args.flutter) && !dry_run ==> is_flutter_clean(t[0], root),
        dry_run || (mobile_flags(args) && !args.flutter) ==> t[0] is Host,
{
}

} // verus!
