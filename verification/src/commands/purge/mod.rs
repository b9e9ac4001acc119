//! `mdev purge`: delete build outputs and caches of the projects under the
//! current directory, and optionally the machine's global caches.
use vstd::prelude::*;
use crate::app_detector::AppDetector;
use crate::commands::purge::common::{consented_changes, is_consent, lemma_consented_after, lemma_consented_concat, lemma_quiet_consented, lemma_selection_consent, delete_path_verbose, existing_paths, home_or_empty, on_macos, select_paths_to_delete};
use crate::models::{AppInfo, ProjectType};
use crate::paths::{join_path, path_join, path_le, string_views};
use crate::runner::{Level, Runner};
use crate::session::{extends, quiet, reads_only, since, Call, Session};
use crate::text::{cat, chars_of, decimal_text, starts_with, starts_with_chars, str_eq};

pub mod android;
pub mod common;
pub mod extras;
pub mod flutter;
pub mod go;
pub mod ios;
pub mod node;
pub mod python;
pub mod ruby;
pub mod rust;
pub mod worktrees;

verus! {

/// Options of `mdev purge`.
#[derive(Debug, Clone, Copy, Default)]
pub struct PurgeArgs {
    /// Clean Flutter projects
    pub flutter: bool,
    /// Clean pub cache
    pub pub_cache: bool,
    /// Clean Gradle caches
    pub gradle: bool,
    /// Clean Android projects
    pub android: bool,
    /// Clean iOS projects
    pub ios: bool,
    /// Clean Node/frontend projects
    pub node: bool,
    /// Clean Rust/cargo projects
    pub rust: bool,
    /// Clean Go projects
    pub go: bool,
    /// Clean Ruby/Rails projects
    pub ruby: bool,
    /// Clean Python projects
    pub python: bool,
    /// Also clean Node global stores (~/.npm, ~/.pnpm-store, etc.)
    pub node_global: bool,
    /// Also clean ~/.cargo/registry caches (destructive)
    pub rust_global: bool,
    /// Also run `go clean -modcache` and delete go-build cache (destructive)
    pub go_global: bool,
    /// Also clean ~/.bundle/cache and ~/.gem/cache (destructive)
    pub ruby_global: bool,
    /// Also clean pip/uv/poetry/pipenv global caches (destructive)
    pub python_global: bool,
    /// Also delete .venv/venv/env directories under each Python project
    pub python_venv: bool,
    /// Skip the cross-platform "extras" scan
    pub no_extras: bool,
    /// Dry run — show what would be deleted without deleting
    pub dry_run: bool,
    /// Verbose output
    pub verbose: bool,
}

/// `a` lies strictly inside `b`: it starts with `b` and a separator.
pub open spec fn nested_under(a: Seq<char>, b: Seq<char>) -> bool {
    starts_with(a, b.push('/'))
}

/// Whether `a` lies strictly inside `b`; see `nested_under`.
pub fn is_nested_under(a: &str, b: &str) -> (r: bool)
    ensures
        r == nested_under(a@, b@),
{
    let mut bs = chars_of(b);
    bs.push('/');
    starts_with_chars(chars_of(a).as_slice(), bs.as_slice())
}

/// The project at index `i` is kept: its path lies inside no listed path, and
/// no later project lists the same path.
pub open spec fn kept_at(paths: Seq<Seq<char>>, i: int) -> bool {
    &&& forall|j: int| 0 <= j < paths.len() ==> !nested_under(paths[i], #[trigger] paths[j])
    &&& forall|j: int| i < j < paths.len() ==> #[trigger] paths[j] != paths[i]
}

/// A project and its root, by value.
pub open spec fn project_view(p: (AppInfo, String)) -> (AppInfo, Seq<char>) {
    (p.0, p.1@)
}

/// The roots of `projects`.
pub open spec fn project_roots(projects: Seq<(AppInfo, String)>) -> Seq<Seq<char>> {
    projects.map_values(|p: (AppInfo, String)| p.1@)
}

/// The kept projects from index `i` on, in order.
pub open spec fn kept_from(items: Seq<(AppInfo, Seq<char>)>, paths: Seq<Seq<char>>, i: int) -> Seq<(AppInfo, Seq<char>)>
    decreases paths.len() - i,
{
    if 0 <= i < paths.len() {
        if kept_at(paths, i) {
            seq![items[i]] + kept_from(items, paths, i + 1)
        } else {
            kept_from(items, paths, i + 1)
        }
    } else {
        Seq::empty()
    }
}

/// Roots in `Path` order.
pub open spec fn roots_sorted(v: Seq<(AppInfo, Seq<char>)>) -> bool {
    forall|i: int, j: int| 0 <= i < j < v.len() ==> path_le(#[trigger] v[i].1, #[trigger] v[j].1)
}

/// `x` is a kept project of `all` at an index from `lo` on.
pub open spec fn kept_member(ps: Seq<Seq<char>>, all: Seq<(AppInfo, Seq<char>)>, lo: int, x: (AppInfo, Seq<char>)) -> bool {
    exists|j: int| lo <= j < all.len() && kept_at(ps, j) && #[trigger] all[j] == x
}

proof fn lemma_kept_member_from(ps: Seq<Seq<char>>, all: Seq<(AppInfo, Seq<char>)>, lo: int, j: int)
    requires
        lo <= j < all.len(),
        kept_at(ps, j),
    ensures
        kept_member(ps, all, lo, all[j]),
{
}

proof fn lemma_kept_member_lower(ps: Seq<Seq<char>>, all: Seq<(AppInfo, Seq<char>)>, lo: int, x: (AppInfo, Seq<char>))
    requires
        kept_member(ps, all, lo + 1, x),
    ensures
        kept_member(ps, all, lo, x),
{
    let j = choose|j: int| lo + 1 <= j < all.len() && kept_at(ps, j) && #[trigger] all[j] == x;
    lemma_kept_member_from(ps, all, lo, j);
}

/// Whether the project at index `i` of `roots` is kept; see `kept_at`.
fn is_kept(roots: &[String], i: usize) -> (b: bool)
    requires
        i < roots@.len(),
    ensures
        b == kept_at(string_views(roots@), i as int),
{
    let ghost ps = string_views(roots@);
    let mut j: usize = 0;
    while j < roots.len()
        invariant
            i < roots@.len(),
            ps == string_views(roots@),
            forall|k: int| 0 <= k < j ==> !nested_under(ps[i as int], #[trigger] ps[k]),
            forall|k: int| i < k < j ==> #[trigger] ps[k] != ps[i as int],
        decreases roots.len() - j,
    {
        assert(ps[j as int] == roots@[j as int]@ && ps[i as int] == roots@[i as int]@);
        if is_nested_under(roots[i].as_str(), roots[j].as_str()) {
            return false;
        }
        if j > i && str_eq(roots[j].as_str(), roots[i].as_str()) {
            return false;
        }
        j = j + 1;
    }
    true
}

/// `projects` without those whose root lies inside another listed root, and
/// with one entry per root (the last); order is kept.
pub fn without_nested(projects: Vec<(AppInfo, String)>) -> (r: Vec<(AppInfo, String)>)
    ensures
        r@.map_values(|p: (AppInfo, String)| project_view(p)) == kept_from(
            projects@.map_values(|p: (AppInfo, String)| project_view(p)),
            project_roots(projects@),
            0,
        ),
        forall|k: int| 0 <= k < r@.len() ==> kept_member(
            project_roots(projects@),
            projects@.map_values(|p: (AppInfo, String)| project_view(p)),
            0,
            #[trigger] project_view(r@[k]),
        ),
        roots_sorted(projects@.map_values(|p: (AppInfo, String)| project_view(p))) ==> roots_sorted(
            r@.map_values(|p: (AppInfo, String)| project_view(p)),
        ),
{
    let ghost all = projects@.map_values(|p: (AppInfo, String)| project_view(p));
    let ghost ps = project_roots(projects@);
    let mut roots: Vec<String> = Vec::new();
    let mut i: usize = 0;
    while i < projects.len()
        invariant
            i <= projects@.len(),
            string_views(roots@) == ps.take(i as int),
            ps == project_roots(projects@),
        decreases projects.len() - i,
    {
        let ghost before = roots@;
        roots.push(projects[i].1.clone());
        assert(string_views(roots@) =~= string_views(before).push(projects@[i as int].1@));
        assert(ps.take(i + 1) =~= ps.take(i as int).push(ps[i as int]));
        i = i + 1;
    }
    assert(ps.take(projects@.len() as int) =~= ps);
    let ghost n = projects@.len();
    let ghost orig = projects@;
    let mut rest = projects;
    let mut out: Vec<(AppInfo, String)> = Vec::new();
    assert(rest@.map_values(|p: (AppInfo, String)| project_view(p)) =~= all.take(n as int));
    while rest.len() > 0
        invariant
            rest@.len() <= n,
            n == all.len(),
            n == ps.len(),
            all == orig.map_values(|p: (AppInfo, String)| project_view(p)),
            ps == project_roots(orig),
            string_views(roots@) == ps,
            forall|k: int| 0 <= k < rest@.len() ==> project_view(#[trigger] rest@[k]) == all[k],
            out@.map_values(|p: (AppInfo, String)| project_view(p)) == kept_from(all, ps, rest@.len() as int),
            forall|k: int| 0 <= k < out@.len() ==> kept_member(ps, all, rest@.len() as int, #[trigger] project_view(out@[k])),
            roots_sorted(all) ==> roots_sorted(out@.map_values(|p: (AppInfo, String)| project_view(p))),
        decreases rest.len(),
    {
        let ghost old_out = out@;
        let item = rest.pop().unwrap();
        let idx = rest.len();
        assert(project_view(item) == all[idx as int]);
        assert(all[idx as int].1 == ps[idx as int]);
        if is_kept(roots.as_slice(), idx) {
            out.insert(0, item);
            proof {
                let ov = out@.map_values(|p: (AppInfo, String)| project_view(p));
                let prev = old_out.map_values(|p: (AppInfo, String)| project_view(p));
                assert(ov =~= seq![all[idx as int]] + prev);
                assert forall|k: int| 0 <= k < out@.len() implies kept_member(ps, all, idx as int, #[trigger] project_view(out@[k])) by {
                    if k == 0 {
                        assert(project_view(out@[0]) == all[idx as int]);
                        lemma_kept_member_from(ps, all, idx as int, idx as int);
                    } else {
                        assert(out@[k] == old_out[k - 1]);
                        assert(kept_member(ps, all, idx + 1, project_view(old_out[k - 1])));
                        lemma_kept_member_lower(ps, all, idx as int, project_view(old_out[k - 1]));
                    }
                }
                if roots_sorted(all) {
                    assert forall|a: int, b: int| 0 <= a < b < ov.len() implies path_le(#[trigger] ov[a].1, #[trigger] ov[b].1) by {
                        if a == 0 {
                            assert(ov[b] == prev[b - 1]);
                            assert(old_out[b - 1] == out@[b]);
                            assert(kept_member(ps, all, idx + 1, project_view(old_out[b - 1])));
                            let j = choose|j: int| idx + 1 <= j < all.len() && kept_at(ps, j) && #[trigger] all[j] == project_view(old_out[b - 1]);
                            assert(path_le(all[idx as int].1, all[j].1));
                        } else {
                            assert(ov[a] == prev[a - 1] && ov[b] == prev[b - 1]);
                        }
                    }
                }
            }
        } else {
            proof {
                assert forall|k: int| 0 <= k < out@.len() implies kept_member(ps, all, idx as int, #[trigger] project_view(out@[k])) by {
                    lemma_kept_member_lower(ps, all, idx as int, project_view(out@[k]));
                }
            }
        }
    }
    assert forall|k: int| 0 <= k < out@.len() implies kept_member(ps, all, 0, #[trigger] project_view(out@[k])) by {
        assert(kept_member(ps, all, 0, project_view(out@[k])));
    }
    out
}

/// Every project under `start_dir` for purge: discovery downward only, then
/// no project whose root lies inside another found root, in path order.
pub fn collect_projects<R: Runner>(runner: &mut Session<R>, start_dir: &str) -> (r: Vec<(AppInfo, String)>)
    ensures
        reads_only(old(runner).calls(), final(runner).calls()),
        roots_sorted(r@.map_values(|p: (AppInfo, String)| project_view(p))),
        forall|i: int, j: int| 0 <= i < r@.len() && 0 <= j < r@.len() ==> !nested_under(
            #[trigger] r@[i].1@,
            #[trigger] r@[j].1@,
        ),
        forall|i: int| 0 <= i < r@.len() ==> (#[trigger] r@[i]).0.project_type != ProjectType::Unknown,
        forall|i: int| 0 <= i < r@.len() ==> crate::app_detector::entry_classified(since(old(runner).calls(), final(runner).calls()), #[trigger] r@[i]),
{
    let found = AppDetector::new().discover_projects(runner, start_dir);
    let ghost fv = found@;
    assert(roots_sorted(found@.map_values(|p: (AppInfo, String)| project_view(p)))) by {
        let v = found@.map_values(|p: (AppInfo, String)| project_view(p));
        assert forall|a: int, b: int| 0 <= a < b < v.len() implies path_le(#[trigger] v[a].1, #[trigger] v[b].1) by {
            assert(v[a].1 == found@[a].1@ && v[b].1 == found@[b].1@);
        }
    }
    let r = without_nested(found);
    proof {
        let ps = project_roots(fv);
        assert forall|i: int, j: int| 0 <= i < r@.len() && 0 <= j < r@.len() implies !nested_under(
            #[trigger] r@[i].1@,
            #[trigger] r@[j].1@,
        ) by {
            let all = fv.map_values(|p: (AppInfo, String)| project_view(p));
            assert(kept_member(ps, all, 0, project_view(r@[i])));
            assert(kept_member(ps, all, 0, project_view(r@[j])));
            let a = choose|a: int| 0 <= a < all.len() && kept_at(ps, a) && #[trigger] all[a] == project_view(r@[i]);
            let b = choose|b: int| 0 <= b < all.len() && kept_at(ps, b) && #[trigger] all[b] == project_view(r@[j]);
            assert(ps[a] == fv[a].1@ && ps[b] == fv[b].1@);
            assert(all[a] == project_view(fv[a]) && all[b] == project_view(fv[b]));
        }
        assert forall|i: int| 0 <= i < r@.len() implies (#[trigger] r@[i]).0.project_type != ProjectType::Unknown by {
            let all = fv.map_values(|p: (AppInfo, String)| project_view(p));
            assert(kept_member(ps, all, 0, project_view(r@[i])));
            let a = choose|a: int| 0 <= a < all.len() && kept_at(ps, a) && #[trigger] all[a] == project_view(r@[i]);
            assert(all[a] == project_view(fv[a]));
            assert(fv[a].0.project_type != ProjectType::Unknown);
        }
        assert forall|i: int| 0 <= i < r@.len() implies crate::app_detector::entry_classified(since(old(runner).calls(), runner.calls()), #[trigger] r@[i]) by {
            let all = fv.map_values(|p: (AppInfo, String)| project_view(p));
            assert(kept_member(ps, all, 0, project_view(r@[i])));
            let a = choose|a: int| 0 <= a < all.len() && kept_at(ps, a) && #[trigger] all[a] == project_view(r@[i]);
            assert(all[a] == project_view(fv[a]));
            assert(crate::app_detector::entry_classified(since(old(runner).calls(), runner.calls()), fv[a]));
        }
    }
    r
}

/// Some project-type flag was given; then only the matching cleaners run.
pub open spec fn explicit_flags(args: PurgeArgs) -> bool {
    args.flutter || args.pub_cache || args.gradle || args.android || args.ios || args.node || args.rust || args.go
        || args.ruby || args.python
}

/// Whether some project-type flag was given; see `explicit_flags`.
pub fn has_explicit_flags(args: &PurgeArgs) -> (b: bool)
    ensures
        b == explicit_flags(*args),
{
    args.flutter || args.pub_cache || args.gradle || args.android || args.ios || args.node || args.rust || args.go
        || args.ruby || args.python
}

/// Whether the cleaner of a project of type `t` runs: without project-type
/// flags every cleaner runs; with flags, the matching ones (a Flutter project
/// also for `--android` and `--ios`).
pub open spec fn cleaner_runs(args: PurgeArgs, t: ProjectType) -> bool {
    let all = !explicit_flags(args);
    match t {
        ProjectType::Flutter => all || args.flutter || args.android || args.ios,
        ProjectType::Android => all || args.android,
        ProjectType::Ios => all || args.ios,
        ProjectType::Node { .. } => all || args.node,
        ProjectType::Rust => all || args.rust,
        ProjectType::Go => all || args.go,
        ProjectType::Ruby { .. } => all || args.ruby,
        ProjectType::Python { .. } => all || args.python,
        ProjectType::Unknown => false,
    }
}

/// Without project-type flags every detected project is cleaned; a flag
/// cleans the projects of its type (and `--android` / `--ios` also Flutter
/// projects); a project of a type no flag names is left alone when flags are
/// given; and an unknown directory is never cleaned this way.
pub proof fn lemma_cleaner_selection(args: PurgeArgs, t: ProjectType)
    ensures
        !explicit_flags(args) && t != ProjectType::Unknown ==> cleaner_runs(args, t),
        t == ProjectType::Unknown ==> !cleaner_runs(args, t),
        args.flutter && t == ProjectType::Flutter ==> cleaner_runs(args, t),
        (args.android || args.ios) && t == ProjectType::Flutter ==> cleaner_runs(args, t),
        args.android && t == ProjectType::Android ==> cleaner_runs(args, t),
        args.ios && t == ProjectType::Ios ==> cleaner_runs(args, t),
        args.node && t is Node ==> cleaner_runs(args, t),
        args.rust && t == ProjectType::Rust ==> cleaner_runs(args, t),
        args.go && t == ProjectType::Go ==> cleaner_runs(args, t),
        args.ruby && t is Ruby ==> cleaner_runs(args, t),
        args.python && t is Python ==> cleaner_runs(args, t),
        explicit_flags(args) && !args.rust && t == ProjectType::Rust ==> !cleaner_runs(args, t),
        explicit_flags(args) && !args.go && t == ProjectType::Go ==> !cleaner_runs(args, t),
        explicit_flags(args) && !args.node && t is Node ==> !cleaner_runs(args, t),
        explicit_flags(args) && !args.python && t is Python ==> !cleaner_runs(args, t),
        explicit_flags(args) && !args.ruby && t is Ruby ==> !cleaner_runs(args, t),
{
}

/// Whether the cleaner of a project of type `t` runs; see `cleaner_runs`.
pub fn runs_cleaner(args: &PurgeArgs, t: ProjectType) -> (b: bool)
    ensures
        b == cleaner_runs(*args, t),
{
    let all = !has_explicit_flags(args);
    match t {
        ProjectType::Flutter => all || args.flutter || args.android || args.ios,
        ProjectType::Android => all || args.android,
        ProjectType::Ios => all || args.ios,
        ProjectType::Node { .. } => all || args.node,
        ProjectType::Rust => all || args.rust,
        ProjectType::Go => all || args.go,
        ProjectType::Ruby { .. } => all || args.ruby,
        ProjectType::Python { .. } => all || args.python,
        ProjectType::Unknown => false,
    }
}

/// Which global caches are offered.
#[derive(Debug, Clone, Copy, PartialEq, Eq, Structural)]
pub struct GlobalPlan {
    /// `~/.pub-cache`
    pub pub_cache: bool,
    /// The Flutter SDKs' `bin/cache` directories.
    pub flutter_sdk: bool,
    /// Gradle's caches, wrapper distributions and daemons, and `~/.kotlin`.
    pub gradle: bool,
    /// Xcode's DerivedData.
    pub derived_data: bool,
    /// CocoaPods' cache.
    pub pod_cache: bool,
}

/// The global caches offered. Flutter's (pub and SDK caches) are offered even
/// when no Flutter project was found; without flags Gradle's follow Android
/// projects and Xcode's iOS ones; Xcode's only on macOS.
pub open spec fn global_plan_of(args: PurgeArgs, has_android: bool, has_ios: bool, macos: bool) -> GlobalPlan {
    let explicit = explicit_flags(args);
    GlobalPlan {
        pub_cache: if explicit { args.pub_cache || args.flutter } else { true },
        flutter_sdk: if explicit { args.flutter } else { true },
        gradle: if explicit { args.gradle } else { has_android },
        derived_data: (if explicit { args.ios } else { has_ios }) && macos,
        pod_cache: (if explicit { args.ios } else { has_ios }) && macos,
    }
}

/// The global caches offered; see `global_plan_of`.
pub fn global_plan(args: &PurgeArgs, has_android: bool, has_ios: bool, macos: bool) -> (p: GlobalPlan)
    ensures
        p == global_plan_of(*args, has_android, has_ios, macos),
{
    let explicit = has_explicit_flags(args);
    let ios_side = if explicit { args.ios } else { has_ios };
    GlobalPlan {
        pub_cache: if explicit { args.pub_cache || args.flutter } else { true },
        flutter_sdk: if explicit { args.flutter } else { true },
        gradle: if explicit { args.gradle } else { has_android },
        derived_data: ios_side && macos,
        pod_cache: ios_side && macos,
    }
}

/// Some project is Android or Flutter.
pub open spec fn has_android_side(projects: Seq<(AppInfo, String)>) -> bool {
    exists|i: int| 0 <= i < projects.len() && (#[trigger] projects[i].0.project_type == ProjectType::Android
        || projects[i].0.project_type == ProjectType::Flutter)
}

/// Some project is iOS or Flutter.
pub open spec fn has_ios_side(projects: Seq<(AppInfo, String)>) -> bool {
    exists|i: int| 0 <= i < projects.len() && (#[trigger] projects[i].0.project_type == ProjectType::Ios
        || projects[i].0.project_type == ProjectType::Flutter)
}

/// Whether some project has an Android side, and whether some has an iOS side.
pub fn mobile_sides(projects: &[(AppInfo, String)]) -> (r: (bool, bool))
    ensures
        r.0 == has_android_side(projects@),
        r.1 == has_ios_side(projects@),
{
    let mut android = false;
    let mut ios = false;
    let mut i: usize = 0;
    while i < projects.len()
        invariant
            i <= projects@.len(),
            android == exists|k: int| 0 <= k < i && (#[trigger] projects@[k].0.project_type == ProjectType::Android
                || projects@[k].0.project_type == ProjectType::Flutter),
            ios == exists|k: int| 0 <= k < i && (#[trigger] projects@[k].0.project_type == ProjectType::Ios
                || projects@[k].0.project_type == ProjectType::Flutter),
        decreases projects.len() - i,
    {
        let t = projects[i].0.project_type;
        if t == ProjectType::Android || t == ProjectType::Flutter {
            android = true;
        }
        if t == ProjectType::Ios || t == ProjectType::Flutter {
            ios = true;
        }
        i = i + 1;
    }
    (android, ios)
}

/// The global cache paths of `plan`, in the order they are listed.
pub open spec fn global_paths_of(home: Seq<char>, gradle_home: Seq<char>, sdk_caches: Seq<Seq<char>>, plan: GlobalPlan) -> Seq<Seq<char>> {
    (if plan.pub_cache { seq![path_join(home, ".pub-cache"@)] } else { Seq::empty() })
        + (if plan.flutter_sdk { sdk_caches } else { Seq::empty() })
        + (if plan.gradle {
        seq![
            path_join(gradle_home, "caches"@),
            path_join(gradle_home, "wrapper/dists"@),
            path_join(gradle_home, "daemon"@),
            path_join(home, ".kotlin"@),
        ]
    } else {
        Seq::empty()
    }) + (if plan.derived_data {
        seq![path_join(home, "Library/Developer/Xcode/DerivedData"@)]
    } else {
        Seq::empty()
    }) + (if plan.pod_cache {
        seq![path_join(home, "Library/Caches/CocoaPods"@)]
    } else {
        Seq::empty()
    })
}

/// The global cache paths of `plan`; see `global_paths_of`.
pub fn global_paths(home: &str, gradle_home: &str, sdk_caches: &[String], plan: GlobalPlan) -> (r: Vec<String>)
    ensures
        string_views(r@) == global_paths_of(home@, gradle_home@, string_views(sdk_caches@), plan),
{
    let ghost sv = string_views(sdk_caches@);
    let mut out: Vec<String> = Vec::new();
    let ghost p1: Seq<Seq<char>> = if plan.pub_cache { seq![path_join(home@, ".pub-cache"@)] } else { Seq::empty() };
    if plan.pub_cache {
        out.push(join_path(home, ".pub-cache"));
    }
    assert(string_views(out@) =~= p1);
    let ghost p2: Seq<Seq<char>> = if plan.flutter_sdk { sv } else { Seq::empty() };
    if plan.flutter_sdk {
        let mut i: usize = 0;
        while i < sdk_caches.len()
            invariant
                i <= sdk_caches@.len(),
                sv == string_views(sdk_caches@),
                string_views(out@) == p1 + sv.take(i as int),
            decreases sdk_caches.len() - i,
        {
            let ghost before = out@;
            out.push(sdk_caches[i].clone());
            assert(string_views(out@) =~= string_views(before).push(sv[i as int]));
            assert(sv.take(i + 1) =~= sv.take(i as int).push(sv[i as int]));
            i = i + 1;
        }
        assert(sv.take(sdk_caches@.len() as int) =~= sv);
    }
    assert(string_views(out@) =~= p1 + p2);
    let ghost before3 = string_views(out@);
    if plan.gradle {
        out.push(join_path(gradle_home, "caches"));
        out.push(join_path(gradle_home, "wrapper/dists"));
        out.push(join_path(gradle_home, "daemon"));
        out.push(join_path(home, ".kotlin"));
    }
    let ghost p3: Seq<Seq<char>> = if plan.gradle {
        seq![
            path_join(gradle_home@, "caches"@),
            path_join(gradle_home@, "wrapper/dists"@),
            path_join(gradle_home@, "daemon"@),
            path_join(home@, ".kotlin"@),
        ]
    } else {
        Seq::empty()
    };
    assert(string_views(out@) =~= before3 + p3);
    let ghost before4 = string_views(out@);
    if plan.derived_data {
        out.push(join_path(home, "Library/Developer/Xcode/DerivedData"));
    }
    let ghost p4: Seq<Seq<char>> = if plan.derived_data {
        seq![path_join(home@, "Library/Developer/Xcode/DerivedData"@)]
    } else {
        Seq::empty()
    };
    assert(string_views(out@) =~= before4 + p4);
    let ghost before5 = string_views(out@);
    if plan.pod_cache {
        out.push(join_path(home, "Library/Caches/CocoaPods"));
    }
    let ghost p5: Seq<Seq<char>> = if plan.pod_cache {
        seq![path_join(home@, "Library/Caches/CocoaPods"@)]
    } else {
        Seq::empty()
    };
    assert(string_views(out@) =~= before5 + p5);
    assert(global_paths_of(home@, gradle_home@, sv, plan) =~= p1 + p2 + p3 + p4 + p5);
    out
}

/// The global caches each plan entry offers: `~/.pub-cache` for pub, every
/// SDK cache for the Flutter SDKs, Gradle's caches, wrapper distributions and
/// daemons (under the Gradle home) with `~/.kotlin` for Gradle, Xcode's
/// DerivedData and CocoaPods' cache; and nothing for an entry that is off.
pub proof fn lemma_global_paths_offered(home: Seq<char>, gradle_home: Seq<char>, sdk_caches: Seq<Seq<char>>, plan: GlobalPlan)
    ensures
        plan.pub_cache ==> global_paths_of(home, gradle_home, sdk_caches, plan)[0] == path_join(home, ".pub-cache"@),
        plan.flutter_sdk ==> forall|i: int| 0 <= i < sdk_caches.len()
            ==> global_paths_of(home, gradle_home, sdk_caches, plan).contains(#[trigger] sdk_caches[i]),
        plan.gradle ==> global_paths_of(home, gradle_home, sdk_caches, plan).contains(path_join(gradle_home, "caches"@)),
        plan.gradle ==> global_paths_of(home, gradle_home, sdk_caches, plan).contains(path_join(gradle_home, "wrapper/dists"@)),
        plan.gradle ==> global_paths_of(home, gradle_home, sdk_caches, plan).contains(path_join(gradle_home, "daemon"@)),
        plan.gradle ==> global_paths_of(home, gradle_home, sdk_caches, plan).contains(path_join(home, ".kotlin"@)),
        plan.derived_data ==> global_paths_of(home, gradle_home, sdk_caches, plan).contains(
            path_join(home, "Library/Developer/Xcode/DerivedData"@),
        ),
        plan.pod_cache ==> global_paths_of(home, gradle_home, sdk_caches, plan).contains(path_join(home, "Library/Caches/CocoaPods"@)),
        !plan.pub_cache && !plan.flutter_sdk && !plan.gradle && !plan.derived_data && !plan.pod_cache
            ==> global_paths_of(home, gradle_home, sdk_caches, plan).len() == 0,
{
    let p1: Seq<Seq<char>> = if plan.pub_cache { seq![path_join(home, ".pub-cache"@)] } else { Seq::empty() };
    let p2: Seq<Seq<char>> = if plan.flutter_sdk { sdk_caches } else { Seq::empty() };
    let p3: Seq<Seq<char>> = if plan.gradle {
        seq![path_join(gradle_home, "caches"@), path_join(gradle_home, "wrapper/dists"@), path_join(gradle_home, "daemon"@), path_join(home, ".kotlin"@)]
    } else {
        Seq::empty()
    };
    let p4: Seq<Seq<char>> = if plan.derived_data { seq![path_join(home, "Library/Developer/Xcode/DerivedData"@)] } else { Seq::empty() };
    let p5: Seq<Seq<char>> = if plan.pod_cache { seq![path_join(home, "Library/Caches/CocoaPods"@)] } else { Seq::empty() };
    let g = global_paths_of(home, gradle_home, sdk_caches, plan);
    assert(g =~= p1 + p2 + p3 + p4 + p5);
    let o3: int = (p1.len() + p2.len()) as int;
    let o4: int = o3 + p3.len();
    let o5: int = o4 + p4.len();
    if plan.pub_cache {
        assert(g[0] == p1[0]);
    }
    if plan.flutter_sdk {
        assert forall|i: int| 0 <= i < sdk_caches.len() implies g.contains(#[trigger] sdk_caches[i]) by {
            assert(g[p1.len() + i] == p2[i]);
        }
    }
    if plan.gradle {
        assert(g[o3] == p3[0] && g[o3 + 1] == p3[1] && g[o3 + 2] == p3[2] && g[o3 + 3] == p3[3]);
    }
    if plan.derived_data {
        assert(g[o4] == p4[0]);
    }
    if plan.pod_cache {
        assert(g[o5] == p5[0]);
    }
}

/// Which global caches are offered: with project-type flags, exactly those
/// the flags name (pub's for `--pub-cache` or `--flutter`, the SDKs' for
/// `--flutter`, Gradle's for `--gradle`, Xcode's and CocoaPods' for `--ios`);
/// without them, Flutter's always, Gradle's when an Android side was found
/// and Xcode's and CocoaPods' when an iOS side was; Xcode's and CocoaPods'
/// only on macOS.
pub proof fn lemma_global_plan_choice(args: PurgeArgs, has_android: bool, has_ios: bool, macos: bool)
    ensures
        ({
            let p = global_plan_of(args, has_android, has_ios, macos);
            &&& !explicit_flags(args) ==> p.pub_cache && p.flutter_sdk && p.gradle == has_android
                && p.derived_data == (has_ios && macos) && p.pod_cache == (has_ios && macos)
            &&& explicit_flags(args) ==> p.pub_cache == (args.pub_cache || args.flutter) && p.flutter_sdk == args.flutter
                && p.gradle == args.gradle && p.derived_data == (args.ios && macos) && p.pod_cache == (args.ios && macos)
            &&& !macos ==> !p.derived_data && !p.pod_cache
        }),
{
}

/// Where Flutter SDK versions are installed: `<FVM_CACHE_PATH>/versions` when
/// that is set, FVM's default homes, and asdf's.
pub open spec fn sdk_version_roots_of(home: Seq<char>, fvm_cache: Option<Seq<char>>) -> Seq<Seq<char>> {
    (match fvm_cache {
        Some(c) => seq![path_join(c, "versions"@)],
        None => Seq::empty(),
    }) + seq![path_join(home, "fvm/versions"@), path_join(home, ".fvm/versions"@), path_join(home, ".asdf/installs/flutter"@)]
}

/// Where Flutter SDK versions are installed; see `sdk_version_roots_of`.
pub fn sdk_version_roots(home: &str, fvm_cache: Option<&str>) -> (r: Vec<String>)
    ensures
        string_views(r@) == sdk_version_roots_of(home@, match fvm_cache {
            Some(c) => Some(c@),
            None => None,
        }),
{
    let mut out: Vec<String> = Vec::new();
    if let Some(c) = fvm_cache {
        out.push(join_path(c, "versions"));
    }
    out.push(join_path(home, "fvm/versions"));
    out.push(join_path(home, ".fvm/versions"));
    out.push(join_path(home, ".asdf/installs/flutter"));
    assert(string_views(out@) =~= sdk_version_roots_of(home@, match fvm_cache {
        Some(c) => Some(c@),
        None => None,
    }));
    out
}

/// Index `i` holds the first occurrence of its key.
pub open spec fn first_of_key(keys: Seq<Seq<char>>, i: int) -> bool {
    forall|j: int| 0 <= j < i ==> #[trigger] keys[j] != keys[i]
}

/// The items of the first `n` indices whose key has not come before.
pub open spec fn firsts_by_key(items: Seq<Seq<char>>, keys: Seq<Seq<char>>, n: int) -> Seq<Seq<char>>
    decreases n,
{
    if n <= 0 {
        Seq::empty()
    } else if first_of_key(keys, n - 1) {
        firsts_by_key(items, keys, n - 1).push(items[n - 1])
    } else {
        firsts_by_key(items, keys, n - 1)
    }
}

/// `paths` without each path whose key (its `keys` entry) an earlier path had.
pub fn dedupe_by_key(paths: &[String], keys: &[String]) -> (r: Vec<String>)
    requires
        paths@.len() == keys@.len(),
    ensures
        string_views(r@) == firsts_by_key(string_views(paths@), string_views(keys@), paths@.len() as int),
{
    let ghost pv = string_views(paths@);
    let ghost kv = string_views(keys@);
    let mut out: Vec<String> = Vec::new();
    let mut i: usize = 0;
    while i < paths.len()
        invariant
            i <= paths@.len(),
            paths@.len() == keys@.len(),
            pv == string_views(paths@),
            kv == string_views(keys@),
            string_views(out@) == firsts_by_key(pv, kv, i as int),
        decreases paths.len() - i,
    {
        let mut first = true;
        let mut j: usize = 0;
        while j < i
            invariant
                j <= i < keys@.len(),
                kv == string_views(keys@),
                first == forall|k: int| 0 <= k < j ==> #[trigger] kv[k] != kv[i as int],
            decreases i - j,
        {
            assert(kv[j as int] == keys@[j as int]@ && kv[i as int] == keys@[i as int]@);
            if str_eq(keys[j].as_str(), keys[i].as_str()) {
                first = false;
            }
            j = j + 1;
        }
        if first {
            let ghost before = out@;
            out.push(paths[i].clone());
            assert(string_views(out@) =~= string_views(before).push(pv[i as int]));
        }
        i = i + 1;
    }
    out
}

/// `p` names a Flutter SDK cache: a directory joined with `bin/cache`, or a
/// `bin` directory joined with `cache`.
pub open spec fn sdk_cache_path(p: Seq<char>) -> bool {
    exists|d: Seq<char>|
        #![trigger crate::paths::path_join(d, "bin/cache"@)]
        #![trigger crate::paths::path_join(d, "cache"@)]
        p == crate::paths::path_join(d, "bin/cache"@) || p == crate::paths::path_join(d, "cache"@)
}

/// `p` is the given active cache, or a Flutter SDK cache path.
pub open spec fn listed_cache(active: Option<String>, p: Seq<char>) -> bool {
    (active matches Some(a) && p == a@) || sdk_cache_path(p)
}

proof fn lemma_firsts_by_key_from(items: Seq<Seq<char>>, keys: Seq<Seq<char>>, n: int, k: int)
    requires
        0 <= k < firsts_by_key(items, keys, n).len(),
    ensures
        exists|i: int| 0 <= i < n && firsts_by_key(items, keys, n)[k] == #[trigger] items[i],
    decreases n,
{
    if n > 0 {
        let prev = firsts_by_key(items, keys, n - 1);
        if first_of_key(keys, n - 1) {
            if k < prev.len() {
                lemma_firsts_by_key_from(items, keys, n - 1, k);
                assert(firsts_by_key(items, keys, n)[k] == prev[k]);
            } else {
                assert(firsts_by_key(items, keys, n)[k] == items[n - 1]);
            }
        } else {
            lemma_firsts_by_key_from(items, keys, n - 1, k);
        }
    }
}

/// Every Flutter SDK `bin/cache` under the version roots, after `active`
/// (listed first when given), without those whose canonical path came before.
pub fn collect_flutter_sdk_caches<R: Runner>(runner: &mut Session<R>, active: Option<String>, version_roots: &[String]) -> (r: Vec<String>)
    ensures
        reads_only(old(runner).calls(), final(runner).calls()),
        active is Some ==> r@.len() > 0 && r@[0]@ == active->0@,
        forall|k: int| 0 <= k < r@.len() ==> listed_cache(active, #[trigger] r@[k]@),
{
    let mut out: Vec<String> = Vec::new();
    let ghost a = active;
    if let Some(p) = active {
        out.push(p);
    }
    let mut i: usize = 0;
    while i < version_roots.len()
        invariant
            reads_only(old(runner).calls(), runner.calls()),
            a is Some ==> out@.len() > 0 && out@[0]@ == a->0@,
            forall|k: int| 0 <= k < out@.len() ==> listed_cache(a, #[trigger] out@[k]@),
        decreases version_roots.len() - i,
    {
        if let Some(entries) = runner.dir_entries(version_roots[i].as_str()) {
            let mut k: usize = 0;
            while k < entries.len()
                invariant
                    reads_only(old(runner).calls(), runner.calls()),
                    i < version_roots@.len(),
                    a is Some ==> out@.len() > 0 && out@[0]@ == a->0@,
                    forall|k: int| 0 <= k < out@.len() ==> listed_cache(a, #[trigger] out@[k]@),
                decreases entries.len() - k,
            {
                let version = join_path(version_roots[i].as_str(), entries[k].name.as_str());
                let cache = join_path(version.as_str(), "bin/cache");
                if runner.path_exists(cache.as_str()) {
                    assert(sdk_cache_path(cache@)) by {
                        assert(cache@ == crate::paths::path_join(version@, "bin/cache"@));
                    }
                    out.push(cache);
                }
                k = k + 1;
            }
        }
        i = i + 1;
    }
    let mut keys: Vec<String> = Vec::new();
    let mut j: usize = 0;
    while j < out.len()
        invariant
            reads_only(old(runner).calls(), runner.calls()),
            j <= out@.len(),
            keys@.len() == j,
        decreases out.len() - j,
    {
        let key = match runner.canonicalize(out[j].as_str()) {
            Some(c) => c,
            None => out[j].clone(),
        };
        keys.push(key);
        j = j + 1;
    }
    let r = dedupe_by_key(out.as_slice(), keys.as_slice());
    proof {
        if a is Some {
            let pv = string_views(out@);
            let kv = string_views(keys@);
            lemma_firsts_by_key_head(pv, kv, out@.len() as int);
            assert(pv[0] == out@[0]@);
            assert(string_views(r@)[0] == r@[0]@);
        }
        assert forall|k: int| 0 <= k < r@.len() implies listed_cache(active, #[trigger] r@[k]@) by {
            let pv = string_views(out@);
            let kv = string_views(keys@);
            assert(string_views(r@)[k] == r@[k]@);
            lemma_firsts_by_key_from(pv, kv, out@.len() as int, k);
            let i = choose|i: int| 0 <= i < out@.len() && firsts_by_key(pv, kv, out@.len() as int)[k] == #[trigger] pv[i];
            assert(pv[i] == out@[i]@);
        }
    }
    r
}

proof fn lemma_firsts_by_key_head(items: Seq<Seq<char>>, keys: Seq<Seq<char>>, n: int)
    requires
        1 <= n,
    ensures
        firsts_by_key(items, keys, n).len() > 0,
        firsts_by_key(items, keys, n)[0] == items[0],
    decreases n,
{
    if n > 1 {
        lemma_firsts_by_key_head(items, keys, n - 1);
        let prev = firsts_by_key(items, keys, n - 1);
        if first_of_key(keys, n - 1) {
            assert(firsts_by_key(items, keys, n) == prev.push(items[n - 1]));
            assert(prev.push(items[n - 1])[0] == prev[0]);
        } else {
            assert(firsts_by_key(items, keys, n) == prev);
        }
    } else {
        assert(first_of_key(keys, 0));
        assert(firsts_by_key(items, keys, 0) == Seq::<Seq<char>>::empty());
        assert(firsts_by_key(items, keys, 1) == Seq::<Seq<char>>::empty().push(items[0]));
    }
}

/// The active SDK's `bin/cache`: under `$FLUTTER_ROOT` when that exists, else
/// beside the `flutter` executable that `PATH` resolves, when that exists.
fn active_flutter_sdk_cache<R: Runner>(runner: &mut Session<R>) -> (r: Option<String>)
    ensures
        reads_only(old(runner).calls(), final(runner).calls()),
        r matches Some(p) ==> sdk_cache_path(p@),
{
    if let Some(root) = runner.env_var("FLUTTER_ROOT") {
        let p = join_path(root.as_str(), "bin/cache");
        if runner.path_exists(p.as_str()) {
            assert(p@ == crate::paths::path_join(root@, "bin/cache"@));
            return Some(p);
        }
    }
    let flutter_bin = runner.which("flutter")?;
    let resolved = runner.canonicalize(flutter_bin.as_str())?;
    let bin_dir = crate::paths::parent_of(resolved.as_str())?;
    let cache = join_path(bin_dir.as_str(), "cache");
    if runner.path_exists(cache.as_str()) {
        assert(cache@ == crate::paths::path_join(bin_dir@, "cache"@));
        Some(cache)
    } else {
        None
    }
}

/// Every Flutter SDK `bin/cache` worth cleaning: the active SDK's, and those of
/// the FVM- and asdf-managed versions, one per canonical path.
pub fn locate_flutter_sdk_caches<R: Runner>(runner: &mut Session<R>) -> (r: Vec<String>)
    ensures
        reads_only(old(runner).calls(), final(runner).calls()),
        forall|k: int| 0 <= k < r@.len() ==> sdk_cache_path(#[trigger] r@[k]@),
{
    let home = home_or_empty(runner);
    let fvm = runner.env_var("FVM_CACHE_PATH");
    let roots = match &fvm {
        Some(c) => sdk_version_roots(home.as_str(), Some(c.as_str())),
        None => sdk_version_roots(home.as_str(), None),
    };
    let active = active_flutter_sdk_cache(runner);
    collect_flutter_sdk_caches(runner, active, roots.as_slice())
}

/// What cleaning the project of type `pt` at `root` asks (`t`): the requests
/// of that type's cleaner. Those of the Ruby and Python cleaners are not
/// described here.
pub open spec fn cleaner_trace(args: PurgeArgs, pt: ProjectType, root: Seq<char>, t: Seq<Call>) -> bool {
    match pt {
        ProjectType::Flutter => flutter::flutter_trace(args, root, args.dry_run, t),
        ProjectType::Android => common::deletes_trace(android::android_targets(args, root), common::EntryKind::Dir, args.dry_run, t),
        ProjectType::Ios => t.len() >= 1 && t[0] is Host && common::deletes_trace(
            ios::ios_targets(args, root, common::is_mac_reply(t[0])),
            common::EntryKind::Dir,
            args.dry_run,
            t.skip(1),
        ),
        ProjectType::Node { .. } => common::deletes_trace(common::joined_all(root, node::node_cache_rels()), common::EntryKind::Dir, args.dry_run, t),
        ProjectType::Rust => common::delete_trace(path_join(root, "target"@), common::EntryKind::Dir, args.dry_run, t),
        ProjectType::Go => go::go_trace(root, args.dry_run, t),
        ProjectType::Ruby { .. } => true,
        ProjectType::Python { .. } => true,
        ProjectType::Unknown => t.len() == 0,
    }
}

/// The first requests made for one project: its cleaner's when the flags run
/// it, none otherwise.
pub open spec fn cleaner_part(args: PurgeArgs, pt: ProjectType, root: Seq<char>, c: Seq<Call>) -> bool {
    if cleaner_runs(args, pt) {
        cleaner_trace(args, pt, root, c)
    } else {
        c.len() == 0
    }
}

/// The requests made for one project (`seg`) begin with its cleaner part; the
/// extras and worktree steps follow.
pub open spec fn project_purged(args: PurgeArgs, pt: ProjectType, root: Seq<char>, seg: Seq<Call>) -> bool {
    exists|k: int| 0 <= k <= seg.len() && #[trigger] cleaner_part(args, pt, root, seg.take(k))
}

/// What `purge` asks (`t`): after the discovery of the projects (the first `n`
/// requests, which classified each project as its type) and the host question
/// (up to `p`), one group of requests per project, in order, each beginning
/// with its cleaner's; then the global caches (from `g` on, right after the
/// groups when there are projects), where nothing changes the disk before an
/// answer that agreed to deleting.
pub open spec fn purge_by(
    args: PurgeArgs,
    t: Seq<Call>,
    n: int,
    p: int,
    g: int,
    projects: Seq<(ProjectType, Seq<char>)>,
    segs: Seq<Seq<Call>>,
) -> bool {
    &&& 0 <= n <= p && p + segs.flatten().len() <= g <= t.len()
    &&& projects.len() > 0 ==> g == p + segs.flatten().len()
    &&& common::consented_changes(t.skip(g))
    &&& t.subrange(p, p + segs.flatten().len()) == segs.flatten()
    &&& segs.len() == projects.len()
    &&& forall|i: int| 0 <= i < projects.len() ==> (#[trigger] projects[i]).0 != ProjectType::Unknown
        && crate::app_detector::classified_in(t.take(n), projects[i].1, projects[i].0)
    &&& forall|i: int| 0 <= i < projects.len() ==> project_purged(args, projects[i].0, projects[i].1, #[trigger] segs[i])
}

/// `purge_by` for some discovery length, start of the global part, projects
/// and groups.
pub open spec fn purge_trace(args: PurgeArgs, t: Seq<Call>) -> bool {
    exists|n: int, p: int, g: int, projects: Seq<(ProjectType, Seq<char>)>, segs: Seq<Seq<Call>>| #[trigger] purge_by(args, t, n, p, g, projects, segs)
}

/// The type and root of each project.
pub open spec fn project_keys(ps: Seq<(AppInfo, String)>) -> Seq<(ProjectType, Seq<char>)> {
    ps.map_values(|p: (AppInfo, String)| (p.0.project_type, p.1@))
}

/// `mdev purge`: cleans every project under `current_dir` with the cleaner of
/// its type (see `cleaner_runs`), scans each for extras and linked worktrees,
/// then offers the global caches of `global_plan` and the opt-in ecosystem
/// globals, changing nothing there before an answer that agreed to
/// deleting. Sizes are written by `human_size`. Always returns 0.
pub fn run<R: Runner, F: Fn(u64) -> String>(args: &PurgeArgs, runner: &mut Session<R>, current_dir: &str, human_size: &F) -> (code: i32)
    requires
        forall|b: u64| human_size.requires((b,)),
    ensures
        code == 0,
        extends(old(runner).calls(), final(runner).calls()),
        args.dry_run ==> quiet(old(runner).calls(), final(runner).calls()),
        purge_trace(*args, since(old(runner).calls(), final(runner).calls())),
{
    let ghost start = runner.calls();
    let projects = collect_projects(runner, current_dir);
    let ghost collected = runner.calls();
    let ghost pk = project_keys(projects@);
    let ghost n = since(start, collected).len() as int;
    let ghost mut segs: Seq<Seq<Call>> = Seq::empty();
    proof {
        assert(segs.flatten() =~= Seq::<Call>::empty());
        assert forall|i: int| 0 <= i < pk.len() implies (#[trigger] pk[i]).0 != ProjectType::Unknown
            && crate::app_detector::classified_in(since(start, collected), pk[i].1, pk[i].0) by {
            assert(projects@[i].0.project_type != ProjectType::Unknown);
            assert(crate::app_detector::entry_classified(since(start, collected), projects@[i]));
        }
    }
    if projects.len() == 0 {
        runner.report(Level::Warn, "No recognized projects found in current directory.");
        if !args.no_extras {
            extras::run(runner, args, current_dir, args.dry_run, args.verbose, human_size);
        }
        proof {
            assert(since(collected, collected) =~= segs.flatten());
            lemma_quiet_consented(runner.calls(), runner.calls());
            lemma_purge_done(*args, start, collected, collected, collected, runner.calls(), runner.calls(), pk, segs);
        }
        return 0;
    }
    let (has_android, has_ios) = mobile_sides(projects.as_slice());
    let plan = global_plan(args, has_android, has_ios, on_macos(runner));
    runner.report(Level::Info, "mdev purge starting...");
    let count = decimal_text(projects.len() as u64);
    runner.report(Level::Info, cat(&["Found ", count.as_str(), " project(s)."]).as_str());
    if args.dry_run {
        runner.report(Level::Warn, "Dry run — no files will be deleted.");
    }
    let ghost planned = runner.calls();
    proof {
        assert(since(planned, planned) =~= segs.flatten());
    }
    let mut i: usize = 0;
    while i < projects.len()
        invariant
            extends(old(runner).calls(), runner.calls()),
            args.dry_run ==> quiet(old(runner).calls(), runner.calls()),
            forall|b: u64| human_size.requires((b,)),
            start == old(runner).calls(),
            extends(start, collected),
            extends(collected, planned),
            extends(planned, runner.calls()),
            pk == project_keys(projects@),
            i <= projects@.len(),
            segs.len() == i,
            since(planned, runner.calls()) == segs.flatten(),
            forall|k: int| 0 <= k < i ==> project_purged(*args, pk[k].0, pk[k].1, #[trigger] segs[k]),
        decreases projects.len() - i,
    {
        let ghost before = runner.calls();
        let root = projects[i].1.as_str();
        let t = projects[i].0.project_type;
        assert(pk[i as int] == (t, root@));
        runner.report(Level::Info, cat(&["\n→ ", root]).as_str());
        if runs_cleaner(args, t) {
            match t {
                ProjectType::Flutter => flutter::run(runner, args, root, args.dry_run, args.verbose),
                ProjectType::Android => android::run(runner, args, root, args.dry_run, args.verbose),
                ProjectType::Ios => ios::run(runner, args, root, args.dry_run, args.verbose),
                ProjectType::Node { .. } => node::run(runner, args, root, args.dry_run, args.verbose),
                ProjectType::Rust => rust::run(runner, args, root, args.dry_run, args.verbose),
                ProjectType::Go => go::run(runner, args, root, args.dry_run, args.verbose),
                ProjectType::Ruby { .. } => ruby::run(runner, args, root, args.dry_run, args.verbose),
                ProjectType::Python { .. } => python::run(runner, args, root, args.dry_run, args.verbose),
                ProjectType::Unknown => {},
            }
        }
        let ghost cleaned = runner.calls();
        proof {
            let c = since(before, cleaned);
            assert(cleaner_part(*args, t, root@, c));
        }
        if !args.no_extras {
            extras::run(runner, args, root, args.dry_run, args.verbose, human_size);
        }
        worktrees::run(args, root, runner, args.dry_run, args.verbose);
        proof {
            let seg = since(before, runner.calls());
            crate::session::lemma_since_prefix(before, cleaned, runner.calls());
            let k = since(before, cleaned).len() as int;
            assert(seg.take(k) == since(before, cleaned));
            assert(cleaner_part(*args, t, root@, seg.take(k)));
            assert(project_purged(*args, t, root@, seg));
            segs.lemma_flatten_push(seg);
            crate::session::lemma_since_prefix(planned, before, runner.calls());
            assert(since(planned, runner.calls()) =~= since(planned, before) + seg);
            segs = segs.push(seg);
        }
        i = i + 1;
    }
    let ghost looped = runner.calls();
    purge_globals(runner, args, plan, projects.as_slice());
    runner.report(Level::Success, "\nPurge complete.");
    proof {
        lemma_purge_done(*args, start, collected, planned, looped, looped, runner.calls(), pk, segs);
    }
    0
}

/// The global part of `purge`: the caches of `plan` that exist are listed and,
/// outside a dry run, those picked in one selection are deleted (the pub cache
/// through `flutter pub cache clean -f` first); then the opt-in ecosystem
/// globals and virtualenvs. Nothing changes the disk before an answer that
/// agreed to deleting.
fn purge_globals<R: Runner>(runner: &mut Session<R>, args: &PurgeArgs, plan: GlobalPlan, projects: &[(AppInfo, String)])
    ensures
        extends(old(runner).calls(), final(runner).calls()),
        args.dry_run ==> quiet(old(runner).calls(), final(runner).calls()),
        consented_changes(since(old(runner).calls(), final(runner).calls())),
{
    let ghost start = runner.calls();
    let home = home_or_empty(runner);
    let gradle_home = match runner.env_var("GRADLE_USER_HOME") {
        Some(g) => g,
        None => join_path(home.as_str(), ".gradle"),
    };
    let sdk_caches = locate_flutter_sdk_caches(runner);
    let globals = global_paths(home.as_str(), gradle_home.as_str(), sdk_caches.as_slice(), plan);
    let existing = existing_paths(runner, globals.as_slice());
    proof { lemma_quiet_consented(start, runner.calls()); }
    if existing.len() > 0 {
        runner.report(Level::Info, "\nGlobal caches to delete:");
        let mut k: usize = 0;
        while k < existing.len()
            invariant
                extends(start, runner.calls()),
                quiet(start, runner.calls()),
                args.dry_run ==> quiet(start, runner.calls()),
            decreases existing.len() - k,
        {
            runner.report(Level::Info, cat(&["  ", existing[k].as_str()]).as_str());
            k = k + 1;
        }
        if args.dry_run {
            runner.report(Level::Detail, "  (dry run — skipped)");
            proof { lemma_quiet_consented(start, runner.calls()); }
        } else {
            let ghost asked = runner.calls();
            let selected = select_paths_to_delete(runner, existing.as_slice(), "  Delete global caches?");
            let ghost sel = runner.calls();
            proof {
                lemma_quiet_consented(start, sel);
                if selected@.len() > 0 {
                    lemma_selection_consent(string_views(existing@), "  Delete global caches?"@, since(asked, sel), string_views(selected@));
                    let j = choose|j: int| 0 <= j < since(asked, sel).len() && #[trigger] is_consent(since(asked, sel)[j]);
                    let d = asked.len() - start.len();
                    assert(since(start, sel)[d + j] == since(asked, sel)[j]);
                }
            }
            let pub_cache = join_path(home.as_str(), ".pub-cache");
            let mut s: usize = 0;
            while s < selected.len()
                invariant
                    extends(start, runner.calls()),
                    extends(sel, runner.calls()),
                    extends(start, sel),
                    consented_changes(since(start, sel)),
                    selected@.len() > 0 ==> exists|j: int| 0 <= j < since(start, sel).len() && #[trigger] is_consent(since(start, sel)[j]),
                    s <= selected@.len(),
                    s == 0 ==> runner.calls() == sel,
                    !args.dry_run,
                decreases selected.len() - s,
            {
                let p = selected[s].as_str();
                if str_eq(p, pub_cache.as_str()) {
                    let clean = runner.run("flutter", &["pub", "cache", "clean", "-f"], None);
                    if clean.is_success() {
                        runner.report(Level::Success, "  ✓ pub cache cleaned");
                    } else {
                        delete_path_verbose(runner, p, args.verbose);
                    }
                } else {
                    delete_path_verbose(runner, p, args.verbose);
                }
                s = s + 1;
            }
            proof {
                if selected@.len() > 0 {
                    let j = choose|j: int| 0 <= j < since(start, sel).len() && #[trigger] is_consent(since(start, sel)[j]);
                    lemma_consented_after(start, sel, runner.calls(), j);
                }
            }
        }
    }
    assert(extends(start, runner.calls()) && consented_changes(since(start, runner.calls())));
    if args.node_global {
        let ghost before = runner.calls();
        node::run_global(runner, args, args.dry_run, args.verbose);
        proof { lemma_consented_concat(start, before, runner.calls()); }
    }
    assert(extends(start, runner.calls()) && consented_changes(since(start, runner.calls())));
    if args.rust_global {
        let ghost before = runner.calls();
        rust::run_global(runner, args, args.dry_run, args.verbose);
        proof { lemma_consented_concat(start, before, runner.calls()); }
    }
    assert(extends(start, runner.calls()) && consented_changes(since(start, runner.calls())));
    if args.go_global {
        let ghost before = runner.calls();
        go::run_global(runner, args, args.dry_run, args.verbose);
        proof { lemma_consented_concat(start, before, runner.calls()); }
    }
    assert(extends(start, runner.calls()) && consented_changes(since(start, runner.calls())));
    if args.ruby_global {
        let ghost before = runner.calls();
        ruby::run_global(runner, args, args.dry_run, args.verbose);
        proof { lemma_consented_concat(start, before, runner.calls()); }
    }
    assert(extends(start, runner.calls()) && consented_changes(since(start, runner.calls())));
    if args.python_global {
        let ghost before = runner.calls();
        python::run_global(runner, args, args.dry_run, args.verbose);
        proof { lemma_consented_concat(start, before, runner.calls()); }
    }
    assert(extends(start, runner.calls()) && consented_changes(since(start, runner.calls())));
    if args.python_venv {
        let mut v: usize = 0;
        while v < projects.len()
            invariant
                extends(start, runner.calls()),
                consented_changes(since(start, runner.calls())),
                args.dry_run ==> quiet(start, runner.calls()),
            decreases projects.len() - v,
        {
            if let ProjectType::Python { .. } = projects[v].0.project_type {
                let ghost before = runner.calls();
                python::run_venv(runner, args, projects[v].1.as_str(), args.dry_run, args.verbose);
                proof { lemma_consented_concat(start, before, runner.calls()); }
            }
            v = v + 1;
        }
    }
}

proof fn lemma_purge_done(
    args: PurgeArgs,
    start: Seq<Call>,
    collected: Seq<Call>,
    planned: Seq<Call>,
    looped: Seq<Call>,
    globals: Seq<Call>,
    end: Seq<Call>,
    pk: Seq<(ProjectType, Seq<char>)>,
    segs: Seq<Seq<Call>>,
)
    requires
        extends(start, collected),
        extends(collected, planned),
        extends(planned, looped),
        extends(looped, globals),
        extends(globals, end),
        pk.len() > 0 ==> globals == looped,
        common::consented_changes(since(globals, end)),
        since(planned, looped) == segs.flatten(),
        segs.len() == pk.len(),
        forall|i: int| 0 <= i < pk.len() ==> (#[trigger] pk[i]).0 != ProjectType::Unknown
            && crate::app_detector::classified_in(since(start, collected), pk[i].1, pk[i].0),
        forall|k: int| 0 <= k < pk.len() ==> project_purged(args, pk[k].0, pk[k].1, #[trigger] segs[k]),
    ensures
        purge_trace(args, since(start, end)),
{
    crate::session::lemma_since_prefix(start, collected, planned);
    crate::session::lemma_since_prefix(start, planned, looped);
    crate::session::lemma_since_prefix(start, looped, globals);
    crate::session::lemma_since_prefix(start, globals, end);
    let t = since(start, end);
    let n = since(start, collected).len() as int;
    let p = since(start, planned).len() as int;
    let m = since(start, looped).len() as int;
    let g = since(start, globals).len() as int;
    assert(t.take(n) =~= since(start, collected));
    assert(t.subrange(p, m) =~= since(planned, looped));
    assert(t.skip(g) =~= since(globals, end));
    assert(purge_by(args, t, n, p, g, pk, segs));
}

} // verus!
