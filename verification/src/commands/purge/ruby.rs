//! Ruby/Rails caches: per project the bundle directories, and for a Rails app
//! `tmp/cache` and the logs; globally Bundler's and RubyGems' caches.
use vstd::prelude::*;
use crate::commands::purge::common::{consented_changes, lemma_consented_after, lemma_quiet_consented, confirm, delete_entry, delete_tagged, home_or_empty, deletes_trace, joined_all, paths_under, EntryKind};
use crate::commands::purge::PurgeArgs;
use crate::paths::{extension_of, join_path, name_extension, string_views};
use crate::runner::{Level, Runner};
use crate::session::{extends, quiet, reads_only, since, Session};
use crate::text::{cat, str_eq};

verus! {

/// A Rails log: a file name whose extension is `log`.
pub open spec fn rails_log_name(name: Seq<char>) -> bool {
    name_extension(name) == Some("log"@)
}

/// Whether `name` is a Rails log; see `rails_log_name`.
pub fn is_rails_log(name: &str) -> (b: bool)
    ensures
        b == rails_log_name(name@),
{
    match extension_of(name) {
        Some(ext) => str_eq(ext.as_str(), "log"),
        None => false,
    }
}

/// The bundle directories of a Ruby project, relative to its root.
pub open spec fn ruby_project_rels() -> Seq<Seq<char>> {
    seq!["vendor/bundle"@, ".bundle"@]
}

/// Every Ruby project's vendored gems and Bundler's local directory are
/// cleaned.
pub proof fn lemma_ruby_project_rels_cover(rel: Seq<char>)
    requires
        rel == "vendor/bundle"@ || rel == ".bundle"@,
    ensures
        ruby_project_rels().contains(rel),
{
    let s = ruby_project_rels();
    assert(s[0] == "vendor/bundle"@ && s[1] == ".bundle"@);
}

/// Per-project Ruby/Rails cleanup: first the bundle directories (see
/// `ruby_project_rels`), then the Rails caches. Rails-ness is read from disk
/// (`config/application.rb`), so `run` takes what the other cleaners take.
pub fn run<R: Runner>(runner: &mut Session<R>, args: &PurgeArgs, root: &str, dry_run: bool, verbose: bool)
    ensures
        extends(old(runner).calls(), final(runner).calls()),
        dry_run ==> quiet(old(runner).calls(), final(runner).calls()),
        exists|n: int| 0 <= n <= since(old(runner).calls(), final(runner).calls()).len()
            && #[trigger] deletes_trace(
                joined_all(root@, ruby_project_rels()),
                EntryKind::Dir,
                dry_run,
                since(old(runner).calls(), final(runner).calls()).take(n),
            ),
{
    let ghost start = runner.calls();
    let rels = ["vendor/bundle", ".bundle"];
    assert(rels@.map_values(|s: &str| s@) =~= ruby_project_rels());
    let bundles = paths_under(root, &rels);
    delete_tagged(runner, bundles.as_slice(), Some("ruby"), dry_run, verbose);
    let ghost mid = runner.calls();
    clean_rails(runner, root, dry_run, verbose);
    proof {
        crate::session::lemma_since_prefix(start, mid, runner.calls());
        let n = since(start, mid).len() as int;
        assert(deletes_trace(joined_all(root@, ruby_project_rels()), EntryKind::Dir, dry_run, since(start, runner.calls()).take(n)));
    }
}

/// The Rails part of the per-project cleanup: `tmp/cache` and the `*.log`
/// files of `log/`, when `config/application.rb` marks a Rails app.
fn clean_rails<R: Runner>(runner: &mut Session<R>, root: &str, dry_run: bool, verbose: bool)
    ensures
        extends(old(runner).calls(), final(runner).calls()),
        dry_run ==> quiet(old(runner).calls(), final(runner).calls()),
{
    let application = join_path(root, "config/application.rb");
    if !runner.path_exists(application.as_str()) {
        return;
    }
    let tmp_cache = join_path(root, "tmp/cache");
    delete_entry(runner, tmp_cache.as_str(), Some("rails"), EntryKind::Dir, dry_run, verbose);
    let log_dir = join_path(root, "log");
    if !runner.is_dir(log_dir.as_str()) {
        return;
    }
    let entries = match runner.dir_entries(log_dir.as_str()) {
        Some(e) => e,
        None => return,
    };
    let mut k: usize = 0;
    while k < entries.len()
        invariant
            extends(old(runner).calls(), runner.calls()),
            dry_run ==> quiet(old(runner).calls(), runner.calls()),
        decreases entries.len() - k,
    {
        let name = entries[k].name.as_str();
        let path = join_path(log_dir.as_str(), name);
        if runner.is_file(path.as_str()) && is_rails_log(name) {
            delete_entry(runner, path.as_str(), Some("rails"), EntryKind::File, dry_run, verbose);
        }
        k = k + 1;
    }
}

/// Bundler's and RubyGems' global caches, relative to the home directory.
pub open spec fn ruby_cache_rels() -> Seq<Seq<char>> {
    seq![".bundle/cache"@, ".gem/cache"@]
}

/// The global Ruby cleanup covers Bundler's and RubyGems' download caches.
pub proof fn lemma_ruby_cache_rels_cover(rel: Seq<char>)
    requires
        rel == ".bundle/cache"@ || rel == ".gem/cache"@,
    ensures
        ruby_cache_rels().contains(rel),
{
    let s = ruby_cache_rels();
    assert(s[0] == ".bundle/cache"@ && s[1] == ".gem/cache"@);
}

/// The global Ruby caches under `home`.
pub fn global_candidates(home: &str) -> (r: Vec<String>)
    ensures
        string_views(r@) == joined_all(home@, ruby_cache_rels()),
{
    let rels = [".bundle/cache", ".gem/cache"];
    assert(rels@.map_values(|s: &str| s@) =~= ruby_cache_rels());
    paths_under(home, &rels)
}

/// Global Ruby cleanup: lists the existing caches, then deletes them after one
/// default-No prompt (listed only in a dry run).
pub fn run_global<R: Runner>(runner: &mut Session<R>, args: &PurgeArgs, dry_run: bool, verbose: bool)
    ensures
        extends(old(runner).calls(), final(runner).calls()),
        dry_run ==> quiet(old(runner).calls(), final(runner).calls()),
        consented_changes(since(old(runner).calls(), final(runner).calls())),
{
    let ghost start = runner.calls();
    let home = home_or_empty(runner);
    let candidates = global_candidates(home.as_str());
    let existing = crate::commands::purge::common::existing_paths(runner, candidates.as_slice());
    if existing.len() == 0 {
        proof { lemma_quiet_consented(start, runner.calls()); }
        return;
    }
    runner.report(Level::Info, "\nRuby global caches:");
    let mut i: usize = 0;
    while i < existing.len()
        invariant
            extends(old(runner).calls(), runner.calls()),
            quiet(old(runner).calls(), runner.calls()),
            dry_run ==> quiet(old(runner).calls(), runner.calls()),
        decreases existing.len() - i,
    {
        runner.report(Level::Info, cat(&["  [ruby] ", existing[i].as_str()]).as_str());
        i = i + 1;
    }
    if dry_run {
        let mut j: usize = 0;
        while j < existing.len()
            invariant
                extends(old(runner).calls(), runner.calls()),
                quiet(old(runner).calls(), runner.calls()),
                dry_run ==> quiet(old(runner).calls(), runner.calls()),
            decreases existing.len() - j,
        {
            runner.report(Level::Detail, cat(&["  [ruby] would delete ", existing[j].as_str()]).as_str());
            j = j + 1;
        }
        proof { lemma_quiet_consented(start, runner.calls()); }
        return;
    }
    let ghost asked = runner.calls();
    proof { lemma_quiet_consented(start, asked); }
    let yes = confirm(runner, "  Delete Ruby global caches?", false);
    let ghost mid = runner.calls();
    proof { lemma_quiet_consented(start, mid); }
    if !yes {
        return;
    }
    let mut j: usize = 0;
    while j < existing.len()
        invariant
            extends(old(runner).calls(), runner.calls()),
            extends(mid, runner.calls()),
            !dry_run,
        decreases existing.len() - j,
    {
        delete_entry(runner, existing[j].as_str(), Some("ruby"), EntryKind::Dir, false, verbose);
        j = j + 1;
    }
    proof {
        let aj = mid.len() - 1 - start.len();
        assert(since(start, mid)[aj] == mid[mid.len() - 1]);
        lemma_consented_after(start, mid, runner.calls(), aj);
    }
}

} // verus!
