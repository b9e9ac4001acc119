//! Python caches: per project the cache directories at any depth, root-only
//! coverage output and Django's collected static files; globally pip's,
//! Poetry's, uv's and pipenv's caches; on request the virtualenvs.
use vstd::prelude::*;
use crate::commands::purge::common::{consented_changes, lemma_consented_after, lemma_consented_concat, lemma_quiet_consented, 
    confirm, delete_entry, delete_existing_with_confirm, delete_trace, existing_paths, heavy_or_owned_names, home_or_empty,
    is_heavy_or_owned_dir, name_in, EntryKind,
};
use crate::commands::purge::PurgeArgs;
use crate::paths::{join_path, path_join, string_views};
use crate::runner::{HostOs, Level, Runner};
use crate::session::{extends, lemma_since_prefix, quiet, reads_only, since, Call, Session};
use crate::text::{cat, str_eq};

verus! {

/// How deep below the project root the cache sweep looks.
pub const MAX_DEPTH: usize = 10;

/// Cache directory names deleted at any depth.
pub open spec fn py_cache_names() -> Seq<Seq<char>> {
    seq!["__pycache__"@, ".pytest_cache"@, ".mypy_cache"@, ".ruff_cache"@, ".tox"@]
}

/// The sweep deletes each of Python's tool caches wherever it finds one:
/// bytecode (`__pycache__`), pytest's, mypy's and ruff's caches and tox's
/// environments.
pub proof fn lemma_py_cache_names_cover_tools(name: Seq<char>)
    requires
        name == "__pycache__"@ || name == ".pytest_cache"@ || name == ".mypy_cache"@ || name == ".ruff_cache"@
            || name == ".tox"@,
    ensures
        py_cache_names().contains(name),
{
    let s = py_cache_names();
    assert(s[0] == "__pycache__"@ && s[1] == ".pytest_cache"@ && s[2] == ".mypy_cache"@);
    assert(s[3] == ".ruff_cache"@ && s[4] == ".tox"@);
}

/// Directories the sweep does not enter: the shared skip set and `env`, a
/// common name for folders that are not virtualenvs.
pub open spec fn sweep_skips(name: Seq<char>) -> bool {
    heavy_or_owned_names().contains(name) || name == "env"@
}

/// Whether the sweep leaves `name` alone; see `sweep_skips`.
pub fn is_sweep_skip(name: &str) -> (b: bool)
    ensures
        b == sweep_skips(name@),
{
    is_heavy_or_owned_dir(name) || str_eq(name, "env")
}

/// Whether `name` is a Python cache directory; see `py_cache_names`.
pub fn is_py_cache_dir(name: &str) -> (b: bool)
    ensures
        b == py_cache_names().contains(name@),
{
    let names = ["__pycache__", ".pytest_cache", ".mypy_cache", ".ruff_cache", ".tox"];
    assert(names@.map_values(|s: &str| s@) =~= py_cache_names());
    name_in(&names, name)
}

/// Deletes the cache directories under `dir` (`depth` levels below the root),
/// `__pycache__` included: a match is deleted whole and not entered, skipped
/// names are not entered.
fn sweep<R: Runner>(runner: &mut Session<R>, dir: &str, depth: usize, dry_run: bool, verbose: bool)
    requires
        depth <= MAX_DEPTH + 1,
    ensures
        extends(old(runner).calls(), final(runner).calls()),
        dry_run ==> quiet(old(runner).calls(), final(runner).calls()),
    decreases MAX_DEPTH + 1 - depth,
{
    if depth > MAX_DEPTH {
        return;
    }
    let entries = match runner.dir_entries(dir) {
        Some(e) => e,
        None => return,
    };
    let mut i: usize = 0;
    while i < entries.len()
        invariant
            extends(old(runner).calls(), runner.calls()),
            dry_run ==> quiet(old(runner).calls(), runner.calls()),
            depth <= MAX_DEPTH,
        decreases entries.len() - i,
    {
        let e = &entries[i];
        let name = e.name.as_str();
        if e.is_dir && !e.is_symlink {
            let path = join_path(dir, name);
            if is_py_cache_dir(name) {
                delete_entry(runner, path.as_str(), Some("python"), EntryKind::Dir, dry_run, verbose);
            } else if !is_sweep_skip(name) {
                sweep(runner, path.as_str(), depth + 1, dry_run, verbose);
            }
        }
        i = i + 1;
    }
}

/// Asking whether `p` exists, then (only when it does) deleting it as `kind`
/// as `delete_trace` says, recorded as exactly `u`.
pub open spec fn delete_if_found(p: Seq<char>, kind: EntryKind, dry_run: bool, u: Seq<Call>) -> bool {
    &&& u.len() >= 1
    &&& match u[0] {
        Call::PathExists { path, reply } => path == p && if reply {
            delete_trace(p, kind, dry_run, u.skip(1))
        } else {
            u.len() == 1
        },
        _ => false,
    }
}

/// The Django part of the root cleanup, recorded as exactly `u`: whether
/// `manage.py` exists, and only then `staticfiles/` found and deleted.
pub open spec fn django_cleanup(root: Seq<char>, dry_run: bool, u: Seq<Call>) -> bool {
    &&& u.len() >= 1
    &&& match u[0] {
        Call::PathExists { path, reply } => path == path_join(root, "manage.py"@) && if reply {
            delete_if_found(path_join(root, "staticfiles"@), EntryKind::Dir, dry_run, u.skip(1))
        } else {
            u.len() == 1
        },
        _ => false,
    }
}

/// The root part of the per-project Python cleanup, recorded as exactly `t`:
/// the `.coverage` file, then `htmlcov/`, each deleted when found, then the
/// Django part.
pub open spec fn python_root_cleanup(root: Seq<char>, dry_run: bool, t: Seq<Call>) -> bool {
    exists|a: int, b: int|
        #![trigger t.take(a), t.skip(b)]
        0 <= a <= b <= t.len()
        && delete_if_found(path_join(root, ".coverage"@), EntryKind::File, dry_run, t.take(a))
        && delete_if_found(path_join(root, "htmlcov"@), EntryKind::Dir, dry_run, t.subrange(a, b))
        && django_cleanup(root, dry_run, t.skip(b))
}

/// Asks whether `path` exists and deletes it as `kind` when it does.
fn delete_found<R: Runner>(runner: &mut Session<R>, path: &str, tag: &str, kind: EntryKind, dry_run: bool, verbose: bool)
    ensures
        extends(old(runner).calls(), final(runner).calls()),
        dry_run ==> quiet(old(runner).calls(), final(runner).calls()),
        delete_if_found(path@, kind, dry_run, since(old(runner).calls(), final(runner).calls())),
{
    let ghost start = runner.calls();
    if runner.path_exists(path) {
        let ghost probed = runner.calls();
        delete_entry(runner, path, Some(tag), kind, dry_run, verbose);
        proof {
            lemma_since_prefix(start, probed, runner.calls());
            assert(since(start, probed).len() == 1);
            assert(since(start, runner.calls())[0] == since(start, probed)[0]);
            assert(since(start, probed)[0] == probed.last());
        }
    } else {
        assert(since(start, runner.calls())[0] == runner.calls().last());
    }
}

/// The root part of the per-project Python cleanup; see `python_root_cleanup`.
fn clean_root<R: Runner>(runner: &mut Session<R>, root: &str, dry_run: bool, verbose: bool)
    ensures
        extends(old(runner).calls(), final(runner).calls()),
        dry_run ==> quiet(old(runner).calls(), final(runner).calls()),
        python_root_cleanup(root@, dry_run, since(old(runner).calls(), final(runner).calls())),
{
    let ghost s0 = runner.calls();
    let coverage = join_path(root, ".coverage");
    delete_found(runner, coverage.as_str(), "python", EntryKind::File, dry_run, verbose);
    let ghost s1 = runner.calls();
    let htmlcov = join_path(root, "htmlcov");
    delete_found(runner, htmlcov.as_str(), "python", EntryKind::Dir, dry_run, verbose);
    let ghost s2 = runner.calls();
    let manage = join_path(root, "manage.py");
    if runner.path_exists(manage.as_str()) {
        let ghost probed = runner.calls();
        let staticfiles = join_path(root, "staticfiles");
        delete_found(runner, staticfiles.as_str(), "django", EntryKind::Dir, dry_run, verbose);
        proof {
            lemma_since_prefix(s2, probed, runner.calls());
            assert(since(s2, probed).len() == 1);
            assert(since(s2, runner.calls())[0] == since(s2, probed)[0]);
            assert(since(s2, probed)[0] == probed.last());
        }
    } else {
        assert(since(s2, runner.calls())[0] == runner.calls().last());
    }
    proof {
        let s3 = runner.calls();
        lemma_since_prefix(s0, s1, s2);
        lemma_since_prefix(s0, s2, s3);
        let t = since(s0, s3);
        let a = since(s0, s1).len() as int;
        let b = since(s0, s2).len() as int;
        assert(t.take(a) =~= since(s0, s1));
        assert(t.subrange(a, b) =~= since(s1, s2));
        assert(t.skip(b) =~= since(s2, s3));
        assert(python_root_cleanup(root@, dry_run, t));
    }
}

/// Per-project Python cleanup: the cache sweep, then the root's `.coverage`
/// and `htmlcov/`, and for a Django project (`manage.py` at the root) its
/// `staticfiles/` (see `python_root_cleanup`).
pub fn run<R: Runner>(runner: &mut Session<R>, args: &PurgeArgs, root: &str, dry_run: bool, verbose: bool)
    ensures
        extends(old(runner).calls(), final(runner).calls()),
        dry_run ==> quiet(old(runner).calls(), final(runner).calls()),
        exists|k: int| 0 <= k <= since(old(runner).calls(), final(runner).calls()).len()
            && #[trigger] python_root_cleanup(root@, dry_run, since(old(runner).calls(), final(runner).calls()).skip(k)),
{
    let ghost start = runner.calls();
    sweep(runner, root, 0, dry_run, verbose);
    let ghost mid = runner.calls();
    clean_root(runner, root, dry_run, verbose);
    proof {
        lemma_since_prefix(start, mid, runner.calls());
        let k = since(start, mid).len() as int;
        assert(python_root_cleanup(root@, dry_run, since(start, runner.calls()).skip(k)));
    }
}

/// The global caches: pip's and Poetry's where `os` keeps them (macOS, Linux),
/// then uv's and pipenv's virtualenvs.
pub open spec fn global_cache_paths(home: Seq<char>, os: HostOs) -> Seq<Seq<char>> {
    (if os == HostOs::MacOs {
        seq![path_join(home, "Library/Caches/pip"@), path_join(home, "Library/Caches/pypoetry"@)]
    } else if os == HostOs::Linux {
        seq![path_join(home, ".cache/pip"@), path_join(home, ".cache/pypoetry"@)]
    } else {
        Seq::empty()
    }) + seq![path_join(home, ".cache/uv"@), path_join(home, ".local/share/virtualenvs"@)]
}

/// pip's and Poetry's caches are looked for where each system keeps them
/// (`Library/Caches` on macOS, `.cache` on Linux); uv's cache and pipenv's
/// virtualenvs are looked for on every system.
pub proof fn lemma_python_global_cache_locations(home: Seq<char>, os: HostOs)
    ensures
        global_cache_paths(home, os).contains(path_join(home, ".cache/uv"@)),
        global_cache_paths(home, os).contains(path_join(home, ".local/share/virtualenvs"@)),
        os == HostOs::MacOs ==> global_cache_paths(home, os).contains(path_join(home, "Library/Caches/pip"@)),
        os == HostOs::MacOs ==> global_cache_paths(home, os).contains(path_join(home, "Library/Caches/pypoetry"@)),
        os == HostOs::Linux ==> global_cache_paths(home, os).contains(path_join(home, ".cache/pip"@)),
        os == HostOs::Linux ==> global_cache_paths(home, os).contains(path_join(home, ".cache/pypoetry"@)),
        os != HostOs::MacOs && os != HostOs::Linux ==> global_cache_paths(home, os).len() == 2,
{
    let g = global_cache_paths(home, os);
    let n = g.len();
    assert(g[n - 2] == path_join(home, ".cache/uv"@));
    assert(g[n - 1] == path_join(home, ".local/share/virtualenvs"@));
    if os == HostOs::MacOs || os == HostOs::Linux {
        assert(g[0] == (if os == HostOs::MacOs { path_join(home, "Library/Caches/pip"@) } else { path_join(home, ".cache/pip"@) }));
        assert(g[1] == (if os == HostOs::MacOs { path_join(home, "Library/Caches/pypoetry"@) } else { path_join(home, ".cache/pypoetry"@) }));
    }
}

/// The global Python caches under `home`; see `global_cache_paths`.
pub fn global_candidates(home: &str, os: HostOs) -> (r: Vec<String>)
    ensures
        string_views(r@) == global_cache_paths(home@, os),
{
    let mut out: Vec<String> = Vec::new();
    if os == HostOs::MacOs {
        out.push(join_path(home, "Library/Caches/pip"));
        out.push(join_path(home, "Library/Caches/pypoetry"));
    } else if os == HostOs::Linux {
        out.push(join_path(home, ".cache/pip"));
        out.push(join_path(home, ".cache/pypoetry"));
    }
    out.push(join_path(home, ".cache/uv"));
    out.push(join_path(home, ".local/share/virtualenvs"));
    assert(string_views(out@) =~= global_cache_paths(home@, os));
    out
}

/// Global Python cleanup: lists the existing caches, then deletes them after
/// one prompt (listed only in a dry run).
pub fn run_global<R: Runner>(runner: &mut Session<R>, args: &PurgeArgs, dry_run: bool, verbose: bool)
    ensures
        extends(old(runner).calls(), final(runner).calls()),
        dry_run ==> quiet(old(runner).calls(), final(runner).calls()),
        consented_changes(since(old(runner).calls(), final(runner).calls())),
{
    let ghost start = runner.calls();
    let home = home_or_empty(runner);
    let candidates = global_candidates(home.as_str(), runner.host_os());
    let existing = existing_paths(runner, candidates.as_slice());
    if existing.len() == 0 {
        proof { lemma_quiet_consented(start, runner.calls()); }
        return;
    }
    runner.report(Level::Info, "\nGlobal Python caches to delete:");
    let mut i: usize = 0;
    while i < existing.len()
        invariant
            extends(old(runner).calls(), runner.calls()),
            quiet(old(runner).calls(), runner.calls()),
            dry_run ==> quiet(old(runner).calls(), runner.calls()),
        decreases existing.len() - i,
    {
        runner.report(Level::Info, cat(&["  ", existing[i].as_str()]).as_str());
        i = i + 1;
    }
    let ghost listed = runner.calls();
    proof { lemma_quiet_consented(start, listed); }
    delete_existing_with_confirm(runner, existing.as_slice(), dry_run, verbose, Some("python"), "  Delete global Python caches?");
    proof { lemma_consented_concat(start, listed, runner.calls()); }
}

/// Per-project virtualenv cleanup: each of `.venv`, `venv` and `env` that is a
/// directory is deleted after its own default-No prompt (listed in a dry run).
pub fn run_venv<R: Runner>(runner: &mut Session<R>, args: &PurgeArgs, root: &str, dry_run: bool, verbose: bool)
    ensures
        extends(old(runner).calls(), final(runner).calls()),
        dry_run ==> quiet(old(runner).calls(), final(runner).calls()),
        consented_changes(since(old(runner).calls(), final(runner).calls())),
{
    let ghost start = runner.calls();
    proof { lemma_quiet_consented(start, start); }
    let names = [".venv", "venv", "env"];
    let mut i: usize = 0;
    while i < names.len()
        invariant
            start == old(runner).calls(),
            extends(old(runner).calls(), runner.calls()),
            dry_run ==> quiet(old(runner).calls(), runner.calls()),
            consented_changes(since(start, runner.calls())),
        decreases names.len() - i,
    {
        let ghost before = runner.calls();
        let p = join_path(root, names[i]);
        let found = runner.is_dir(p.as_str());
        proof {
            lemma_quiet_consented(before, runner.calls());
            lemma_consented_concat(start, before, runner.calls());
        }
        if found {
            if dry_run {
                let ghost listed = runner.calls();
                delete_entry(runner, p.as_str(), Some("python"), EntryKind::Dir, true, verbose);
                proof {
                    lemma_quiet_consented(listed, runner.calls());
                    lemma_consented_concat(start, listed, runner.calls());
                }
            } else {
                let ghost asked = runner.calls();
                let prompt = cat(&["  Delete ", p.as_str(), " ?"]);
                let yes = confirm(runner, prompt.as_str(), false);
                let ghost mid = runner.calls();
                proof {
                    lemma_quiet_consented(asked, mid);
                    lemma_consented_concat(start, asked, mid);
                }
                if yes {
                    delete_entry(runner, p.as_str(), Some("python"), EntryKind::Dir, false, verbose);
                    proof {
                        let aj = mid.len() - 1 - start.len();
                        assert(since(start, mid)[aj] == mid[mid.len() - 1]);
                        lemma_consented_after(start, mid, runner.calls(), aj);
                    }
                }
            }
        }
        i = i + 1;
    }
}

} // verus!
