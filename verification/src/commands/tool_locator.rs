//! Finds SDK tools: on `PATH`, else under the SDK root an environment
//! variable names.
use vstd::prelude::*;
use crate::paths::{join_path, path_join};
use crate::runner::Runner;
use crate::session::{extends, since, spares_emulators, Call, Session};
use crate::text::opt_view;

verus! {

/// `root` with each of `parts` joined in turn.
pub open spec fn join_all(root: Seq<char>, parts: Seq<Seq<char>>) -> Seq<char>
    decreases parts.len(),
{
    if parts.len() == 0 {
        root
    } else {
        path_join(join_all(root, parts.drop_last()), parts.last())
    }
}

/// Where a tool is found: what `which` answered, else the candidate
/// `<root>/<subpath...>/<executable>` under the SDK root the environment names,
/// when that file exists.
pub open spec fn find_choice(
    which: Option<Seq<char>>,
    root: Option<Seq<char>>,
    candidate_exists: bool,
    executable: Seq<char>,
    subpath: Seq<Seq<char>>,
) -> Option<Seq<char>> {
    if which is Some {
        which
    } else if root is Some && candidate_exists {
        Some(path_join(join_all(root->0, subpath), executable))
    } else {
        None
    }
}

/// What `find` asks (`t`) and answers (`r`): `PATH` first; when that does
/// not know the tool, the variable `env_var`; when that is set, whether the
/// candidate under it exists.
pub open spec fn find_trace(
    executable: Seq<char>,
    env_var: Seq<char>,
    subpath: Seq<Seq<char>>,
    t: Seq<Call>,
    r: Option<Seq<char>>,
) -> bool {
    &&& t.len() >= 1
    &&& match t[0] {
        Call::Which { exe, reply: w } => exe == executable && if w is Some {
            t.len() == 1 && r == w
        } else {
            &&& t.len() >= 2
            &&& match t[1] {
                Call::EnvVar { name, reply: root } => name == env_var && match root {
                    None => t.len() == 2 && r is None,
                    Some(rt) => {
                        &&& t.len() == 3
                        &&& match t[2] {
                            Call::PathExists { path, reply: e } => path == path_join(join_all(rt, subpath), executable)
                                && r == (if e { Some(path) } else { None::<Seq<char>> }),
                            _ => false,
                        }
                    },
                },
                _ => false,
            }
        },
        _ => false,
    }
}

/// The views of `&str` items.
pub open spec fn str_views(v: Seq<&str>) -> Seq<Seq<char>> {
    v.map_values(|s: &str| s@)
}

/// Finds `executable` on `PATH`, else at `$env_var/<subpath...>/<executable>`
/// when that file exists.
pub fn find<R: Runner>(runner: &mut Session<R>, executable: &str, env_var: &str, subpath: &[&str]) -> (r: Option<String>)
    ensures
        spares_emulators(old(runner).calls(), final(runner).calls()),
        exists|w: Option<Seq<char>>, root: Option<Seq<char>>, e: bool|
            opt_view(r) == #[trigger] find_choice(w, root, e, executable@, str_views(subpath@)),
        find_trace(executable@, env_var@, str_views(subpath@), since(old(runner).calls(), final(runner).calls()), opt_view(r)),
{
    let ghost start = runner.calls();
    let ghost sp = str_views(subpath@);
    let w = runner.which(executable);
    let ghost c0 = runner.calls().last();
    if let Some(path) = w {
        let r = Some(path);
        assert(opt_view(r) == find_choice(opt_view(r), None, false, executable@, sp));
        assert(since(start, runner.calls()) =~= seq![c0]);
        return r;
    }
    let ghost none: Option<Seq<char>> = None;
    let env = runner.env_var(env_var);
    let ghost c1 = runner.calls().last();
    let ghost after_env = runner.calls();
    match env {
        Some(root) => {
            let mut candidate = root.clone();
            let mut i: usize = 0;
            assert(sp.take(0) =~= Seq::<Seq<char>>::empty());
            while i < subpath.len()
                invariant
                    spares_emulators(old(runner).calls(), runner.calls()),
                    runner.calls() == after_env,
                    i <= subpath@.len(),
                    sp == str_views(subpath@),
                    candidate@ == join_all(root@, sp.take(i as int)),
                decreases subpath.len() - i,
            {
                assert(sp.take(i + 1).drop_last() =~= sp.take(i as int));
                candidate = join_path(candidate.as_str(), subpath[i]);
                i = i + 1;
            }
            assert(sp.take(subpath@.len() as int) =~= sp);
            let full = join_path(candidate.as_str(), executable);
            let e = runner.path_exists(full.as_str());
            let ghost c2 = runner.calls().last();
            assert(since(start, runner.calls()) =~= seq![c0, c1, c2]);
            if e {
                let r = Some(full);
                assert(opt_view(r) == find_choice(none, Some(root@), true, executable@, sp));
                r
            } else {
                let r: Option<String> = None;
                assert(opt_view(r) == find_choice(none, Some(root@), false, executable@, sp));
                r
            }
        },
        None => {
            let r: Option<String> = None;
            assert(opt_view(r) == find_choice(none, none, false, executable@, sp));
            assert(since(start, runner.calls()) =~= seq![c0, c1]);
            r
        },
    }
}

/// `keytool`: on `PATH` or at `$JAVA_HOME/bin/keytool`.
pub fn keytool<R: Runner>(runner: &mut Session<R>) -> (r: Option<String>)
    ensures
        spares_emulators(old(runner).calls(), final(runner).calls()),
        exists|w: Option<Seq<char>>, root: Option<Seq<char>>, e: bool|
            opt_view(r) == #[trigger] find_choice(w, root, e, "keytool"@, seq!["bin"@]),
        find_trace("keytool"@, "JAVA_HOME"@, seq!["bin"@], since(old(runner).calls(), final(runner).calls()), opt_view(r)),
{
    let parts = ["bin"];
    assert(str_views(parts@) =~= seq!["bin"@]);
    find(runner, "keytool", "JAVA_HOME", &parts)
}

/// `adb`: on `PATH` or at `$ANDROID_HOME/platform-tools/adb`.
pub fn adb<R: Runner>(runner: &mut Session<R>) -> (r: Option<String>)
    ensures
        spares_emulators(old(runner).calls(), final(runner).calls()),
        exists|w: Option<Seq<char>>, root: Option<Seq<char>>, e: bool|
            opt_view(r) == #[trigger] find_choice(w, root, e, "adb"@, seq!["platform-tools"@]),
        find_trace("adb"@, "ANDROID_HOME"@, seq!["platform-tools"@], since(old(runner).calls(), final(runner).calls()), opt_view(r)),
{
    let parts = ["platform-tools"];
    assert(str_views(parts@) =~= seq!["platform-tools"@]);
    find(runner, "adb", "ANDROID_HOME", &parts)
}

/// `emulator`: on `PATH` or at `$ANDROID_HOME/emulator/emulator`.
pub fn emulator<R: Runner>(runner: &mut Session<R>) -> (r: Option<String>)
    ensures
        spares_emulators(old(runner).calls(), final(runner).calls()),
        exists|w: Option<Seq<char>>, root: Option<Seq<char>>, e: bool|
            opt_view(r) == #[trigger] find_choice(w, root, e, "emulator"@, seq!["emulator"@]),
        find_trace("emulator"@, "ANDROID_HOME"@, seq!["emulator"@], since(old(runner).calls(), final(runner).calls()), opt_view(r)),
{
    let parts = ["emulator"];
    assert(str_views(parts@) =~= seq!["emulator"@]);
    find(runner, "emulator", "ANDROID_HOME", &parts)
}

/// A tool on `PATH` is used as found there; otherwise the candidate under
/// the environment variable's directory is used when it exists; otherwise the
/// tool is not found.
pub proof fn lemma_find_choice(which: Option<Seq<char>>, root: Option<Seq<char>>, candidate_exists: bool, executable: Seq<char>, subpath: Seq<Seq<char>>)
    ensures
        which is Some ==> find_choice(which, root, candidate_exists, executable, subpath) == which,
        which is None && root is Some && candidate_exists
            ==> find_choice(which, root, candidate_exists, executable, subpath) == Some(path_join(join_all(root->0, subpath), executable)),
        which is None && (root is None || !candidate_exists) ==> find_choice(which, root, candidate_exists, executable, subpath) is None,
{
}

} // verus!
