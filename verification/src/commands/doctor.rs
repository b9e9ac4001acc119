//! `mdev doctor`: check the development environment.
use vstd::prelude::*;
use crate::commands::tool_locator;
use crate::json::{find_member, json_get, parse_json, parsed_json, str_member_of, Json};
use crate::paths::join_path;
use crate::runner::{HostOs, Level, Runner};
use crate::session::{extends, is_run, reply_of, since, strs_view, Call, Session};
use crate::paths::path_join;
use crate::text::{cat, chars_of, contains, decimal, decimal_text, lines, lines_of, str_contains, string_of};

verus! {

/// How many checks `run` makes.
pub const TOTAL: usize = 10;

/// The result of one check.
#[derive(Debug, Clone, Copy, PartialEq, Eq, Structural)]
pub enum Check {
    Pass,
    Fail,
    /// A soft pass with a warning.
    Warn,
    /// A pass because the check does not apply here.
    Skip,
}

/// How many of `checks` failed.
pub open spec fn fail_count(checks: Seq<Check>) -> nat
    decreases checks.len(),
{
    if checks.len() == 0 {
        0
    } else {
        fail_count(checks.drop_last()) + if checks.last() == Check::Fail { 1nat } else { 0nat }
    }
}

/// The exit code and closing line of a doctor run whose checks came out as
/// `checks`: failures make it 1, and every check that did not fail counts as
/// passed.
pub open spec fn summary_of(checks: Seq<Check>) -> (i32, Seq<char>) {
    let fails = fail_count(checks);
    let passes = (checks.len() - fails) as nat;
    if fails > 0 {
        (1, decimal(passes) + "/"@ + decimal(TOTAL as nat) + " checks passed ("@ + decimal(fails) + " issue(s) found)"@)
    } else {
        (0, decimal(passes) + "/"@ + decimal(TOTAL as nat) + " checks passed"@)
    }
}

/// The exit code and closing line; see `summary_of`.
pub fn summary(checks: &[Check]) -> (r: (i32, String))
    ensures
        r.0 == summary_of(checks@).0,
        r.1@ == summary_of(checks@).1,
{
    let mut fails: usize = 0;
    let mut i: usize = 0;
    while i < checks.len()
        invariant
            i <= checks@.len(),
            fails as nat == fail_count(checks@.take(i as int)),
            fails <= i,
        decreases checks.len() - i,
    {
        assert(checks@.take(i + 1).drop_last() =~= checks@.take(i as int));
        if checks[i] == Check::Fail {
            fails = fails + 1;
        }
        i = i + 1;
    }
    assert(checks@.take(checks@.len() as int) =~= checks@);
    let passes = decimal_text((checks.len() - fails) as u64);
    let total = decimal_text(TOTAL as u64);
    if fails > 0 {
        let f = decimal_text(fails as u64);
        let a = crate::text::concat(passes.as_str(), "/");
        let b = crate::text::concat(a.as_str(), total.as_str());
        let c = crate::text::concat(b.as_str(), " checks passed (");
        let d = crate::text::concat(c.as_str(), f.as_str());
        (1, crate::text::concat(d.as_str(), " issue(s) found)"))
    } else {
        let a = crate::text::concat(passes.as_str(), "/");
        let b = crate::text::concat(a.as_str(), total.as_str());
        (0, crate::text::concat(b.as_str(), " checks passed"))
    }
}

/// The `frameworkVersion` of a parsed `flutter --version --machine` reply.
pub open spec fn framework_version_of(doc: Json) -> Option<Seq<char>> {
    match json_get(doc, "frameworkVersion"@) {
        Some(Json::Str(s)) => Some(s@),
        _ => None,
    }
}

/// The `frameworkVersion` of a parsed reply; see `framework_version_of`.
pub fn framework_version(doc: &Json) -> (r: Option<String>)
    ensures
        crate::text::opt_view(r) == framework_version_of(*doc),
{
    match doc {
        Json::Object(f) => match str_member_of(f, "frameworkVersion") {
            Some(s) => Some(s.to_string()),
            None => None,
        },
        _ => None,
    }
}

/// The Flutter version that `flutter --version --machine` printed, when the
/// text is JSON with a string `frameworkVersion`.
pub fn parse_flutter_version(stdout: &str) -> (r: Option<String>)
    ensures
        crate::text::opt_view(r) == match parsed_json(stdout@) {
            Some(doc) => framework_version_of(doc),
            None => None,
        },
{
    match parse_json(stdout) {
        Some(doc) => framework_version(&doc),
        None => None,
    }
}

/// The runtime entry `r` is an iOS simulator runtime.
pub open spec fn ios_runtime_entry(r: Json) -> bool {
    match json_get(r, "identifier"@) {
        Some(Json::Str(id)) => contains(id@, "com.apple.CoreSimulator.SimRuntime.iOS"@),
        _ => false,
    }
}

/// A parsed `simctl list runtimes --json` reply lists an iOS runtime.
pub open spec fn lists_ios_runtime(doc: Json) -> bool {
    match json_get(doc, "runtimes"@) {
        Some(Json::Array(rs)) => exists|i: int| 0 <= i < rs@.len() && ios_runtime_entry(#[trigger] rs@[i]),
        _ => false,
    }
}

/// Whether a parsed reply lists an iOS runtime; see `lists_ios_runtime`.
pub fn has_ios_runtime(doc: &Json) -> (b: bool)
    ensures
        b == lists_ios_runtime(*doc),
{
    let fields = match doc {
        Json::Object(f) => f,
        _ => return false,
    };
    let rs = match find_member(fields, "runtimes") {
        Some(Json::Array(rs)) => rs,
        _ => return false,
    };
    let mut i: usize = 0;
    while i < rs.len()
        invariant
            i <= rs@.len(),
            json_get(*doc, "runtimes"@) == Some(Json::Array(*rs)),
            forall|k: int| 0 <= k < i ==> !ios_runtime_entry(#[trigger] rs@[k]),
        decreases rs.len() - i,
    {
        if let Json::Object(f) = &rs[i] {
            if let Some(id) = str_member_of(f, "identifier") {
                if str_contains(id, "com.apple.CoreSimulator.SimRuntime.iOS") {
                    let ghost v: Vec<Json> = match json_get(*doc, "runtimes"@) {
                        Some(Json::Array(v)) => v,
                        _ => *rs,
                    };
                    assert(v@ == rs@);
                    assert(ios_runtime_entry(v@[i as int]));
                    assert(lists_ios_runtime(*doc));
                    return true;
                }
            }
        }
        i = i + 1;
    }
    false
}

/// Whether the text of `simctl list runtimes --json` lists an iOS runtime;
/// false when it is not JSON.
pub fn check_ios_runtimes(stdout: &str) -> (b: bool)
    ensures
        b == match parsed_json(stdout@) {
            Some(doc) => lists_ios_runtime(doc),
            None => false,
        },
{
    match parse_json(stdout) {
        Some(doc) => has_ios_runtime(&doc),
        None => false,
    }
}

/// The first line of `s` (empty when `s` has none).
pub open spec fn first_line_of(s: Seq<char>) -> Seq<char> {
    if lines(s).len() > 0 { lines(s)[0] } else { Seq::empty() }
}

/// The first line of `s`; see `first_line_of`.
pub fn first_line(s: &str) -> (r: String)
    ensures
        r@ == first_line_of(s@),
{
    let ls = lines_of(chars_of(s).as_slice());
    if ls.len() > 0 {
        string_of(ls[0].as_slice())
    } else {
        String::new()
    }
}

/// `dir` is one of the `:`-separated entries of `path_var`.
pub open spec fn in_path_list(path_var: Seq<char>, dir: Seq<char>) -> bool {
    crate::text::split(path_var, ':').contains(dir)
}

/// Whether `dir` is one of the `:`-separated entries of `path_var`.
pub fn path_list_contains(path_var: &str, dir: &str) -> (b: bool)
    ensures
        b == in_path_list(path_var@, dir@),
{
    let parts = crate::text::split_chars(chars_of(path_var).as_slice(), ':');
    let d = chars_of(dir);
    let ghost pv = crate::text::split(path_var@, ':');
    assert forall|k: int| 0 <= k < parts@.len() implies #[trigger] parts@[k]@ == pv[k] by {
        assert(parts.deep_view()[k] == parts@[k]@);
    }
    let mut i: usize = 0;
    while i < parts.len()
        invariant
            i <= parts@.len(),
            parts@.len() == pv.len(),
            pv == crate::text::split(path_var@, ':'),
            forall|k: int| 0 <= k < parts@.len() ==> #[trigger] parts@[k]@ == pv[k],
            forall|k: int| 0 <= k < i ==> #[trigger] pv[k] != d@,
            d@ == dir@,
        decreases parts.len() - i,
    {
        if crate::text::chars_eq(parts[i].as_slice(), d.as_slice()) {
            assert(parts@[i as int]@ == pv[i as int]);
            assert(pv[i as int] == dir@);
            assert(pv.contains(dir@));
            return true;
        }
        i = i + 1;
    }
    false
}

/// Shows the line of one check; not recorded.
fn report_check<R: Runner>(runner: &mut Session<R>, check: Check, msg: &str)
    ensures
        final(runner).calls() == old(runner).calls(),
{
    match check {
        Check::Pass => runner.report(Level::Success, cat(&["✓ ", msg]).as_str()),
        Check::Fail => runner.report(Level::Error, cat(&["✗ ", msg]).as_str()),
        Check::Warn => runner.report(Level::Warn, cat(&["! ", msg]).as_str()),
        Check::Skip => runner.report(Level::Detail, cat(&["~ ", msg]).as_str()),
    }
}

/// Pass when `ok`, else `other`.
pub open spec fn pass_if(ok: bool, other: Check) -> Check {
    if ok { Check::Pass } else { other }
}

/// The Flutter check recorded as exactly `t` came to `c`: `flutter --version
/// --machine`, passed when it worked and printed something.
pub open spec fn flutter_step(t: Seq<Call>, c: Check) -> bool {
    &&& t.len() == 1
    &&& is_run(t[0], "flutter"@, seq!["--version"@, "--machine"@])
    &&& c == pass_if(reply_of(t[0]).exit_code == 0 && reply_of(t[0]).stdout@.len() > 0, Check::Fail)
}

/// The adb check recorded as exactly `t` came to `c`: the lookup of `adb`,
/// then `adb version`, passed when it worked; failed without `adb`.
pub open spec fn adb_step(t: Seq<Call>, c: Check) -> bool {
    exists|k: int, a: Option<Seq<char>>|
        1 <= k <= t.len() && #[trigger] tool_locator::find_trace("adb"@, "ANDROID_HOME"@, seq!["platform-tools"@], t.take(k), a)
        && match a {
            None => k == t.len() && c == Check::Fail,
            Some(p) => t.len() == k + 1 && is_run(t[k], p, seq!["version"@]) && c == pass_if(reply_of(t[k]).exit_code == 0, Check::Fail),
        }
}

/// The check of the directory variable `var`, recorded as exactly `t`, came
/// to `c`: the variable, then whether its directory exists and is a
/// directory; passed exactly when it is set to an existing directory.
pub open spec fn env_dir_step(var: Seq<char>, t: Seq<Call>, c: Check) -> bool {
    &&& t.len() >= 1
    &&& t[0] is EnvVar
    &&& t[0]->EnvVar_name == var
    &&& match t[0]->EnvVar_reply {
        None => t.len() == 1 && c == Check::Fail,
        Some(dir) => t.len() >= 2 && t[1] == (Call::PathExists { path: dir, reply: t[1]->PathExists_reply }) && if !t[1]->PathExists_reply {
            t.len() == 2 && c == Check::Fail
        } else {
            t.len() == 3 && t[2] == (Call::IsDir { path: dir, reply: t[2]->IsDir_reply }) && c == pass_if(t[2]->IsDir_reply, Check::Fail)
        },
    }
}

/// The licenses check, recorded as exactly `t`, came to `c`: `$ANDROID_HOME`
/// (a warning when unset), then whether `licenses` under it exists, is a
/// directory and has entries; passed exactly when it has some.
pub open spec fn licenses_step(t: Seq<Call>, c: Check) -> bool {
    &&& t.len() >= 1
    &&& t[0] is EnvVar
    &&& t[0]->EnvVar_name == "ANDROID_HOME"@
    &&& match t[0]->EnvVar_reply {
        None => t.len() == 1 && c == Check::Warn,
        Some(home) => {
            let lic = path_join(home, "licenses"@);
            &&& t.len() >= 2
            &&& t[1] == (Call::PathExists { path: lic, reply: t[1]->PathExists_reply })
            &&& if !t[1]->PathExists_reply {
                t.len() == 2 && c == Check::Fail
            } else {
                &&& t.len() >= 3
                &&& t[2] == (Call::IsDir { path: lic, reply: t[2]->IsDir_reply })
                &&& if !t[2]->IsDir_reply {
                    t.len() == 3 && c == Check::Fail
                } else {
                    &&& t.len() == 4
                    &&& t[3] is DirEntries
                    &&& t[3]->DirEntries_path == lic
                    &&& c == pass_if(t[3]->DirEntries_reply is Some && t[3]->DirEntries_reply->0.len() > 0, Check::Fail)
                }
            }
        },
    }
}

/// The keytool check, recorded as exactly `t`, came to `c`: the lookup of
/// `keytool`, passed exactly when it was found.
pub open spec fn keytool_step(t: Seq<Call>, c: Check) -> bool {
    exists|r: Option<Seq<char>>|
        #[trigger] tool_locator::find_trace("keytool"@, "JAVA_HOME"@, seq!["bin"@], t, r) && c == pass_if(r is Some, Check::Fail)
}

/// A macOS-only tool check, recorded as exactly `t`, came to `c`: the host
/// question (skipped off macOS), then `tool args`, passed when it worked.
pub open spec fn tool_step(tool: Seq<char>, args: Seq<Seq<char>>, t: Seq<Call>, c: Check) -> bool {
    &&& t.len() >= 1
    &&& t[0] is Host
    &&& if t[0]->Host_reply != HostOs::MacOs {
        t.len() == 1 && c == Check::Skip
    } else {
        t.len() == 2 && is_run(t[1], tool, args) && c == pass_if(reply_of(t[1]).exit_code == 0, Check::Fail)
    }
}

/// The simulator runtimes check, recorded as exactly `t`, came to `c`: the
/// host question (skipped off macOS), then `xcrun simctl list runtimes
/// --json`, passed when it worked and lists an iOS runtime.
pub open spec fn runtimes_step(t: Seq<Call>, c: Check) -> bool {
    &&& t.len() >= 1
    &&& t[0] is Host
    &&& if t[0]->Host_reply != HostOs::MacOs {
        t.len() == 1 && c == Check::Skip
    } else {
        let r = reply_of(t[1]);
        &&& t.len() == 2
        &&& is_run(t[1], "xcrun"@, seq!["simctl"@, "list"@, "runtimes"@, "--json"@])
        &&& c == pass_if(r.exit_code == 0 && r.stdout@.len() > 0 && match parsed_json(r.stdout@) {
            Some(doc) => lists_ios_runtime(doc),
            None => false,
        }, Check::Fail)
    }
}

/// The text of an optional answer, empty without one.
pub open spec fn or_empty(v: Option<Seq<char>>) -> Seq<char> {
    match v {
        Some(x) => x,
        None => Seq::empty(),
    }
}

/// The `~/.pub-cache/bin` check, recorded as exactly `t`, came to `c`: the
/// home directory, then `$PATH`; passed when the directory is one of its
/// entries, a warning otherwise.
pub open spec fn pub_cache_step(t: Seq<Call>, c: Check) -> bool {
    &&& t.len() == 2
    &&& t[0] is HomeDir
    &&& t[1] is EnvVar
    &&& t[1]->EnvVar_name == "PATH"@
    &&& c == pass_if(in_path_list(or_empty(t[1]->EnvVar_reply), path_join(or_empty(t[0]->HomeDir_reply), ".pub-cache/bin"@)), Check::Warn)
}

/// Check number `i` of `run`, recorded as exactly `t`, came to `c`.
pub open spec fn doctor_step(i: int, t: Seq<Call>, c: Check) -> bool {
    if i == 0 {
        flutter_step(t, c)
    } else if i == 1 {
        adb_step(t, c)
    } else if i == 2 {
        env_dir_step("ANDROID_HOME"@, t, c)
    } else if i == 3 {
        licenses_step(t, c)
    } else if i == 4 {
        env_dir_step("JAVA_HOME"@, t, c)
    } else if i == 5 {
        keytool_step(t, c)
    } else if i == 6 {
        tool_step("xcrun"@, seq!["--version"@], t, c)
    } else if i == 7 {
        tool_step("xcodebuild"@, seq!["-version"@], t, c)
    } else if i == 8 {
        runtimes_step(t, c)
    } else {
        i == 9 && pub_cache_step(t, c)
    }
}

/// The requests `t` split at `cuts` into the first `checks.len()` checks of
/// `run`, which came to `checks`.
pub open spec fn doctor_prefix(t: Seq<Call>, cuts: Seq<int>, checks: Seq<Check>) -> bool {
    &&& cuts.len() == checks.len() + 1
    &&& cuts[0] == 0
    &&& cuts.last() == t.len()
    &&& forall|i: int| 0 <= i < cuts.len() ==> 0 <= #[trigger] cuts[i] <= t.len()
    &&& forall|i: int, j: int| 0 <= i <= j < cuts.len() ==> #[trigger] cuts[i] <= #[trigger] cuts[j]
    &&& forall|i: int| 0 <= i < checks.len() ==> #[trigger] doctor_step(i, t.subrange(cuts[i], cuts[i + 1]), checks[i])
}

/// What `run` asked (`t`) and answered (`code`): the checks in order, each
/// as `doctor_step` says, and the code of their summary.
pub open spec fn doctor_trace(t: Seq<Call>, code: i32) -> bool {
    exists|cuts: Seq<int>, checks: Seq<Check>|
        #[trigger] doctor_prefix(t, cuts, checks) && checks.len() == TOTAL && code == summary_of(checks).0
}

/// One more check recorded after those of `doctor_prefix`.
proof fn lemma_doctor_push(start: Seq<Call>, mid: Seq<Call>, end: Seq<Call>, cuts: Seq<int>, checks: Seq<Check>, c: Check)
    requires
        extends(start, mid),
        extends(mid, end),
        doctor_prefix(since(start, mid), cuts, checks),
        doctor_step(checks.len() as int, since(mid, end), c),
    ensures
        doctor_prefix(since(start, end), cuts.push(since(start, end).len() as int), checks.push(c)),
{
    crate::session::lemma_since_prefix(start, mid, end);
    let a = since(start, mid);
    let t = since(start, end);
    let cuts2 = cuts.push(t.len() as int);
    let checks2 = checks.push(c);
    assert forall|i: int| 0 <= i < cuts2.len() implies 0 <= #[trigger] cuts2[i] <= t.len() by {
        if i < cuts.len() {
            assert(cuts2[i] == cuts[i]);
        }
    }
    assert forall|i: int, j: int| 0 <= i <= j < cuts2.len() implies #[trigger] cuts2[i] <= #[trigger] cuts2[j] by {
        if j < cuts.len() {
            assert(cuts2[i] == cuts[i] && cuts2[j] == cuts[j]);
        } else if i < cuts.len() {
            assert(cuts2[i] == cuts[i]);
            assert(0 <= cuts[i] <= a.len());
        }
    }
    assert forall|i: int| 0 <= i < checks2.len() implies #[trigger] doctor_step(i, t.subrange(cuts2[i], cuts2[i + 1]), checks2[i]) by {
        if i < checks.len() {
            assert(cuts2[i] == cuts[i] && cuts2[i + 1] == cuts[i + 1]);
            assert(doctor_step(i, a.subrange(cuts[i], cuts[i + 1]), checks[i]));
            assert(cuts[i] <= cuts[i + 1]);
            assert(0 <= cuts[i] && cuts[i + 1] <= a.len());
            assert(t.subrange(cuts[i], cuts[i + 1]) =~= a.subrange(cuts[i], cuts[i + 1]));
        } else {
            assert(cuts2[i] == cuts.last());
            assert(t.subrange(cuts2[i], cuts2[i + 1]) =~= since(mid, end));
        }
    }
    assert(cuts2[0] == 0);
}

fn flutter_check<R: Runner>(runner: &mut Session<R>) -> (c: Check)
    ensures
        extends(old(runner).calls(), final(runner).calls()),
        flutter_step(since(old(runner).calls(), final(runner).calls()), c),
{
    let flutter_args = ["--version", "--machine"];
    assert(strs_view(flutter_args@) =~= seq!["--version"@, "--machine"@]);
    let flutter = runner.run("flutter", &flutter_args, None);
    assert(since(old(runner).calls(), runner.calls())[0] == runner.calls().last());
    if flutter.is_success() && !flutter.stdout.as_str().is_empty() {
        let version = match parse_flutter_version(flutter.stdout.as_str()) {
            Some(v) => v,
            None => "unknown".to_string(),
        };
        report_check(runner, Check::Pass, cat(&["Flutter SDK: ", version.as_str()]).as_str());
        Check::Pass
    } else {
        report_check(runner, Check::Fail, "Flutter SDK not found. Install from https://flutter.dev");
        Check::Fail
    }
}

fn adb_check<R: Runner>(runner: &mut Session<R>) -> (c: Check)
    ensures
        extends(old(runner).calls(), final(runner).calls()),
        adb_step(since(old(runner).calls(), final(runner).calls()), c),
{
    let ghost start = runner.calls();
    let found = tool_locator::adb(runner);
    let ghost looked = runner.calls();
    match found {
        Some(adb) => {
            let version_args = ["version"];
            assert(strs_view(version_args@) =~= seq!["version"@]);
            let result = runner.run(adb.as_str(), &version_args, None);
            proof {
                crate::session::lemma_since_prefix(start, looked, runner.calls());
                let t = since(start, runner.calls());
                let k = since(start, looked).len() as int;
                assert(t.take(k) =~= since(start, looked));
                assert(t[k] == runner.calls().last());
                assert(tool_locator::find_trace("adb"@, "ANDROID_HOME"@, seq!["platform-tools"@], t.take(k), Some(adb@)));
            }
            if result.is_success() {
                let line = first_line(result.stdout.as_str());
                report_check(runner, Check::Pass, cat(&["adb: ", line.as_str()]).as_str());
                Check::Pass
            } else {
                report_check(runner, Check::Fail, "adb found but failed to run.");
                Check::Fail
            }
        },
        None => {
            report_check(runner, Check::Fail, "adb not found. Install Android SDK platform-tools.");
            proof {
                let t = since(start, runner.calls());
                assert(t.take(t.len() as int) =~= t);
                assert(tool_locator::find_trace("adb"@, "ANDROID_HOME"@, seq!["platform-tools"@], t.take(t.len() as int), None));
            }
            Check::Fail
        },
    }
}

fn env_dir_check<R: Runner>(runner: &mut Session<R>, var: &str) -> (c: Check)
    ensures
        extends(old(runner).calls(), final(runner).calls()),
        env_dir_step(var@, since(old(runner).calls(), final(runner).calls()), c),
{
    let ghost start = runner.calls();
    let value = runner.env_var(var);
    proof { assert(since(start, runner.calls())[0] == runner.calls().last()); }
    match value {
        Some(dir) => {
            let ghost a = runner.calls();
            let exists = runner.path_exists(dir.as_str());
            proof {
                assert(since(start, runner.calls())[0] == a.last());
                assert(since(start, runner.calls())[1] == runner.calls().last());
            }
            if exists {
                let ghost b = runner.calls();
                let is_dir = runner.is_dir(dir.as_str());
                proof {
                    assert(since(start, runner.calls())[0] == a.last());
                    assert(since(start, runner.calls())[1] == b.last());
                    assert(since(start, runner.calls())[2] == runner.calls().last());
                }
                if is_dir {
                    report_check(runner, Check::Pass, cat(&["$", var, " set and exists: ", dir.as_str()]).as_str());
                    return Check::Pass;
                }
            }
            report_check(
                runner,
                Check::Fail,
                cat(&["$", var, " is set to '", dir.as_str(), "' but directory does not exist."]).as_str(),
            );
            Check::Fail
        },
        None => {
            report_check(runner, Check::Fail, cat(&["$", var, " is not set."]).as_str());
            Check::Fail
        },
    }
}

fn licenses_check<R: Runner>(runner: &mut Session<R>) -> (c: Check)
    ensures
        extends(old(runner).calls(), final(runner).calls()),
        licenses_step(since(old(runner).calls(), final(runner).calls()), c),
{
    let ghost start = runner.calls();
    let value = runner.env_var("ANDROID_HOME");
    let ghost c0 = runner.calls();
    proof { assert(since(start, c0)[0] == c0.last()); }
    match value {
        Some(home) => {
            let licenses = join_path(home.as_str(), "licenses");
            let exists = runner.path_exists(licenses.as_str());
            let ghost c1 = runner.calls();
            proof {
                assert(since(start, c1)[0] == c0.last());
                assert(since(start, c1)[1] == c1.last());
            }
            if !exists {
                report_check(runner, Check::Fail, "Android SDK licenses not accepted. Run: flutter doctor --android-licenses");
                return Check::Fail;
            }
            let is_dir = runner.is_dir(licenses.as_str());
            let ghost c2 = runner.calls();
            proof {
                assert(since(start, c2)[0] == c0.last());
                assert(since(start, c2)[1] == c1.last());
                assert(since(start, c2)[2] == c2.last());
            }
            if !is_dir {
                report_check(runner, Check::Fail, "Android SDK licenses not accepted. Run: flutter doctor --android-licenses");
                return Check::Fail;
            }
            let entries = runner.dir_entries(licenses.as_str());
            proof {
                assert(since(start, runner.calls())[0] == c0.last());
                assert(since(start, runner.calls())[1] == c1.last());
                assert(since(start, runner.calls())[2] == c2.last());
                assert(since(start, runner.calls())[3] == runner.calls().last());
            }
            let count = match entries {
                Some(e) => e.len(),
                None => 0,
            };
            if count > 0 {
                report_check(runner, Check::Pass, "Android SDK licenses accepted.");
                Check::Pass
            } else {
                report_check(
                    runner,
                    Check::Fail,
                    "Android SDK licenses directory is empty. Run: flutter doctor --android-licenses",
                );
                Check::Fail
            }
        },
        None => {
            report_check(runner, Check::Warn, "$ANDROID_HOME not set, cannot check licenses (soft pass).");
            Check::Warn
        },
    }
}

fn keytool_check<R: Runner>(runner: &mut Session<R>) -> (c: Check)
    ensures
        extends(old(runner).calls(), final(runner).calls()),
        keytool_step(since(old(runner).calls(), final(runner).calls()), c),
{
    match tool_locator::keytool(runner) {
        Some(kt) => {
            report_check(runner, Check::Pass, cat(&["keytool: ", kt.as_str()]).as_str());
            Check::Pass
        },
        None => {
            report_check(runner, Check::Fail, "keytool not found. Install a JDK and set $JAVA_HOME.");
            Check::Fail
        },
    }
}

/// A macOS-only tool that answers `args` with its version on the first line.
fn tool_version_check<R: Runner>(runner: &mut Session<R>, tool: &str, args: &[&str], missing: &str) -> (c: Check)
    ensures
        extends(old(runner).calls(), final(runner).calls()),
        tool_step(tool@, strs_view(args@), since(old(runner).calls(), final(runner).calls()), c),
{
    let ghost start = runner.calls();
    let host = runner.host_os();
    let ghost c0 = runner.calls();
    proof { assert(since(start, c0)[0] == c0.last()); }
    if host != HostOs::MacOs {
        report_check(runner, Check::Skip, cat(&[tool, ": skipped (not macOS)"]).as_str());
        return Check::Skip;
    }
    let result = runner.run(tool, args, None);
    proof {
        assert(since(start, runner.calls())[0] == c0.last());
        assert(since(start, runner.calls())[1] == runner.calls().last());
    }
    if result.is_success() {
        let line = first_line(result.stdout.as_str());
        report_check(runner, Check::Pass, cat(&[tool, ": ", line.as_str()]).as_str());
        Check::Pass
    } else {
        report_check(runner, Check::Fail, missing);
        Check::Fail
    }
}

fn runtimes_check<R: Runner>(runner: &mut Session<R>) -> (c: Check)
    ensures
        extends(old(runner).calls(), final(runner).calls()),
        runtimes_step(since(old(runner).calls(), final(runner).calls()), c),
{
    let ghost start = runner.calls();
    let host = runner.host_os();
    let ghost c0 = runner.calls();
    proof { assert(since(start, c0)[0] == c0.last()); }
    if host != HostOs::MacOs {
        report_check(runner, Check::Skip, "iOS Simulators: skipped (not macOS)");
        return Check::Skip;
    }
    let runtime_args = ["simctl", "list", "runtimes", "--json"];
    assert(strs_view(runtime_args@) =~= seq!["simctl"@, "list"@, "runtimes"@, "--json"@]);
    let result = runner.run("xcrun", &runtime_args, None);
    proof {
        assert(since(start, runner.calls())[0] == c0.last());
        assert(since(start, runner.calls())[1] == runner.calls().last());
    }
    if result.is_success() && !result.stdout.as_str().is_empty() {
        if check_ios_runtimes(result.stdout.as_str()) {
            report_check(runner, Check::Pass, "iOS Simulator runtime(s) available.");
            Check::Pass
        } else {
            report_check(
                runner,
                Check::Fail,
                "No iOS Simulator runtimes found. Download via Xcode > Preferences > Components.",
            );
            Check::Fail
        }
    } else {
        report_check(runner, Check::Fail, "Could not list simulator runtimes.");
        Check::Fail
    }
}

fn pub_cache_check<R: Runner>(runner: &mut Session<R>) -> (c: Check)
    ensures
        extends(old(runner).calls(), final(runner).calls()),
        pub_cache_step(since(old(runner).calls(), final(runner).calls()), c),
{
    let ghost start = runner.calls();
    let home_reply = runner.home_dir();
    let ghost c0 = runner.calls();
    let home = match home_reply {
        Some(h) => h,
        None => String::new(),
    };
    let pub_bin = join_path(home.as_str(), ".pub-cache/bin");
    let path_reply = runner.env_var("PATH");
    proof {
        assert(since(start, runner.calls())[0] == c0.last());
        assert(since(start, runner.calls())[1] == runner.calls().last());
        assert(home@ == or_empty(crate::session::opt_string(home_reply)));
    }
    let path_var = match path_reply {
        Some(p) => p,
        None => String::new(),
    };
    if path_list_contains(path_var.as_str(), pub_bin.as_str()) {
        report_check(runner, Check::Pass, cat(&["~/.pub-cache/bin in $PATH: ", pub_bin.as_str()]).as_str());
        Check::Pass
    } else {
        report_check(
            runner,
            Check::Warn,
            "~/.pub-cache/bin is not in $PATH. Add it to use globally installed Dart tools.",
        );
        Check::Warn
    }
}

/// Runs the checks: Flutter, adb, `$ANDROID_HOME`, the SDK licenses,
/// `$JAVA_HOME`, keytool, xcrun, xcodebuild and the iOS simulator runtimes
/// (the last three on macOS only), and `~/.pub-cache/bin` on `PATH` (a soft
/// check). Returns 1 when any check failed, else 0; see `summary_of`.
pub fn run<R: Runner>(runner: &mut Session<R>) -> (code: i32)
    ensures
        extends(old(runner).calls(), final(runner).calls()),
        code == 0 || code == 1,
        doctor_trace(since(old(runner).calls(), final(runner).calls()), code),
{
    let ghost start = runner.calls();
    runner.report(Level::Info, "mdev doctor");
    runner.report(Level::Info, "──────────────────────────────────────────────────");
    runner.report(Level::Info, "");
    let mut checks: Vec<Check> = Vec::new();
    let ghost mut cuts: Seq<int> = seq![0int];
    proof {
        assert(since(start, runner.calls()) =~= Seq::<Call>::empty());
    }
    let mut step: usize = 0;
    while step < TOTAL
        invariant
            start == old(runner).calls(),
            extends(start, runner.calls()),
            step <= TOTAL,
            checks@.len() == step,
            doctor_prefix(since(start, runner.calls()), cuts, checks@),
        decreases TOTAL - step,
    {
        let ghost before = runner.calls();
        let c = match step {
            0 => flutter_check(runner),
            1 => adb_check(runner),
            2 => env_dir_check(runner, "ANDROID_HOME"),
            3 => licenses_check(runner),
            4 => env_dir_check(runner, "JAVA_HOME"),
            5 => keytool_check(runner),
            6 => {
                let xcrun_args = ["--version"];
                assert(strs_view(xcrun_args@) =~= seq!["--version"@]);
                tool_version_check(
                    runner,
                    "xcrun",
                    &xcrun_args,
                    "xcrun not found. Install Xcode command line tools: xcode-select --install",
                )
            },
            7 => {
                let xcodebuild_args = ["-version"];
                assert(strs_view(xcodebuild_args@) =~= seq!["-version"@]);
                tool_version_check(runner, "xcodebuild", &xcodebuild_args, "xcodebuild not found. Install Xcode from the App Store.")
            },
            8 => runtimes_check(runner),
            _ => pub_cache_check(runner),
        };
        proof {
            lemma_doctor_push(start, before, runner.calls(), cuts, checks@, c);
            cuts = cuts.push(since(start, runner.calls()).len() as int);
        }
        checks.push(c);
        step = step + 1;
    }
    runner.report(Level::Info, "");
    let (code, line) = summary(checks.as_slice());
    if code != 0 {
        runner.report(Level::Error, line.as_str());
    } else {
        runner.report(Level::Success, line.as_str());
    }
    code
}

/// The failures counted are exactly the failed checks: none when no check
/// failed, and never more than there are checks.
pub proof fn lemma_fail_count(checks: Seq<Check>)
    ensures
        fail_count(checks) <= checks.len(),
        fail_count(checks) > 0 <==> exists|i: int| 0 <= i < checks.len() && checks[i] == Check::Fail,
    decreases checks.len(),
{
    if checks.len() > 0 {
        let prev = checks.drop_last();
        lemma_fail_count(prev);
        if exists|i: int| 0 <= i < prev.len() && prev[i] == Check::Fail {
            let i = choose|i: int| 0 <= i < prev.len() && prev[i] == Check::Fail;
            assert(checks[i] == Check::Fail);
        }
        if exists|i: int| 0 <= i < checks.len() && checks[i] == Check::Fail {
            let i = choose|i: int| 0 <= i < checks.len() && checks[i] == Check::Fail;
            if i < prev.len() {
                assert(prev[i] == Check::Fail);
            }
        }
    }
}

/// A doctor run exits 1 exactly when some check failed, and 0 when every
/// check passed, warned or did not apply.
pub proof fn lemma_summary_exit(checks: Seq<Check>)
    ensures
        summary_of(checks).0 == 1 <==> exists|i: int| 0 <= i < checks.len() && checks[i] == Check::Fail,
        summary_of(checks).0 == 0 <==> forall|i: int| 0 <= i < checks.len() ==> checks[i] != Check::Fail,
{
    lemma_fail_count(checks);
}

} // verus!
