//! `mdev keystore`: generate an Android signing keystore with `keytool` and
//! write `android/key.properties` beside it.
use vstd::prelude::*;
use crate::app_detector::AppDetector;
use crate::commands::tool_locator;
use crate::models::{AppInfo, ProjectType};
use crate::paths::{join_path, parent_of, path_parent};
use crate::runner::{Level, Runner};
use crate::session::{changes_disk, extends, is_run, quiet, reads_only, reply_of, since, strs_view, Call, Session};
use crate::text::{cat, chars_of, concat, decimal_text, str_eq, trim, trim_str};

verus! {

/// Options of `mdev keystore`.
#[derive(Debug, Clone, Copy, Default)]
pub struct KeystoreArgs {
    /// Verbose output
    pub verbose: bool,
}

/// How many directories `find_project_root` looks at.
pub const MAX_LEVELS: usize = 10;

/// The number of bytes of `c` in UTF-8.
pub open spec fn utf8_width(c: char) -> nat {
    if (c as u32) < 0x80 {
        1
    } else if (c as u32) < 0x800 {
        2
    } else if (c as u32) < 0x10000 {
        3
    } else {
        4
    }
}

/// The number of bytes of `s` in UTF-8 (`str::len`).
pub open spec fn utf8_len(s: Seq<char>) -> nat
    decreases s.len(),
{
    if s.len() == 0 {
        0
    } else {
        utf8_len(s.drop_last()) + utf8_width(s.last())
    }
}

/// The number of bytes of `s` in UTF-8, saturating at `usize::MAX`.
pub fn byte_len(s: &str) -> (n: usize)
    ensures
        n as nat == if utf8_len(s@) <= usize::MAX { utf8_len(s@) } else { usize::MAX as nat },
{
    let v = chars_of(s);
    let mut n: usize = 0;
    let mut i: usize = 0;
    while i < v.len()
        invariant
            i <= v@.len(),
            v@ == s@,
            n as nat == if utf8_len(v@.take(i as int)) <= usize::MAX { utf8_len(v@.take(i as int)) } else { usize::MAX as nat },
        decreases v.len() - i,
    {
        assert(v@.take(i + 1).drop_last() =~= v@.take(i as int));
        let u = v[i] as u32;
        let w: usize = if u < 0x80 {
            1
        } else if u < 0x800 {
            2
        } else if u < 0x10000 {
            3
        } else {
            4
        };
        n = if n <= usize::MAX - w { n + w } else { usize::MAX };
        i = i + 1;
    }
    assert(v@.take(v@.len() as int) =~= v@);
    n
}

/// A country code: exactly two ASCII uppercase letters.
pub open spec fn country_code(s: Seq<char>) -> bool {
    s.len() == 2 && 'A' <= s[0] <= 'Z' && 'A' <= s[1] <= 'Z'
}

/// Whether `s` is a country code; see `country_code`.
pub fn is_country_code(s: &str) -> (b: bool)
    ensures
        b == country_code(s@),
{
    let v = chars_of(s);
    v.len() == 2 && 'A' <= v[0] && v[0] <= 'Z' && 'A' <= v[1] && v[1] <= 'Z'
}

/// What a text prompt settles on: the trimmed answer when it is not empty,
/// else the default when there is one; `None` asks again.
pub open spec fn answer_or_default(answer: Seq<char>, default: Seq<char>) -> Option<Seq<char>> {
    if trim(answer).len() > 0 {
        Some(trim(answer))
    } else if default.len() > 0 {
        Some(default)
    } else {
        None
    }
}

/// What a text prompt settles on; see `answer_or_default`.
pub fn settle_answer(answer: &str, default: &str) -> (r: Option<String>)
    ensures
        crate::text::opt_view(r) == answer_or_default(answer@, default@),
{
    let t = trim_str(answer);
    if !t.as_str().is_empty() {
        Some(t)
    } else if !default.is_empty() {
        Some(default.to_string())
    } else {
        None
    }
}

/// The distinguished name handed to `keytool`.
pub open spec fn dname_of(cn: Seq<char>, ou: Seq<char>, o: Seq<char>, l: Seq<char>, st: Seq<char>, c: Seq<char>) -> Seq<char> {
    "CN="@ + cn + ", OU="@ + ou + ", O="@ + o + ", L="@ + l + ", ST="@ + st + ", C="@ + c
}

/// The distinguished name handed to `keytool`; see `dname_of`.
pub fn dname(cn: &str, ou: &str, o: &str, l: &str, st: &str, c: &str) -> (r: String)
    ensures
        r@ == dname_of(cn@, ou@, o@, l@, st@, c@),
{
    let r = concat("CN=", cn);
    let r = concat(r.as_str(), ", OU=");
    let r = concat(r.as_str(), ou);
    let r = concat(r.as_str(), ", O=");
    let r = concat(r.as_str(), o);
    let r = concat(r.as_str(), ", L=");
    let r = concat(r.as_str(), l);
    let r = concat(r.as_str(), ", ST=");
    let r = concat(r.as_str(), st);
    let r = concat(r.as_str(), ", C=");
    concat(r.as_str(), c)
}

/// The contents of `key.properties`.
pub open spec fn key_properties_of(store_pw: Seq<char>, key_pw: Seq<char>, alias: Seq<char>, store_file: Seq<char>) -> Seq<char> {
    "storePassword="@ + store_pw + "\nkeyPassword="@ + key_pw + "\nkeyAlias="@ + alias + "\nstoreFile="@ + store_file
        + "\n"@
}

/// The contents of `key.properties`; see `key_properties_of`.
pub fn key_properties(store_pw: &str, key_pw: &str, alias: &str, store_file: &str) -> (r: String)
    ensures
        r@ == key_properties_of(store_pw@, key_pw@, alias@, store_file@),
{
    let r = concat("storePassword=", store_pw);
    let r = concat(r.as_str(), "\nkeyPassword=");
    let r = concat(r.as_str(), key_pw);
    let r = concat(r.as_str(), "\nkeyAlias=");
    let r = concat(r.as_str(), alias);
    let r = concat(r.as_str(), "\nstoreFile=");
    let r = concat(r.as_str(), store_file);
    concat(r.as_str(), "\n")
}

/// The directory `k` levels above `p`, while each step has a parent that is
/// another path.
pub open spec fn ancestor(p: Seq<char>, k: nat) -> Option<Seq<char>>
    decreases k,
{
    if k == 0 {
        Some(p)
    } else {
        match ancestor(p, (k - 1) as nat) {
            Some(q) => match path_parent(q) {
                Some(pp) => if pp != q { Some(pp) } else { None },
                None => None,
            },
            None => None,
        }
    }
}

/// The search for the Flutter root from `dir` as recorded in `t` with result
/// `r`: `dir` and its ancestors in turn, nearest first, were asked whether
/// they hold a `pubspec.yaml`; every answer was no but the last, which was
/// yes exactly when a root `r` was found (the directory asked last); with no
/// root, the search ran out of levels or reached the top of the path.
pub open spec fn root_search(dir: Seq<char>, t: Seq<Call>, r: Option<Seq<char>>) -> bool {
    &&& t.len() <= MAX_LEVELS
    &&& forall|k: int| 0 <= k < t.len() ==> ancestor(dir, k as nat) is Some
        && #[trigger] t[k] == (Call::PathExists {
            path: crate::paths::path_join(ancestor(dir, k as nat)->0, "pubspec.yaml"@),
            reply: r is Some && k == t.len() - 1,
        })
    &&& match r {
        Some(p) => t.len() > 0 && ancestor(dir, (t.len() - 1) as nat) == Some(p),
        None => t.len() == MAX_LEVELS || ancestor(dir, t.len() as nat) is None,
    }
}

/// The nearest of `dir` and its first ancestors (`MAX_LEVELS` directories in
/// all) that holds a `pubspec.yaml`; see `root_search`.
pub fn find_project_root<R: Runner>(runner: &mut Session<R>, dir: &str) -> (r: Option<String>)
    ensures
        reads_only(old(runner).calls(), final(runner).calls()),
        r is Some ==> exists|k: nat| k < MAX_LEVELS && ancestor(dir@, k) == Some(#[trigger] r->0@),
        root_search(dir@, since(old(runner).calls(), final(runner).calls()), crate::text::opt_view(r)),
{
    let ghost start = runner.calls();
    let mut current: String = dir.to_owned();
    let mut level: usize = 0;
    while level < MAX_LEVELS
        invariant
            start == old(runner).calls(),
            reads_only(old(runner).calls(), runner.calls()),
            level <= MAX_LEVELS,
            ancestor(dir@, level as nat) == Some(current@),
            extends(start, runner.calls()),
            since(start, runner.calls()).len() == level,
            forall|k: int| 0 <= k < level ==> ancestor(dir@, k as nat) is Some
                && #[trigger] since(start, runner.calls())[k] == (Call::PathExists {
                    path: crate::paths::path_join(ancestor(dir@, k as nat)->0, "pubspec.yaml"@),
                    reply: false,
                }),
        decreases MAX_LEVELS - level,
    {
        let ghost before = runner.calls();
        let marker = join_path(current.as_str(), "pubspec.yaml");
        let found = runner.path_exists(marker.as_str());
        let ghost t = since(start, runner.calls());
        proof {
            assert forall|k: int| 0 <= k < level implies t[k] == since(start, before)[k] by {}
            assert(t.len() == level + 1);
            assert(t[level as int] == runner.calls().last());
            assert(t[level as int] == (Call::PathExists {
                path: crate::paths::path_join(ancestor(dir@, level as nat)->0, "pubspec.yaml"@),
                reply: found,
            }));
        }
        if found {
            proof {
                assert(crate::text::opt_view(Some(current)) == Some(current@));
            }
            return Some(current);
        }
        match parent_of(current.as_str()) {
            Some(p) => {
                if str_eq(p.as_str(), current.as_str()) {
                    assert(ancestor(dir@, (level + 1) as nat) is None);
                    return None;
                }
                assert(ancestor(dir@, (level + 1) as nat) == Some(p@));
                current = p;
            },
            None => {
                assert(ancestor(dir@, (level + 1) as nat) is None);
                return None;
            },
        }
        proof {
            assert forall|k: int| 0 <= k < level + 1 implies ancestor(dir@, k as nat) is Some
                && #[trigger] since(start, runner.calls())[k] == (Call::PathExists {
                    path: crate::paths::path_join(ancestor(dir@, k as nat)->0, "pubspec.yaml"@),
                    reply: false,
                }) by {
                assert(since(start, runner.calls()) == t);
            }
        }
        level = level + 1;
    }
    None
}

/// What the closing hint names as the detected app: its Android package id,
/// else its Flutter name, else nothing.
pub open spec fn app_id_of(info: AppInfo) -> Seq<char> {
    match info.android_package_id {
        Some(id) => id@,
        None => info.flutter_name@,
    }
}

/// What the closing hint names as the detected app; see `app_id_of`.
pub fn app_id(info: &AppInfo) -> (r: String)
    ensures
        r@ == app_id_of(*info),
{
    match &info.android_package_id {
        Some(id) => id.clone(),
        None => info.flutter_name.clone(),
    }
}

/// Asks until the answer settles; see `answer_or_default`.
fn prompt_non_empty<R: Runner>(runner: &mut Session<R>, prompt: &str, default: &str) -> (r: String)
    ensures
        reads_only(old(runner).calls(), final(runner).calls()),
        r@ == default@ || exists|a: Seq<char>| Some(r@) == #[trigger] answer_or_default(a, default@),
        r@.len() > 0 || default@.len() == 0,
{
    let mut tries: usize = 0;
    while tries < usize::MAX
        invariant
            reads_only(old(runner).calls(), runner.calls()),
        decreases usize::MAX - tries,
    {
        let answer = runner.prompt(prompt);
        if let Some(v) = settle_answer(answer.as_str(), default) {
            return v;
        }
        runner.report(Level::Error, "  Value cannot be empty.");
        tries = tries + 1;
    }
    default.to_string()
}

/// Asks for a password of at least `min_len` bytes until it is typed the same
/// twice.
fn prompt_password_confirmed<R: Runner>(runner: &mut Session<R>, prompt: &str, min_len: usize) -> (r: String)
    ensures
        reads_only(old(runner).calls(), final(runner).calls()),
        r@.len() == 0 || utf8_len(r@) >= min_len,
{
    let again = concat("Confirm ", prompt);
    let min_text = decimal_text(min_len as u64);
    let mut tries: usize = 0;
    while tries < usize::MAX
        invariant
            reads_only(old(runner).calls(), runner.calls()),
        decreases usize::MAX - tries,
    {
        tries = tries + 1;
        let pw = runner.prompt_password(prompt);
        if byte_len(pw.as_str()) < min_len {
            runner.report(Level::Error, cat(&["  Password must be at least ", min_text.as_str(), " characters."]).as_str());
            continue;
        }
        let confirm = runner.prompt_password(again.as_str());
        if str_eq(pw.as_str(), confirm.as_str()) {
            return pw;
        }
        runner.report(Level::Error, "  Passwords do not match. Try again.");
    }
    String::new()
}

/// Asks until the trimmed answer is a country code.
fn prompt_country<R: Runner>(runner: &mut Session<R>) -> (r: String)
    ensures
        reads_only(old(runner).calls(), final(runner).calls()),
        country_code(r@) || r@.len() == 0,
{
    let mut tries: usize = 0;
    while tries < usize::MAX
        invariant
            reads_only(old(runner).calls(), runner.calls()),
        decreases usize::MAX - tries,
    {
        let answer = runner.prompt("Country code (2 uppercase letters, e.g. US)");
        let v = trim_str(answer.as_str());
        if is_country_code(v.as_str()) {
            return v;
        }
        runner.report(Level::Error, "  Country must be exactly 2 uppercase letters.");
        tries = tries + 1;
    }
    String::new()
}

/// Generates a keystore from the answers to a series of prompts, writes
/// `android/key.properties` (beside the Flutter project root above
/// `current_dir` when there is one) and prints the next steps. Returns 0 on
/// success, 1 when `keytool` is missing or fails or the file cannot be written.
pub fn run<R: Runner>(args: &KeystoreArgs, runner: &mut Session<R>, current_dir: &str) -> (code: i32)
    ensures
        code == 0 || code == 1,
        extends(old(runner).calls(), final(runner).calls()),
        keystore_trace(since(old(runner).calls(), final(runner).calls()), code),
{
    let ghost start = runner.calls();
    let found = tool_locator::keytool(runner);
    let ghost looked = runner.calls();
    let keytool = match found {
        Some(k) => k,
        None => {
            runner.report(Level::Error, "keytool not found. Install a JDK and ensure $JAVA_HOME is set.");
            proof {
                let t = since(start, runner.calls());
                assert(t.take(t.len() as int) =~= t);
            }
            return 1;
        },
    };
    let ghost kt = keytool@;
    if args.verbose {
        runner.report(Level::Detail, cat(&["Using keytool: ", keytool.as_str()]).as_str());
    }
    runner.report(Level::Info, "Android Keystore Setup");
    let project_root = find_project_root(runner, current_dir);
    let (default_keystore, key_props_path) = match &project_root {
        Some(root) => (join_path(root.as_str(), "android/keystore.jks"), join_path(root.as_str(), "android/key.properties")),
        None => ("android/keystore.jks".to_string(), "android/key.properties".to_string()),
    };
    let keystore_prompt = cat(&["Keystore file [", default_keystore.as_str(), "]"]);
    let keystore_file = prompt_non_empty(runner, keystore_prompt.as_str(), default_keystore.as_str());
    let alias = prompt_non_empty(runner, "Key alias [key]", "key");
    let store_password = prompt_password_confirmed(runner, "Store password (min 6 chars)", 6);
    let key_password = prompt_password_confirmed(runner, "Key password (min 6 chars)", 6);
    let cn = prompt_non_empty(runner, "Your name or organization (CN)", "");
    let ou = prompt_non_empty(runner, "Organizational unit (OU) [Mobile]", "Mobile");
    let org = prompt_non_empty(runner, "Organization (O)", "");
    let locality = prompt_non_empty(runner, "City or Locality (L)", "");
    let state = prompt_non_empty(runner, "State or Province (ST)", "");
    let country = prompt_country(runner);
    let dn = dname(cn.as_str(), ou.as_str(), org.as_str(), locality.as_str(), state.as_str(), country.as_str());
    runner.report(Level::Info, "\nGenerating keystore...");
    let genkey = [
        "-genkey",
        "-v",
        "-keystore",
        keystore_file.as_str(),
        "-alias",
        alias.as_str(),
        "-keyalg",
        "RSA",
        "-keysize",
        "2048",
        "-validity",
        "10000",
        "-storepass",
        store_password.as_str(),
        "-keypass",
        key_password.as_str(),
        "-dname",
        dn.as_str(),
    ];
    let ghost ga = strs_view(genkey@);
    assert(ga.len() == 18 && ga[0] == "-genkey"@ && ga[5] == alias@ && ga[13] == store_password@ && ga[15] == key_password@);
    let ghost before_gen = runner.calls();
    assert(reads_only(looked, before_gen));
    let result = runner.run(keytool.as_str(), &genkey, None);
    let ghost gen_at = before_gen.len() - start.len();
    proof {
        assert(since(start, runner.calls())[gen_at] == runner.calls().last());
    }
    if !result.is_success() {
        runner.report(Level::Error, cat(&["keytool failed: ", result.stderr.as_str()]).as_str());
        if args.verbose {
            runner.report(Level::Error, result.stdout.as_str());
        }
        proof {
            lemma_keystore_done(start, looked, before_gen, runner.calls(), kt, ga, 1);
        }
        return 1;
    }
    runner.report(Level::Success, cat(&["✓ Keystore generated: ", keystore_file.as_str()]).as_str());
    let keystore_abs = match runner.canonicalize(keystore_file.as_str()) {
        Some(p) => p,
        None => keystore_file.clone(),
    };
    let props = key_properties(store_password.as_str(), key_password.as_str(), alias.as_str(), keystore_abs.as_str());
    let ghost before_write = runner.calls();
    let written = runner.write_file(key_props_path.as_str(), props.as_str());
    let ghost after_write = runner.calls();
    match written {
        Ok(()) => runner.report(Level::Success, cat(&["✓ Written: ", key_props_path.as_str()]).as_str()),
        Err(e) => {
            runner.report(Level::Error, cat(&["Failed to write ", key_props_path.as_str(), ": ", e.message.as_str()]).as_str());
            proof {
                lemma_keystore_done(start, looked, before_gen, runner.calls(), kt, ga, 1);
            }
            return 1;
        },
    }
    runner.report(Level::Info, "\nNext steps:");
    runner.report(Level::Info, "  1. Add android/key.properties to your .gitignore");
    runner.report(Level::Info, "  2. Reference it in android/app/build.gradle.kts:");
    runner.report(Level::Info, "     val keyProperties = Properties().apply {");
    runner.report(Level::Info, "       load(rootProject.file(\"key.properties\").inputStream())");
    runner.report(Level::Info, "     }");
    let info = AppDetector::new().detect(runner, current_dir);
    if info.project_type != ProjectType::Unknown {
        let id = app_id(&info);
        if !id.as_str().is_empty() {
            runner.report(Level::Info, cat(&["  3. App detected: ", id.as_str()]).as_str());
        }
    }
    proof {
        let t = since(start, runner.calls());
        let wj = before_write.len() - start.len();
        assert(t[wj] == after_write.last());
        assert(is_properties_write(t[wj], key_properties_of(ga[13], ga[15], ga[5], keystore_abs@)));
        assert(keystore_made(t, gen_at, wj, kt, ga, keystore_abs@));
        lemma_keystore_done(start, looked, before_gen, runner.calls(), kt, ga, 0);
    }
    0
}

/// A `keytool -genkey` run with arguments `a` that succeeded.
pub open spec fn genkey_ok(c: Call, keytool: Seq<char>, a: Seq<Seq<char>>) -> bool {
    is_run(c, keytool, a) && a.len() == 18 && a[0] == "-genkey"@ && reply_of(c).exit_code == 0
}

/// A write of `contents` that succeeded.
pub open spec fn is_properties_write(c: Call, contents: Seq<char>) -> bool {
    c matches Call::WriteFile { contents: w, reply, .. } && w == contents && reply is Ok
}

/// Request `i` of `t` generated the keystore (arguments `a`) and the later
/// request `j` wrote the `key.properties` that goes with it: the passwords and
/// alias given to `keytool`, and the keystore at `store`.
pub open spec fn keystore_made(t: Seq<Call>, i: int, j: int, keytool: Seq<char>, a: Seq<Seq<char>>, store: Seq<char>) -> bool {
    &&& 0 <= i < j < t.len()
    &&& genkey_ok(t[i], keytool, a)
    &&& is_properties_write(t[j], key_properties_of(a[13], a[15], a[5], store))
}

/// What `run` asks (`t`) and answers (`code`): the lookup of `keytool` (exit 1
/// and nothing more without it); nothing that changes the disk before
/// `keytool -genkey` ran; success only when it succeeded and the matching
/// `key.properties` was written after it.
pub open spec fn keystore_trace(t: Seq<Call>, code: i32) -> bool {
    exists|p: int, kt: Option<Seq<char>>|
        0 <= p <= t.len() && #[trigger] tool_locator::find_trace("keytool"@, "JAVA_HOME"@, seq!["bin"@], t.take(p), kt)
        && (kt is None ==> p == t.len() && code == 1)
        && (kt is Some ==> keystore_steps(t, p, kt->0, code))
}

/// `keystore_trace` once `keytool` was found (the first `p` requests).
pub open spec fn keystore_steps(t: Seq<Call>, p: int, keytool: Seq<char>, code: i32) -> bool {
    &&& forall|w: int| p <= w < t.len() && #[trigger] changes_disk(t[w]) ==> exists|i: int, a: Seq<Seq<char>>|
        p <= i <= w && #[trigger] is_run(t[i], keytool, a) && a.len() == 18 && a[0] == "-genkey"@
    &&& (code == 0 ==> exists|i: int, j: int, a: Seq<Seq<char>>, store: Seq<char>| #[trigger] keystore_made(t, i, j, keytool, a, store))
}

proof fn lemma_keystore_done(
    start: Seq<Call>,
    looked: Seq<Call>,
    before_gen: Seq<Call>,
    end: Seq<Call>,
    kt: Seq<char>,
    a: Seq<Seq<char>>,
    code: i32,
)
    requires
        extends(start, looked),
        reads_only(looked, before_gen),
        extends(before_gen, end),
        before_gen.len() < end.len(),
        tool_locator::find_trace("keytool"@, "JAVA_HOME"@, seq!["bin"@], since(start, looked), Some(kt)),
        is_run(end[before_gen.len() as int], kt, a),
        a.len() == 18 && a[0] == "-genkey"@,
        code == 0 ==> exists|i: int, j: int, a2: Seq<Seq<char>>, store: Seq<char>| #[trigger] keystore_made(since(start, end), i, j, kt, a2, store),
    ensures
        keystore_trace(since(start, end), code),
{
    crate::session::lemma_since_prefix(start, looked, end);
    let t = since(start, end);
    let p = since(start, looked).len() as int;
    let g = before_gen.len() - start.len();
    assert(t.take(p) =~= since(start, looked));
    assert(t[g] == end[before_gen.len() as int]);
    assert forall|w: int| p <= w < t.len() && #[trigger] changes_disk(t[w]) implies exists|i: int, a3: Seq<Seq<char>>|
        p <= i <= w && #[trigger] is_run(t[i], kt, a3) && a3.len() == 18 && a3[0] == "-genkey"@ by {
        if w < g {
            assert(t[w] == before_gen[start.len() + w]);
        } else {
            assert(is_run(t[g], kt, a));
        }
    }
    assert(keystore_steps(t, p, kt, code));
}


/// A prompt settles on the trimmed answer whenever it is not blank, whatever
/// the default; a blank answer takes the default when there is one, and with
/// no default it asks again.
pub proof fn lemma_answer_or_default(answer: Seq<char>, default: Seq<char>)
    ensures
        trim(answer).len() > 0 ==> answer_or_default(answer, default) == Some(trim(answer)),
        trim(answer).len() == 0 && default.len() > 0 ==> answer_or_default(answer, default) == Some(default),
        trim(answer).len() == 0 && default.len() == 0 ==> answer_or_default(answer, default) is None,
        answer_or_default(answer, default) matches Some(v) ==> v.len() > 0,
{
}

/// A country code is two uppercase ASCII letters, nothing else: lowercase
/// letters, digits and other lengths are refused.
pub proof fn lemma_country_code(s: Seq<char>)
    ensures
        country_code(s) ==> s.len() == 2,
        country_code(s) ==> forall|i: int| 0 <= i < 2 ==> 'A' <= #[trigger] s[i] <= 'Z',
        s.len() == 2 && 'A' <= s[0] <= 'Z' && 'A' <= s[1] <= 'Z' ==> country_code(s),
{
}

} // verus!
