use mdev::commands::doctor::{
    check_ios_runtimes, first_line, parse_flutter_version, path_list_contains, run as doctor_run, summary, Check,
};
use mdev::commands::keystore::{
    app_id, byte_len, dname, find_project_root, is_country_code, key_properties, run as keystore_run, settle_answer,
    KeystoreArgs,
};
use mdev::models::{AppInfo, ProjectType};
use mdev::runner::{HostOs, IoError, RunResult, Runner};
use mdev::session::Session;
use std::cell::RefCell;
use std::collections::VecDeque;

/// Answers prompts from queues, finds `keytool`, and records what it is asked
/// to run and write.
struct KeystoreRunner {
    answers: RefCell<VecDeque<String>>,
    passwords: RefCell<VecDeque<String>>,
    keytool_ok: bool,
    pubspec_dirs: Vec<String>,
    ran: RefCell<Vec<Vec<String>>>,
    written: RefCell<Vec<(String, String)>>,
}

impl KeystoreRunner {
    fn new(answers: &[&str], passwords: &[&str], keytool_ok: bool) -> Self {
        KeystoreRunner {
            answers: RefCell::new(answers.iter().map(|s| s.to_string()).collect()),
            passwords: RefCell::new(passwords.iter().map(|s| s.to_string()).collect()),
            keytool_ok,
            pubspec_dirs: vec!["/work/app".to_string()],
            ran: RefCell::new(Vec::new()),
            written: RefCell::new(Vec::new()),
        }
    }
}

impl Runner for KeystoreRunner {
    fn run(&self, executable: &str, args: &[&str], _working_dir: Option<&str>) -> RunResult {
        let mut call = vec![executable.to_string()];
        call.extend(args.iter().map(|a| a.to_string()));
        self.ran.borrow_mut().push(call);
        if self.keytool_ok {
            RunResult::success(String::new())
        } else {
            RunResult::failure(1, "bad".to_string())
        }
    }
    fn which(&self, executable: &str) -> Option<String> {
        if executable == "keytool" { Some("/usr/bin/keytool".to_string()) } else { None }
    }
    fn host_os(&self) -> HostOs {
        HostOs::Linux
    }
    fn path_exists(&self, path: &str) -> bool {
        self.pubspec_dirs.iter().any(|d| format!("{}/pubspec.yaml", d) == path)
    }
    fn prompt(&self, _prompt: &str) -> String {
        self.answers.borrow_mut().pop_front().unwrap_or_default()
    }
    fn prompt_password(&self, _prompt: &str) -> String {
        self.passwords.borrow_mut().pop_front().unwrap_or_default()
    }
    fn write_file(&self, path: &str, contents: &str) -> Result<(), IoError> {
        self.written.borrow_mut().push((path.to_string(), contents.to_string()));
        Ok(())
    }
}

#[test]
fn dname_lists_every_field_in_order() {
    assert_eq!(dname("Ann", "Mobile", "Acme", "Oslo", "Oslo", "NO"), "CN=Ann, OU=Mobile, O=Acme, L=Oslo, ST=Oslo, C=NO");
}

#[test]
fn key_properties_name_store_key_alias_and_file() {
    assert_eq!(
        key_properties("spw", "kpw", "key", "/abs/keystore.jks"),
        "storePassword=spw\nkeyPassword=kpw\nkeyAlias=key\nstoreFile=/abs/keystore.jks\n"
    );
}

#[test]
fn answers_are_trimmed_and_fall_back_to_the_default() {
    assert_eq!(settle_answer("  value  ", "d"), Some("value".to_string()));
    assert_eq!(settle_answer("   ", "d"), Some("d".to_string()));
    assert_eq!(settle_answer("", ""), None);
}

#[test]
fn country_codes_are_two_uppercase_letters() {
    assert!(is_country_code("US"));
    assert!(!is_country_code("us"));
    assert!(!is_country_code("USA"));
    assert!(!is_country_code("É1"));
}

#[test]
fn password_length_counts_bytes() {
    assert_eq!(byte_len("abcdef"), 6);
    assert_eq!(byte_len("ééé"), 6);
    assert_eq!(byte_len("€"), 3);
    assert_eq!(byte_len("😀"), 4);
}

#[test]
fn project_root_is_the_nearest_pubspec_above() {
    let r = KeystoreRunner::new(&[], &[], true);
    assert_eq!(find_project_root(&mut Session::new(&r), "/work/app/lib/src"), Some("/work/app".to_string()));
    assert_eq!(find_project_root(&mut Session::new(&r), "/elsewhere"), None);
}

#[test]
fn app_id_prefers_the_android_package() {
    let with_pkg = AppInfo::new("flutter_app".to_string(), ProjectType::Flutter, Some("com.example".to_string()), None);
    assert_eq!(app_id(&with_pkg), "com.example");
    let flutter_only = AppInfo::new("flutter_app".to_string(), ProjectType::Flutter, None, None);
    assert_eq!(app_id(&flutter_only), "flutter_app");
}

#[test]
fn keystore_generation_runs_keytool_and_writes_properties() {
    let r = KeystoreRunner::new(
        &["", "", "Ann", "", "Acme", "Oslo", "Oslo", "no", " NO "],
        &["short", "secret1", "secret1", "keypass", "other!", "keypass", "keypass"],
        true,
    );
    let code = keystore_run(&KeystoreArgs::default(), &mut Session::new(&r), "/work/app/lib");
    assert_eq!(code, 0);
    let ran = r.ran.borrow();
    assert_eq!(ran.len(), 1);
    let call = &ran[0];
    assert_eq!(call[0], "/usr/bin/keytool");
    assert_eq!(call[4], "/work/app/android/keystore.jks");
    assert_eq!(call[6], "key");
    assert_eq!(call[14], "secret1");
    assert_eq!(call[16], "keypass");
    assert_eq!(call[18], "CN=Ann, OU=Mobile, O=Acme, L=Oslo, ST=Oslo, C=NO");
    let written = r.written.borrow();
    assert_eq!(written.len(), 1);
    assert_eq!(written[0].0, "/work/app/android/key.properties");
    assert_eq!(
        written[0].1,
        "storePassword=secret1\nkeyPassword=keypass\nkeyAlias=key\nstoreFile=/work/app/android/keystore.jks\n"
    );
}

#[test]
fn keystore_fails_when_keytool_fails() {
    let r = KeystoreRunner::new(&["", "", "A", "", "B", "C", "D", "US"], &["secret1", "secret1", "secret2", "secret2"], false);
    assert_eq!(keystore_run(&KeystoreArgs::default(), &mut Session::new(&r), "/work/app"), 1);
    assert!(r.written.borrow().is_empty());
}

#[test]
fn summary_counts_everything_but_failures_as_passed() {
    let checks = [Check::Pass, Check::Fail, Check::Warn, Check::Skip, Check::Fail];
    assert_eq!(summary(&checks), (1, "3/10 checks passed (2 issue(s) found)".to_string()));
    assert_eq!(summary(&[Check::Pass; 10]), (0, "10/10 checks passed".to_string()));
}

#[test]
fn flutter_version_comes_from_the_machine_reply() {
    assert_eq!(parse_flutter_version("{\"frameworkVersion\": \"3.24.0\", \"channel\": \"stable\"}"), Some("3.24.0".to_string()));
    assert_eq!(parse_flutter_version("{\"frameworkVersion\": 3}"), None);
    assert_eq!(parse_flutter_version("not json"), None);
}

#[test]
fn ios_runtimes_are_found_by_identifier() {
    assert!(check_ios_runtimes(
        "{\"runtimes\": [{\"identifier\": \"com.apple.CoreSimulator.SimRuntime.watchOS-11-0\"}, {\"identifier\": \"com.apple.CoreSimulator.SimRuntime.iOS-18-0\"}]}"
    ));
    assert!(!check_ios_runtimes("{\"runtimes\": [{\"identifier\": \"com.apple.CoreSimulator.SimRuntime.tvOS-18-0\"}]}"));
    assert!(!check_ios_runtimes("{\"runtimes\": {}}"));
    assert!(!check_ios_runtimes("nope"));
}

#[test]
fn first_line_and_path_lists() {
    assert_eq!(first_line("Android Debug Bridge 1.0.41\nVersion 35"), "Android Debug Bridge 1.0.41");
    assert_eq!(first_line(""), "");
    assert!(path_list_contains("/usr/bin:/h/.pub-cache/bin", "/h/.pub-cache/bin"));
    assert!(!path_list_contains("/usr/bin:/h/.pub-cache/bin/x", "/h/.pub-cache/bin"));
}

/// Nothing is installed and nothing is set.
struct BareRunner;

impl Runner for BareRunner {
    fn run(&self, _executable: &str, _args: &[&str], _working_dir: Option<&str>) -> RunResult {
        RunResult::failure(127, String::new())
    }
    fn which(&self, _executable: &str) -> Option<String> {
        None
    }
    fn host_os(&self) -> HostOs {
        HostOs::Linux
    }
}

#[test]
fn doctor_fails_on_a_bare_machine() {
    assert_eq!(doctor_run(&mut Session::new(&BareRunner)), 1);
}
