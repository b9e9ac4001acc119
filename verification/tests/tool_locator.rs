use mdev::session::Session;
use mdev::commands::tool_locator::{adb, emulator, find, keytool};
use mdev::runner::{HostOs, RunResult, Runner};

struct MockRunner {
    which_result: Option<String>,
}

impl Runner for MockRunner {
    fn run(&self, _executable: &str, _args: &[&str], _working_dir: Option<&str>) -> RunResult {
        RunResult::new(0, String::new(), String::new())
    }
    fn which(&self, _executable: &str) -> Option<String> {
        self.which_result.clone()
    }
    fn host_os(&self) -> HostOs {
        HostOs::MacOs
    }
}

#[test]
fn which_found_returns_that_path() {
    let runner = MockRunner { which_result: Some("/usr/bin/keytool".to_string()) };
    assert_eq!(keytool(&mut Session::new(&runner)), Some("/usr/bin/keytool".to_string()));
}

#[test]
fn which_not_found_env_absent_returns_none() {
    let runner = MockRunner { which_result: None };
    let result = find(&mut Session::new(&runner), "keytool", "MDEV_TEST_NONEXISTENT_HOME", &["bin"]);
    assert_eq!(result, None);
}

#[test]
fn find_which_empty_string_returned_verbatim() {
    let runner = MockRunner { which_result: Some(String::new()) };
    let result = keytool(&mut Session::new(&runner));
    assert_eq!(result, Some(String::new()));
}

/// Answers from a fixed environment and a fixed set of existing files.
struct EnvRunner {
    vars: Vec<(&'static str, &'static str)>,
    files: Vec<&'static str>,
}

impl Runner for EnvRunner {
    fn run(&self, _e: &str, _a: &[&str], _w: Option<&str>) -> RunResult {
        RunResult::new(1, String::new(), String::new())
    }
    fn which(&self, _e: &str) -> Option<String> {
        None
    }
    fn host_os(&self) -> HostOs {
        HostOs::Linux
    }
    fn env_var(&self, name: &str) -> Option<String> {
        self.vars.iter().find(|(k, _)| *k == name).map(|(_, v)| v.to_string())
    }
    fn path_exists(&self, path: &str) -> bool {
        self.files.contains(&path)
    }
}

#[test]
fn sdk_root_candidates_are_joined_in_order() {
    let runner = EnvRunner {
        vars: vec![("ANDROID_HOME", "/sdk"), ("JAVA_HOME", "/jdk/")],
        files: vec!["/sdk/platform-tools/adb", "/sdk/emulator/emulator", "/jdk/bin/keytool"],
    };
    assert_eq!(adb(&mut Session::new(&runner)), Some("/sdk/platform-tools/adb".to_string()));
    assert_eq!(emulator(&mut Session::new(&runner)), Some("/sdk/emulator/emulator".to_string()));
    assert_eq!(keytool(&mut Session::new(&runner)), Some("/jdk/bin/keytool".to_string()));
    assert_eq!(find(&mut Session::new(&runner), "adb", "ANDROID_HOME", &["platform-tools", "x"]), None);
}

#[test]
fn empty_sdk_root_gives_a_relative_candidate() {
    let runner = EnvRunner { vars: vec![("ANDROID_HOME", "")], files: vec!["platform-tools/adb"] };
    assert_eq!(adb(&mut Session::new(&runner)), Some("platform-tools/adb".to_string()));
}

#[test]
fn which_not_found_env_set_with_existing_file_returns_path() {
    let runner = EnvRunner { vars: vec![("MDEV_TEST_JAVA_HOME_UNIQUE", "/tmp/x")], files: vec!["/tmp/x/bin/keytool"] };
    let result = find(&mut Session::new(&runner), "keytool", "MDEV_TEST_JAVA_HOME_UNIQUE", &["bin"]);
    assert_eq!(result, Some("/tmp/x/bin/keytool".to_string()));
}

#[test]
fn find_env_set_file_missing_returns_none() {
    let runner = EnvRunner { vars: vec![("MDEV_TEST_FIND_ENV_MISSING_FILE", "/tmp/x")], files: vec!["/tmp/x/bin"] };
    let result = find(&mut Session::new(&runner), "keytool", "MDEV_TEST_FIND_ENV_MISSING_FILE", &["bin"]);
    assert_eq!(result, None);
}

#[test]
fn adb_env_set_existing_file_returns_path() {
    let runner = EnvRunner { vars: vec![("ANDROID_HOME", "/tmp/sdk")], files: vec!["/tmp/sdk/platform-tools/adb"] };
    assert_eq!(adb(&mut Session::new(&runner)), Some("/tmp/sdk/platform-tools/adb".to_string()));
}

#[test]
fn find_multi_segment_subpath_builds_correct_path() {
    let runner = EnvRunner { vars: vec![("MDEV_TEST_FIND_MULTISEG", "/tmp/m")], files: vec!["/tmp/m/platform-tools/x/adb"] };
    let result = find(&mut Session::new(&runner), "adb", "MDEV_TEST_FIND_MULTISEG", &["platform-tools", "x"]);
    assert_eq!(result, Some("/tmp/m/platform-tools/x/adb".to_string()));
}

#[test]
fn find_env_empty_string_no_panic() {
    let runner = EnvRunner { vars: vec![("MDEV_TEST_FIND_EMPTY_ROOT", "")], files: vec![] };
    let result = find(&mut Session::new(&runner), "keytool", "MDEV_TEST_FIND_EMPTY_ROOT", &["bin"]);
    assert_eq!(result, None);
}
