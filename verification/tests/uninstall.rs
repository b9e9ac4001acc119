use mdev::commands::uninstall::uninstall_on;
use mdev::session::Session;
use mdev::models::{AppInfo, DevicePlatform, ProjectType};
use mdev::runner::{HostOs, RunResult, Runner};

struct MockRunner {
    uninstall: RunResult,
    clear: RunResult,
    pm_path: Option<RunResult>,
    monkey: Option<RunResult>,
}

impl Runner for MockRunner {
    fn run(&self, _exe: &str, args: &[&str], _: Option<&str>) -> RunResult {
        if args.iter().any(|a| *a == "uninstall") {
            return self.uninstall.clone();
        }
        if args.iter().any(|a| *a == "path") {
            return self.pm_path.clone().expect("pm path must not be called");
        }
        if args.windows(2).any(|w| w == ["pm", "clear"]) {
            return self.clear.clone();
        }
        if args.iter().any(|a| *a == "monkey") {
            return self.monkey.clone().expect("monkey must not be called");
        }
        RunResult::new(1, String::new(), "unexpected".into())
    }
    fn which(&self, _: &str) -> Option<String> {
        None
    }
    fn host_os(&self) -> HostOs {
        HostOs::MacOs
    }
}

fn app(pt: ProjectType) -> AppInfo {
    AppInfo::new(String::new(), pt, Some("com.example.app".into()), None)
}

fn failure_stdout() -> RunResult {
    RunResult::new(0, "Failure [DELETE_FAILED_INTERNAL_ERROR]".into(), String::new())
}

fn pm_path_present() -> RunResult {
    RunResult::new(0, "package:/data/app/com.example.app/base.apk".into(), String::new())
}

#[test]
fn uninstall_on_exit0_failure_stdout_is_not_success() {
    let runner = MockRunner {
        uninstall: failure_stdout(),
        clear: RunResult::new(1, String::new(), "unexpected".into()),
        pm_path: Some(pm_path_present()),
        monkey: None,
    };
    let got = uninstall_on(&mut Session::new(&runner), &app(ProjectType::Android), DevicePlatform::Android, Some("emulator-5554"), false);
    assert_eq!(got, Some(false));
}

#[test]
fn uninstall_on_exit1_delete_failed_is_not_success() {
    let runner = MockRunner {
        uninstall: RunResult::new(1, "Failure [DELETE_FAILED_INTERNAL_ERROR]".into(), String::new()),
        clear: RunResult::new(1, String::new(), "unexpected".into()),
        pm_path: Some(pm_path_present()),
        monkey: None,
    };
    let got = uninstall_on(&mut Session::new(&runner), &app(ProjectType::Android), DevicePlatform::Android, Some("emulator-5554"), false);
    assert_eq!(got, Some(false));
}

#[test]
fn uninstall_on_flutter_appinfo_same_android_arm() {
    let runner = MockRunner {
        uninstall: failure_stdout(),
        clear: RunResult::new(1, String::new(), "unexpected".into()),
        pm_path: Some(pm_path_present()),
        monkey: None,
    };
    let got = uninstall_on(&mut Session::new(&runner), &app(ProjectType::Flutter), DevicePlatform::Android, Some("emulator-5554"), false);
    assert_eq!(got, Some(false));
}

#[test]
fn uninstall_on_stdout_success_exit0_is_ok() {
    let runner = MockRunner {
        uninstall: RunResult::new(0, "Success".into(), String::new()),
        clear: RunResult::new(1, String::new(), "unexpected".into()),
        pm_path: None,
        monkey: None,
    };
    let got = uninstall_on(&mut Session::new(&runner), &app(ProjectType::Android), DevicePlatform::Android, Some("emulator-5554"), false);
    assert_eq!(got, Some(true));
}

#[test]
fn uninstall_on_unknown_package_is_idempotent_ok() {
    let runner = MockRunner {
        uninstall: RunResult::new(1, String::new(), "Unknown package: com.example.app".into()),
        clear: RunResult::new(1, String::new(), "unexpected".into()),
        pm_path: None,
        monkey: None,
    };
    let got = uninstall_on(&mut Session::new(&runner), &app(ProjectType::Android), DevicePlatform::Android, Some("emulator-5554"), false);
    assert_eq!(got, Some(true));
}

#[test]
fn uninstall_on_nonsuccess_pm_path_empty_is_ok() {
    let runner = MockRunner {
        uninstall: failure_stdout(),
        clear: RunResult::new(1, String::new(), "unexpected".into()),
        pm_path: Some(RunResult::new(1, String::new(), String::new())),
        monkey: None,
    };
    let got = uninstall_on(&mut Session::new(&runner), &app(ProjectType::Android), DevicePlatform::Android, Some("emulator-5554"), false);
    assert_eq!(got, Some(true));
}

#[test]
fn uninstall_on_nonsuccess_pm_path_present_is_fail() {
    let runner = MockRunner {
        uninstall: failure_stdout(),
        clear: RunResult::new(1, String::new(), "unexpected".into()),
        pm_path: Some(pm_path_present()),
        monkey: None,
    };
    let got = uninstall_on(&mut Session::new(&runner), &app(ProjectType::Android), DevicePlatform::Android, Some("emulator-5554"), false);
    assert_eq!(got, Some(false));
}

#[test]
fn uninstall_on_should_enumerate_returns_none() {
    let runner = MockRunner {
        uninstall: RunResult::new(1, String::new(), "error: more than one device attached".into()),
        clear: RunResult::new(1, String::new(), "unexpected".into()),
        pm_path: None,
        monkey: None,
    };
    let got = uninstall_on(&mut Session::new(&runner), &app(ProjectType::Android), DevicePlatform::Android, None, false);
    assert_eq!(got, None);
}

#[test]
fn uninstall_ios_without_bundle_id_fails() {
    let runner = MockRunner {
        uninstall: RunResult::new(0, String::new(), String::new()),
        clear: RunResult::new(1, String::new(), "unexpected".into()),
        pm_path: None,
        monkey: None,
    };
    let got = uninstall_on(&mut Session::new(&runner), &app(ProjectType::Ios), DevicePlatform::Ios, None, false);
    assert_eq!(got, Some(false));
}
