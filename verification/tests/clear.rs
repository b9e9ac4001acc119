use mdev::commands::clear::{clear_android, clear_ios};
use mdev::session::Session;
use mdev::models::{AppInfo, ProjectType};
use mdev::runner::{HostOs, RunResult, Runner};

struct MockRunner {
    uninstall: RunResult,
    clear: RunResult,
    pm_path: Option<RunResult>,
    monkey: Option<RunResult>,
}

impl Runner for MockRunner {
    fn run(&self, _exe: &str, args: &[&str], _: Option<&str>) -> RunResult {
        if args.iter().any(|a| *a == "uninstall") {
            return self.uninstall.clone();
        }
        if args.iter().any(|a| *a == "path") {
            return self.pm_path.clone().expect("pm path must not be called");
        }
        if args.windows(2).any(|w| w == ["pm", "clear"]) {
            return self.clear.clone();
        }
        if args.iter().any(|a| *a == "monkey") {
            return self.monkey.clone().expect("monkey must not be called");
        }
        RunResult::new(1, String::new(), "unexpected".into())
    }
    fn which(&self, _: &str) -> Option<String> {
        None
    }
    fn host_os(&self) -> HostOs {
        HostOs::MacOs
    }
}

fn app(pt: ProjectType) -> AppInfo {
    AppInfo::new(String::new(), pt, Some("com.example.app".into()), None)
}

#[test]
fn clear_android_exit1_failed_is_not_success() {
    let runner = MockRunner {
        uninstall: RunResult::new(1, String::new(), "unexpected".into()),
        clear: RunResult::new(1, "Failed".into(), String::new()),
        pm_path: None,
        monkey: None,
    };
    let got = clear_android(&mut Session::new(&runner), &app(ProjectType::Android), Some("emulator-5554"), false);
    assert_eq!(got, Some(false));
}

#[test]
fn clear_android_exit0_failed_stdout_is_not_success() {
    let runner = MockRunner {
        uninstall: RunResult::new(1, String::new(), "unexpected".into()),
        clear: RunResult::new(0, "Failed".into(), String::new()),
        pm_path: None,
        monkey: None,
    };
    let got = clear_android(&mut Session::new(&runner), &app(ProjectType::Android), Some("emulator-5554"), false);
    assert_eq!(got, Some(false));
}

#[test]
fn clear_android_stdout_success_then_monkey_ok() {
    let runner = MockRunner {
        uninstall: RunResult::new(1, String::new(), "unexpected".into()),
        clear: RunResult::new(0, "Success".into(), String::new()),
        pm_path: None,
        monkey: Some(RunResult::new(0, String::new(), String::new())),
    };
    let got = clear_android(&mut Session::new(&runner), &app(ProjectType::Android), Some("emulator-5554"), false);
    assert_eq!(got, Some(true));
}

#[test]
fn clear_android_unknown_package_is_ok() {
    let runner = MockRunner {
        uninstall: RunResult::new(1, String::new(), "unexpected".into()),
        clear: RunResult::new(1, String::new(), "Unknown package: com.example.app".into()),
        pm_path: None,
        monkey: None,
    };
    let got = clear_android(&mut Session::new(&runner), &app(ProjectType::Android), Some("emulator-5554"), false);
    assert_eq!(got, Some(true));
}

#[test]
fn clear_android_failed_to_clear_application_data_is_fail() {
    let runner = MockRunner {
        uninstall: RunResult::new(1, String::new(), "unexpected".into()),
        clear: RunResult::new(1, String::new(), "Error: Failed to clear application data".into()),
        pm_path: None,
        monkey: None,
    };
    let got = clear_android(&mut Session::new(&runner), &app(ProjectType::Android), Some("emulator-5554"), false);
    assert_eq!(got, Some(false));
}

#[test]
fn clear_android_should_enumerate_returns_none() {
    let runner = MockRunner {
        uninstall: RunResult::new(1, String::new(), "unexpected".into()),
        clear: RunResult::new(1, String::new(), "adb: no devices/emulators found".into()),
        pm_path: None,
        monkey: None,
    };
    let got = clear_android(&mut Session::new(&runner), &app(ProjectType::Android), None, false);
    assert_eq!(got, None);
}

#[test]
fn clear_android_relaunch_failure_is_fail() {
    let runner = MockRunner {
        uninstall: RunResult::new(1, String::new(), "unexpected".into()),
        clear: RunResult::new(0, "Success".into(), String::new()),
        pm_path: None,
        monkey: Some(RunResult::new(1, String::new(), "monkey aborted".into())),
    };
    let got = clear_android(&mut Session::new(&runner), &app(ProjectType::Android), Some("emulator-5554"), false);
    assert_eq!(got, Some(false));
}

struct SimRunner {
    container: RunResult,
    launch: RunResult,
}

impl Runner for SimRunner {
    fn run(&self, _exe: &str, args: &[&str], _: Option<&str>) -> RunResult {
        if args.iter().any(|a| *a == "get_app_container") {
            return self.container.clone();
        }
        self.launch.clone()
    }
    fn which(&self, _: &str) -> Option<String> {
        None
    }
    fn host_os(&self) -> HostOs {
        HostOs::MacOs
    }
}

#[test]
fn clear_ios_no_booted_simulator_asks_to_enumerate() {
    let runner = SimRunner {
        container: RunResult::new(1, String::new(), "No devices are booted.".into()),
        launch: RunResult::new(0, String::new(), String::new()),
    };
    let info = AppInfo::new(String::new(), ProjectType::Ios, None, Some("com.example.app".into()));
    assert_eq!(clear_ios(&mut Session::new(&runner), &info, None, false), None);
    assert_eq!(clear_ios(&mut Session::new(&runner), &info, Some("ABC"), false), Some(false));
}

#[test]
fn clear_ios_missing_container_is_cleared_then_launched() {
    let runner = SimRunner {
        container: RunResult::new(0, "/tmp/nowhere/data\n".into(), String::new()),
        launch: RunResult::new(0, String::new(), String::new()),
    };
    let info = AppInfo::new(String::new(), ProjectType::Ios, None, Some("com.example.app".into()));
    assert_eq!(clear_ios(&mut Session::new(&runner), &info, Some("ABC"), false), Some(true));
}
