use std::cell::{Cell, RefCell};

use mdev::commands::device_op::{run_on_all_platforms, run_on_platform, PlatformOutcome};
use mdev::models::{AppInfo, DevicePlatform, ProjectType};
use mdev::runner::{HostOs, RunResult, Runner};
use mdev::session::Session;

struct MockRunner {
    run_result: RunResult,
}

impl Runner for MockRunner {
    fn run(&self, _executable: &str, _args: &[&str], _working_dir: Option<&str>) -> RunResult {
        self.run_result.clone()
    }
    fn which(&self, _executable: &str) -> Option<String> {
        None
    }
    fn host_os(&self) -> HostOs {
        HostOs::MacOs
    }
}

/// Returns `flutter_json` for `flutter devices --machine` and fails for all
/// other commands (including `xcrun simctl …`).
struct FlutterDevicesMockRunner {
    flutter_json: String,
}

impl FlutterDevicesMockRunner {
    fn new(flutter_json: impl Into<String>) -> Self {
        Self { flutter_json: flutter_json.into() }
    }

    fn android_device(id: &str, name: &str) -> String {
        format!(
            "{{\"id\": \"{}\", \"name\": \"{}\", \"targetPlatform\": \"android-x64\", \"emulator\": true}}",
            id, name
        )
    }

    fn ios_device(id: &str, name: &str) -> String {
        format!(
            "{{\"id\": \"{}\", \"name\": \"{}\", \"targetPlatform\": \"ios\", \"emulator\": false}}",
            id, name
        )
    }
}

impl Runner for FlutterDevicesMockRunner {
    fn run(&self, executable: &str, _args: &[&str], _working_dir: Option<&str>) -> RunResult {
        if executable == "flutter" {
            RunResult::new(0, self.flutter_json.clone(), String::new())
        } else {
            RunResult::new(1, String::new(), String::new())
        }
    }
    fn which(&self, _executable: &str) -> Option<String> {
        None
    }
    fn host_os(&self) -> HostOs {
        HostOs::MacOs
    }
}

fn make_app_info() -> AppInfo {
    AppInfo::new(
        String::new(),
        ProjectType::Android,
        Some("com.example.app".to_string()),
        Some("com.example.app".to_string()),
    )
}

#[test]
fn op_returns_some_true_on_first_call_returns_true() {
    let runner = MockRunner { run_result: RunResult::new(0, String::new(), String::new()) };
    let app_info = make_app_info();
    let call_count = Cell::new(0u32);
    let result = run_on_platform(&mut Session::new(&runner), &app_info, DevicePlatform::Android, false, |_runner, _app, _platform, _device_id, _verbose| {
        call_count.set(call_count.get() + 1);
        Some(true)
    });
    assert_eq!(result, PlatformOutcome::AllOk, "expected AllOk when op returns Some(true)");
    assert_eq!(call_count.get(), 1, "op must be called exactly once");
}

#[test]
fn op_returns_some_false_on_first_call_returns_false() {
    let runner = MockRunner { run_result: RunResult::new(0, String::new(), String::new()) };
    let app_info = make_app_info();
    let call_count = Cell::new(0u32);
    let result = run_on_platform(&mut Session::new(&runner), &app_info, DevicePlatform::Android, false, |_runner, _app, _platform, _device_id, _verbose| {
        call_count.set(call_count.get() + 1);
        Some(false)
    });
    assert_eq!(result, PlatformOutcome::Failed, "expected Failed when op returns Some(false)");
    assert_eq!(call_count.get(), 1, "op must be called exactly once");
}

#[test]
fn op_returns_none_and_no_devices_returns_false() {
    let runner = MockRunner { run_result: RunResult::new(1, String::new(), String::new()) };
    let app_info = make_app_info();
    let call_count = Cell::new(0u32);
    let result = run_on_platform(&mut Session::new(&runner), &app_info, DevicePlatform::Android, false, |_runner, _app, _platform, _device_id, _verbose| {
        call_count.set(call_count.get() + 1);
        None
    });
    assert_eq!(result, PlatformOutcome::NoDevices, "expected NoDevices when none are running");
    assert_eq!(call_count.get(), 1, "op called once for the initial attempt");
}

fn dead_runner() -> MockRunner {
    MockRunner { run_result: RunResult::new(1, String::new(), String::new()) }
}

fn app_info_with(android: Option<&str>, ios: Option<&str>) -> AppInfo {
    AppInfo::new(String::new(), ProjectType::Flutter, android.map(|s| s.to_string()), ios.map(|s| s.to_string()))
}

#[test]
fn all_platforms_no_ids_errors() {
    let runner = dead_runner();
    let code = run_on_all_platforms(&mut Session::new(&runner), &app_info_with(None, None), false, |_r, _a, _p, _d, _v| Some(true));
    assert_eq!(code, 1, "no package/bundle id must be an error");
}

#[test]
fn all_platforms_no_devices_anywhere_returns_error_code() {
    let runner = dead_runner();
    let code = run_on_all_platforms(&mut Session::new(&runner), &app_info_with(Some("com.example.app"), None), false, |_r, _a, _p, _d, _v| None);
    assert_eq!(code, 1, "nothing was attempted anywhere → error");
}

#[test]
fn all_platforms_android_without_devices_does_not_fail_ios_success() {
    let runner = dead_runner();
    let code = run_on_all_platforms(
        &mut Session::new(&runner),
        &app_info_with(Some("com.example.app"), Some("com.example.app")),
        false,
        |_r, _a, platform, _d, _v| match platform {
            DevicePlatform::Android => None,
            DevicePlatform::Ios => Some(true),
        },
    );
    assert_eq!(code, 0, "device-less Android must be skipped, not failed");
}

#[test]
fn all_platforms_real_failure_still_returns_error_code() {
    let runner = dead_runner();
    let code = run_on_all_platforms(
        &mut Session::new(&runner),
        &app_info_with(Some("com.example.app"), Some("com.example.app")),
        false,
        |_r, _a, platform, _d, _v| match platform {
            DevicePlatform::Android => Some(false),
            DevicePlatform::Ios => Some(true),
        },
    );
    assert_eq!(code, 1, "a real per-device failure must still exit non-zero");
}

#[test]
fn none_one_matching_device_op_true_returns_true() {
    let json = format!("[{}]", FlutterDevicesMockRunner::android_device("emulator-5554", "Pixel"));
    let runner = FlutterDevicesMockRunner::new(json);
    let app_info = make_app_info();
    let call_count = Cell::new(0u32);
    let result = run_on_platform(&mut Session::new(&runner), &app_info, DevicePlatform::Android, false, |_r, _a, _p, _device_id, _v| {
        call_count.set(call_count.get() + 1);
        if call_count.get() == 1 { None } else { Some(true) }
    });
    assert_eq!(result, PlatformOutcome::AllOk, "single matching device all-success must be AllOk");
    assert_eq!(call_count.get(), 2, "op called twice: None first, then device id");
}

#[test]
fn none_two_matching_devices_all_true_returns_true() {
    let json = format!(
        "[{}, {}]",
        FlutterDevicesMockRunner::android_device("emulator-5554", "Pixel"),
        FlutterDevicesMockRunner::android_device("emulator-5556", "Nexus")
    );
    let runner = FlutterDevicesMockRunner::new(json);
    let app_info = make_app_info();
    let call_count = Cell::new(0u32);
    let result = run_on_platform(&mut Session::new(&runner), &app_info, DevicePlatform::Android, false, |_r, _a, _p, _device_id, _v| {
        call_count.set(call_count.get() + 1);
        if call_count.get() == 1 { None } else { Some(true) }
    });
    assert_eq!(result, PlatformOutcome::AllOk, "two matching devices both succeeding must be AllOk");
    assert_eq!(call_count.get(), 3, "op called 3×: None + two device ids");
}

#[test]
fn none_two_matching_devices_partial_failure_returns_false() {
    let json = format!(
        "[{}, {}]",
        FlutterDevicesMockRunner::android_device("emulator-5554", "Pixel"),
        FlutterDevicesMockRunner::android_device("emulator-5556", "Nexus")
    );
    let runner = FlutterDevicesMockRunner::new(json);
    let app_info = make_app_info();
    let call_count = Cell::new(0u32);
    let result = run_on_platform(&mut Session::new(&runner), &app_info, DevicePlatform::Android, false, |_r, _a, _p, _device_id, _v| {
        call_count.set(call_count.get() + 1);
        match call_count.get() {
            1 => None,
            2 => Some(true),
            _ => Some(false),
        }
    });
    assert_eq!(result, PlatformOutcome::Failed, "partial failure (ok=1, targets=2) must be Failed");
}

#[test]
fn none_wrong_platform_devices_only_returns_false() {
    let json = format!("[{}]", FlutterDevicesMockRunner::ios_device("00008101-000A1234", "iPhone 14"));
    let runner = FlutterDevicesMockRunner::new(json);
    let app_info = make_app_info();
    let call_count = Cell::new(0u32);
    let result = run_on_platform(&mut Session::new(&runner), &app_info, DevicePlatform::Android, false, |_r, _a, _p, _device_id, _v| {
        call_count.set(call_count.get() + 1);
        if call_count.get() == 1 { None } else { Some(true) }
    });
    assert_eq!(result, PlatformOutcome::NoDevices, "wrong-platform devices must be filtered out, yielding NoDevices");
    assert_eq!(call_count.get(), 1, "op not called a second time when no targets");
}

#[test]
fn none_single_device_op_receives_correct_device_id() {
    let json = format!("[{}]", FlutterDevicesMockRunner::android_device("emulator-5554", "Pixel"));
    let runner = FlutterDevicesMockRunner::new(json);
    let app_info = make_app_info();
    let call_count = Cell::new(0u32);
    let received_ids: RefCell<Vec<Option<String>>> = RefCell::new(Vec::new());
    let result = run_on_platform(&mut Session::new(&runner), &app_info, DevicePlatform::Android, false, |_r, _a, _p, device_id, _v| {
        call_count.set(call_count.get() + 1);
        received_ids.borrow_mut().push(device_id.map(|s| s.to_owned()));
        if call_count.get() == 1 { None } else { Some(true) }
    });
    assert_eq!(result, PlatformOutcome::AllOk);
    let ids = received_ids.borrow();
    assert_eq!(ids.len(), 2);
    assert_eq!(ids[0], None, "first call must pass None (fast-path probe)");
    assert_eq!(ids[1].as_deref(), Some("emulator-5554"), "second call must pass the device id from flutter JSON");
}

#[test]
fn linux_host_skips_ios_platform() {
    struct LinuxRunner;
    impl Runner for LinuxRunner {
        fn run(&self, _e: &str, _a: &[&str], _w: Option<&str>) -> RunResult {
            RunResult::new(1, String::new(), String::new())
        }
        fn which(&self, _e: &str) -> Option<String> {
            None
        }
        fn host_os(&self) -> HostOs {
            HostOs::Linux
        }
    }
    let calls = RefCell::new(Vec::new());
    let code = run_on_all_platforms(
        &mut Session::new(&LinuxRunner),
        &app_info_with(None, Some("com.example.app")),
        false,
        |_r, _a, p, _d, _v| {
            calls.borrow_mut().push(p);
            Some(true)
        },
    );
    assert_eq!(code, 1, "only an iOS bundle id on Linux means nothing to target");
    assert!(calls.borrow().is_empty());
}
