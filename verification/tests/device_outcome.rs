use mdev::commands::device_outcome::{
    error_text, is_multi_device_error, is_no_booted_error, is_no_devices_error,
    is_not_installed_error, is_not_running_error, should_enumerate, stdout_is_success,
};
use mdev::runner::RunResult;

fn r(stdout: &str, stderr: &str) -> RunResult {
    RunResult::new(0, stdout.to_string(), stderr.to_string())
}

#[test]
fn error_text_prefers_stderr() {
    let res = r("out", "err");
    assert_eq!(error_text(&res), "err");
}

#[test]
fn error_text_falls_back_to_stdout_when_stderr_empty() {
    let res = r("out", "");
    assert_eq!(error_text(&res), "out");
}

#[test]
fn error_text_both_empty() {
    let res = r("", "");
    assert_eq!(error_text(&res), "");
}

#[test]
fn error_text_prefers_stderr_when_stdout_also_set() {
    let res = r("stdout content", "stderr content");
    assert_eq!(error_text(&res), "stderr content");
}

#[test]
fn is_multi_device_error_true() {
    let res = r("", "error: more than one device attached");
    assert!(is_multi_device_error(&res));
}

#[test]
fn is_multi_device_error_false() {
    let res = r("", "device not found");
    assert!(!is_multi_device_error(&res));
}

#[test]
fn is_multi_device_error_detected_in_stdout_only() {
    let res = r("more than one device attached", "");
    assert!(is_multi_device_error(&res));
}

#[test]
fn is_multi_device_error_case_insensitive() {
    let res = r("", "ERROR: MORE THAN ONE DEVICE ATTACHED");
    assert!(is_multi_device_error(&res));
}

#[test]
fn is_multi_device_error_phrase_embedded_in_token() {
    let res = r("", "[sdk] more than one device detected at startup");
    assert!(is_multi_device_error(&res));
}

#[test]
fn is_multi_device_error_empty_run_result() {
    let res = r("", "");
    assert!(!is_multi_device_error(&res));
}

#[test]
fn is_no_devices_error_matches_adb_phrasing() {
    assert!(is_no_devices_error(&r("", "adb: no devices/emulators found")));
    assert!(is_no_devices_error(&r("", "error: device not found")));
    assert!(is_no_devices_error(&r("", "error: device offline")));
}

#[test]
fn is_no_devices_error_false_for_other_failures() {
    assert!(!is_no_devices_error(&r("", "Failure [DELETE_FAILED_INTERNAL_ERROR]")));
}

#[test]
fn should_enumerate_covers_both_multi_and_none() {
    assert!(should_enumerate(&r("", "adb: more than one device/emulator")));
    assert!(should_enumerate(&r("", "adb: no devices/emulators found")));
    assert!(!should_enumerate(&r("", "Failure [DELETE_FAILED_INTERNAL_ERROR]")));
}

#[test]
fn is_not_installed_error_matches_uninstall_and_clear_output() {
    assert!(is_not_installed_error(&r("Failure [DELETE_FAILED_INTERNAL_ERROR]", "")));
    assert!(is_not_installed_error(&r("", "Unknown package: com.example.app")));
    assert!(is_not_installed_error(&r("Failed", "")));
    assert!(is_not_installed_error(&r("", "Error: Failed to clear application data")));
}

#[test]
fn is_not_installed_error_false_for_device_problems() {
    assert!(!is_not_installed_error(&r("", "adb: no devices/emulators found")));
}

#[test]
fn is_no_booted_error_true() {
    let res = r("", "No devices are booted");
    assert!(is_no_booted_error(&res));
}

#[test]
fn is_no_booted_error_false() {
    let res = r("", "device connected");
    assert!(!is_no_booted_error(&res));
}

#[test]
fn is_no_booted_error_detected_in_stdout_only() {
    let res = r("no devices are booted", "");
    assert!(is_no_booted_error(&res));
}

#[test]
fn is_no_booted_error_case_insensitive() {
    let res = r("", "NO DEVICES ARE BOOTED");
    assert!(is_no_booted_error(&res));
}

#[test]
fn is_no_booted_error_phrase_embedded_in_token() {
    let res = r("", "simulator: no devices are booted right now");
    assert!(is_no_booted_error(&res));
}

#[test]
fn is_no_booted_error_empty_run_result() {
    let res = r("", "");
    assert!(!is_no_booted_error(&res));
}

#[test]
fn is_not_running_error_true() {
    let res = r("", "found nothing to terminate");
    assert!(is_not_running_error(&res));
}

#[test]
fn is_not_running_error_false() {
    let res = r("", "process running fine");
    assert!(!is_not_running_error(&res));
}

#[test]
fn is_not_running_error_detected_in_stdout_only() {
    let res = r("not running", "");
    assert!(is_not_running_error(&res));
}

#[test]
fn is_not_running_error_case_insensitive() {
    let res = r("", "NOT RUNNING");
    assert!(is_not_running_error(&res));
}

#[test]
fn is_not_running_error_phrase_embedded_in_token() {
    let res = r("", "app is not running on this device");
    assert!(is_not_running_error(&res));
}

#[test]
fn is_not_running_error_empty_run_result() {
    let res = r("", "");
    assert!(!is_not_running_error(&res));
}

#[test]
fn stdout_success_needs_exit_zero_and_success_word() {
    assert!(stdout_is_success(&RunResult::new(0, "Success".into(), String::new())));
    assert!(!stdout_is_success(&RunResult::new(1, "Success".into(), String::new())));
    assert!(!stdout_is_success(&RunResult::new(0, "Failure [X]".into(), String::new())));
    assert!(!stdout_is_success(&RunResult::new(0, "success".into(), String::new())));
}
