use mdev::app_detector::pbx_line_step;
use mdev::commands::device_outcome::{
    says_multi_device, says_no_booted, says_no_devices, says_not_installed, says_not_running, says_unknown_package,
};
use mdev::device_manager::DeviceManager;
use mdev::runner::{HostOs, RunResult, Runner};

#[test]
fn lowercased_outputs_are_classified() {
    assert!(says_multi_device("error: more than one device/emulator"));
    assert!(!says_multi_device("error: device not found"));
    assert!(says_no_devices("adb: no devices/emulators found"));
    assert!(says_no_devices("error: device offline"));
    assert!(!says_no_devices("success"));
    assert!(says_not_installed("\n failed \n"));
    assert!(says_not_installed("failure [delete_failed_internal_error]"));
    assert!(!says_not_installed("failure [install_failed_older_sdk]"));
    assert!(says_unknown_package("error: unknown package: com.example.app"));
    assert!(!says_unknown_package("failure [delete_failed_internal_error]"));
    assert!(says_no_booted("no devices are booted."));
    assert!(!says_no_booted("an error was encountered processing the command"));
    assert!(says_not_running("found nothing to terminate"));
    assert!(!says_not_running("terminated"));
}

#[test]
fn pbx_lines_update_the_reader_state() {
    assert_eq!(pbx_line_step(false, None, None, "name = Release;", None), (true, None, None));
    assert_eq!(pbx_line_step(true, None, None, "name = Debug;", None), (false, None, None));
    let (in_release, release, fallback) = pbx_line_step(
        true,
        None,
        None,
        "PRODUCT_BUNDLE_IDENTIFIER = com.example.app;",
        Some(" com.example.app ".to_string()),
    );
    assert!(in_release);
    assert_eq!(release, Some("com.example.app".to_string()));
    assert_eq!(fallback, Some("com.example.app".to_string()));
    let skipped = pbx_line_step(
        false,
        None,
        None,
        "PRODUCT_BUNDLE_IDENTIFIER = \"$(PRODUCT_BUNDLE_IDENTIFIER)\";",
        Some("$(PRODUCT_BUNDLE_IDENTIFIER)".to_string()),
    );
    assert_eq!(skipped, (false, None, None));
    let kept = pbx_line_step(false, None, Some("first.id".to_string()), "x", Some("second.id".to_string()));
    assert_eq!(kept, (false, None, Some("first.id".to_string())));
}

struct ListingRunner {
    flutter_json: String,
}

impl Runner for ListingRunner {
    fn run(&self, executable: &str, _args: &[&str], _working_dir: Option<&str>) -> RunResult {
        if executable == "flutter" {
            RunResult::new(0, self.flutter_json.clone(), String::new())
        } else {
            RunResult::new(1, String::new(), String::new())
        }
    }
    fn which(&self, _executable: &str) -> Option<String> {
        None
    }
    fn host_os(&self) -> HostOs {
        HostOs::Linux
    }
}

#[test]
fn device_manager_lists_what_flutter_reports() {
    let runner = ListingRunner {
        flutter_json: "[{\"id\": \"emulator-5554\", \"name\": \"Pixel\", \"targetPlatform\": \"android-x64\", \"emulator\": true}]"
            .to_string(),
    };
    let mut manager = DeviceManager::new(&runner);
    let devices = manager.list_running_devices();
    assert_eq!(devices.len(), 1);
    assert_eq!(devices[0].id, "emulator-5554");
    let empty = ListingRunner { flutter_json: String::new() };
    assert!(DeviceManager::new(&empty).list_running_devices().is_empty());
    assert!(DeviceManager::new(&empty).list_ios_simulators().is_empty());
}
