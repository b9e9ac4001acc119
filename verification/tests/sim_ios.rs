use mdev::commands::simulator::ios::{ios_runtime_version, run, select_device, IosArgs};
use mdev::runner::{HostOs, RunResult, Runner};
use mdev::session::Session;
use std::cell::RefCell;

fn device(udid: &str, name: &str, state: &str) -> String {
    format!("{{\"udid\": \"{}\", \"name\": \"{}\", \"state\": \"{}\", \"isAvailable\": true}}", udid, name, state)
}

fn runtime(key: &str, devices: &[String]) -> String {
    format!("\"{}\": [{}]", key, devices.join(", "))
}

fn listing(runtimes: &[String]) -> String {
    format!("{{\"devices\": {{{}}}}}", runtimes.join(", "))
}

const IOS_26_3: &str = "com.apple.CoreSimulator.SimRuntime.iOS-26-3";
const IOS_26_5: &str = "com.apple.CoreSimulator.SimRuntime.iOS-26-5";

#[test]
fn picks_first_match_of_newest_runtime() {
    let json = listing(&[
        runtime(IOS_26_3, &[device("OLD", "iPhone 17 Pro", "Shutdown")]),
        runtime(IOS_26_5, &[device("NEW", "iPhone 17 Pro", "Shutdown"), device("NEW2", "iPhone 17", "Shutdown")]),
    ]);

    let picked = select_device(&json, "iPhone").unwrap();
    assert_eq!(picked.udid, "NEW");
    assert_eq!(picked.runtime, "iOS 26.5");
}

#[test]
fn prefers_booted_device_over_newer_runtime() {
    let json = listing(&[
        runtime(IOS_26_3, &[device("OLD", "iPhone 17 Pro", "Booted")]),
        runtime(IOS_26_5, &[device("NEW", "iPhone 17 Pro", "Shutdown")]),
    ]);

    let picked = select_device(&json, "iPhone").unwrap();
    assert_eq!(picked.udid, "OLD");
    assert!(picked.booted);
}

#[test]
fn matches_name_case_insensitively() {
    let json = listing(&[runtime(IOS_26_5, &[device("A", "iPad Pro 13-inch (M5)", "Shutdown")])]);

    assert_eq!(select_device(&json, "ipad pro").unwrap().udid, "A");
}

#[test]
fn no_match_returns_none() {
    let json = listing(&[runtime(IOS_26_5, &[device("A", "iPhone 17 Pro", "Shutdown")])]);

    assert_eq!(select_device(&json, "Nokia"), None);
}

#[test]
fn skips_non_ios_runtimes() {
    let json = listing(&[
        runtime("com.apple.CoreSimulator.SimRuntime.watchOS-26-0", &[device("W", "Apple Watch Ultra 3", "Shutdown")]),
        runtime("com.apple.CoreSimulator.SimRuntime.tvOS-26-0", &[device("T", "Apple TV 4K", "Shutdown")]),
    ]);

    assert_eq!(select_device(&json, "Apple"), None);
}

#[test]
fn skips_unavailable_devices() {
    let json = listing(&[runtime(
        IOS_26_5,
        &["{\"udid\": \"A\", \"name\": \"iPhone 17 Pro\", \"state\": \"Shutdown\", \"isAvailable\": false}".to_string()],
    )]);

    assert_eq!(select_device(&json, "iPhone"), None);
}

#[test]
fn compares_versions_numerically_not_lexically() {
    let json = listing(&[
        runtime("com.apple.CoreSimulator.SimRuntime.iOS-9-3", &[device("NINE", "iPhone", "Shutdown")]),
        runtime("com.apple.CoreSimulator.SimRuntime.iOS-26-0", &[device("TWENTYSIX", "iPhone", "Shutdown")]),
    ]);

    assert_eq!(select_device(&json, "iPhone").unwrap().udid, "TWENTYSIX");
}

#[test]
fn parses_legacy_runtime_key_format() {
    assert_eq!(ios_runtime_version("iOS 13.7"), Some((13, 7)));
    assert_eq!(ios_runtime_version("iOS-26-5"), Some((26, 5)));
    assert_eq!(ios_runtime_version(IOS_26_5), Some((26, 5)));
    assert_eq!(ios_runtime_version("iOS-18"), Some((18, 0)));
}

#[test]
fn malformed_json_returns_none() {
    assert_eq!(select_device("not json", "iPhone"), None);
    assert_eq!(select_device("{}", "iPhone"), None);
}

#[test]
fn non_array_runtime_value_is_skipped() {
    let json = listing(&[
        format!("\"{}\": \"unexpected\"", IOS_26_3),
        runtime(IOS_26_5, &[device("A", "iPhone 17", "Shutdown")]),
    ]);

    assert_eq!(select_device(&json, "iPhone").unwrap().udid, "A");
}

#[test]
fn runtime_keys_of_other_platforms_have_no_version() {
    assert_eq!(ios_runtime_version("com.apple.CoreSimulator.SimRuntime.tvOS-26-0"), None);
    assert_eq!(ios_runtime_version("iOS-x-5"), None);
    assert_eq!(ios_runtime_version("iOS-17-beta"), Some((17, 0)));
}

#[test]
fn equal_runtimes_keep_the_first_match() {
    let json = listing(&[runtime(IOS_26_5, &[device("FIRST", "iPhone 17", "Shutdown"), device("SECOND", "iPhone 17", "Shutdown")])]);
    assert_eq!(select_device(&json, "iphone").unwrap().udid, "FIRST");
}

/// A Mac whose simulator listing is `listing`; records each command it runs.
struct SimRunner {
    listing: String,
    ran: RefCell<Vec<String>>,
}

impl Runner for SimRunner {
    fn run(&self, executable: &str, args: &[&str], _working_dir: Option<&str>) -> RunResult {
        self.ran.borrow_mut().push(format!("{} {}", executable, args.join(" ")));
        if args.first() == Some(&"simctl") && args.get(1) == Some(&"list") {
            RunResult::success(self.listing.clone())
        } else {
            RunResult::success(String::new())
        }
    }
    fn which(&self, _executable: &str) -> Option<String> {
        None
    }
    fn host_os(&self) -> HostOs {
        HostOs::MacOs
    }
}

#[test]
fn off_shuts_down_the_booted_match() {
    let r = SimRunner {
        listing: listing(&[runtime(IOS_26_5, &[device("B", "iPhone 17", "Booted"), device("C", "iPhone 17 Pro", "Shutdown")])]),
        ran: RefCell::new(Vec::new()),
    };
    assert_eq!(run(&IosArgs { device: "iPhone".to_string(), off: true }, &mut Session::new(&r)), 0);
    assert!(r.ran.borrow().iter().any(|c| c == "xcrun simctl shutdown B"));
}

#[test]
fn off_without_a_booted_match_does_nothing() {
    let r = SimRunner {
        listing: listing(&[runtime(IOS_26_5, &[device("C", "iPhone 17 Pro", "Shutdown")])]),
        ran: RefCell::new(Vec::new()),
    };
    assert_eq!(run(&IosArgs { device: "iPhone".to_string(), off: true }, &mut Session::new(&r)), 0);
    assert!(!r.ran.borrow().iter().any(|c| c.contains("shutdown")));
}

#[test]
fn boot_reuses_the_booted_match_and_opens_simulator() {
    let r = SimRunner {
        listing: listing(&[runtime(IOS_26_5, &[device("B", "iPhone 17", "Booted")])]),
        ran: RefCell::new(Vec::new()),
    };
    assert_eq!(run(&IosArgs { device: "iphone".to_string(), off: false }, &mut Session::new(&r)), 0);
    let ran = r.ran.borrow();
    assert!(ran.iter().any(|c| c == "xcrun simctl bootstatus B -b"));
    assert!(ran.iter().any(|c| c == "open -a Simulator"));
}
