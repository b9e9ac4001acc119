use mdev::session::Session;
use std::cell::{Cell, RefCell};
use std::time::Duration;

use mdev::commands::simulator::android::{
    parse_avd_names, parse_avd_reply, parse_emulator_serials, start, stop, AndroidArgs, PollConfig,
};
use mdev::runner::{BackgroundProcess, HostOs, RunResult, Runner};

#[test]
fn parses_avd_names_ignoring_log_lines() {
    let stdout = "INFO | storing crashdata\nPixel_9\nPixel_7_API_34\n\nWARNING: something: bad\n";
    assert_eq!(parse_avd_names(stdout), vec!["Pixel_9".to_string(), "Pixel_7_API_34".to_string()]);
}

#[test]
fn parses_emulator_serials_only() {
    let stdout = "List of devices attached\nemulator-5554\tdevice\n39021FDJH00BQK\tdevice\nadb-abc123-xyz._adb-tls-connect._tcp\tdevice\nemulator-5556\toffline";
    assert_eq!(parse_emulator_serials(stdout), vec!["emulator-5554".to_string(), "emulator-5556".to_string()]);
}

#[test]
fn parses_avd_reply_without_ok_line() {
    assert_eq!(parse_avd_reply("Pixel_9\r\nOK\r\n"), Some("Pixel_9".into()));
    assert_eq!(parse_avd_reply("OK\n"), None);
    assert_eq!(parse_avd_reply(""), None);
}

struct FakeProcess {
    exit_code: Option<i32>,
}

impl BackgroundProcess for FakeProcess {
    fn exit_code(&mut self) -> Option<i32> {
        self.exit_code
    }
}

#[derive(Default)]
struct ScriptedRunner {
    registered_serial: RefCell<Option<String>>,
    hosted_avd: String,
    register_after_calls: u32,
    devices_calls: Cell<u32>,
    spawn_exit_code: Option<i32>,
    spawn_succeeds: bool,
    boot_completed: RefCell<String>,
    bootanim: RefCell<String>,
    calls: RefCell<Vec<String>>,
}

impl ScriptedRunner {
    fn running(avd: &str) -> Self {
        Self {
            registered_serial: RefCell::new(Some("emulator-5554".into())),
            hosted_avd: avd.to_string(),
            spawn_succeeds: true,
            boot_completed: RefCell::new("1".into()),
            bootanim: RefCell::new("stopped".into()),
            ..Default::default()
        }
    }

    fn launching(avd: &str, register_after_calls: u32) -> Self {
        Self { register_after_calls, ..Self::running(avd) }
    }

    fn called(&self, needle: &str) -> bool {
        self.calls.borrow().iter().any(|c| c.contains(needle))
    }
}

impl Runner for ScriptedRunner {
    fn run(&self, executable: &str, args: &[&str], _working_dir: Option<&str>) -> RunResult {
        let command = format!("{} {}", executable, args.join(" "));
        self.calls.borrow_mut().push(command.clone());

        if command.contains("-list-avds") {
            return RunResult::success(self.hosted_avd.clone());
        }
        if args == ["devices"] {
            let seen = self.devices_calls.get();
            self.devices_calls.set(seen + 1);
            if seen < self.register_after_calls {
                return RunResult::success("List of devices attached".into());
            }
            let listing = match self.registered_serial.borrow().as_ref() {
                Some(serial) => format!("List of devices attached\n{}\tdevice", serial),
                None => "List of devices attached".into(),
            };
            return RunResult::success(listing);
        }
        if command.contains("emu avd name") {
            return RunResult::success(format!("{}\nOK", self.hosted_avd));
        }
        if command.contains("getprop sys.boot_completed") {
            return RunResult::success(self.boot_completed.borrow().clone());
        }
        if command.contains("getprop init.svc.bootanim") {
            return RunResult::success(self.bootanim.borrow().clone());
        }
        RunResult::success(String::new())
    }

    fn which(&self, executable: &str) -> Option<String> {
        Some(format!("/fake/sdk/{}", executable))
    }

    fn host_os(&self) -> HostOs {
        HostOs::MacOs
    }

    fn spawn_detached(&self, executable: &str, args: &[&str], _log_path: &str) -> Option<Box<dyn BackgroundProcess>> {
        self.calls.borrow_mut().push(format!("spawn {} {}", executable, args.join(" ")));
        if !self.spawn_succeeds {
            return None;
        }
        Some(Box::new(FakeProcess { exit_code: self.spawn_exit_code }))
    }
}

fn instant_poll(attempts: u32) -> PollConfig {
    PollConfig { attempts, interval: Duration::from_millis(0) }
}

fn args_for(avd: &str) -> AndroidArgs {
    AndroidArgs { avd: Some(avd.to_string()), off: false }
}

fn off_args(avd: Option<&str>) -> AndroidArgs {
    AndroidArgs { avd: avd.map(|a| a.to_string()), off: true }
}

#[test]
fn off_kills_the_emulator_hosting_the_avd() {
    let runner = ScriptedRunner::running("Pixel_9");
    let code = stop(&off_args(Some("Pixel_9")), &mut Session::new(&runner));
    assert_eq!(code, 0);
    assert!(runner.called("-s emulator-5554 emu kill"));
}

#[test]
fn off_without_avd_kills_every_running_emulator() {
    let runner = ScriptedRunner::running("Pixel_9");
    let code = stop(&off_args(None), &mut Session::new(&runner));
    assert_eq!(code, 0);
    assert!(runner.called("-s emulator-5554 emu kill"));
    assert!(!runner.called("emu avd name"), "must not resolve AVD names");
}

#[test]
fn off_is_a_no_op_when_the_avd_is_not_running() {
    let runner = ScriptedRunner::running("Pixel_9");
    let code = stop(&off_args(Some("Other_AVD")), &mut Session::new(&runner));
    assert_eq!(code, 0);
    assert!(!runner.called("emu kill"));
}

#[test]
fn running_avd_is_reused_without_spawning() {
    let runner = ScriptedRunner::running("Pixel_9");
    let code = start(&args_for("Pixel_9"), &mut Session::new(&runner), &instant_poll(3), &instant_poll(3));
    assert_eq!(code, 0);
    assert!(!runner.called("spawn "), "must not launch a second emulator");
}

#[test]
fn launches_and_waits_for_registration() {
    let runner = ScriptedRunner::launching("Pixel_9", 2);
    let code = start(&args_for("Pixel_9"), &mut Session::new(&runner), &instant_poll(5), &instant_poll(3));
    assert_eq!(code, 0);
    assert!(runner.called("spawn "));
    assert!(runner.called("-avd Pixel_9"));
    assert!(runner.called("wait-for-device"));
}

#[test]
fn emulator_exiting_early_fails_instead_of_hanging() {
    let runner = ScriptedRunner { spawn_exit_code: Some(1), register_after_calls: u32::MAX, ..ScriptedRunner::running("Pixel_9") };
    let code = start(&args_for("Pixel_9"), &mut Session::new(&runner), &instant_poll(30), &instant_poll(3));
    assert_eq!(code, 1);
    assert!(!runner.called("wait-for-device"));
}

#[test]
fn never_registering_emulator_times_out() {
    let runner = ScriptedRunner { register_after_calls: u32::MAX, ..ScriptedRunner::running("Pixel_9") };
    let code = start(&args_for("Pixel_9"), &mut Session::new(&runner), &instant_poll(3), &instant_poll(3));
    assert_eq!(code, 1);
}

#[test]
fn boot_animation_still_running_times_out() {
    let runner = ScriptedRunner { bootanim: RefCell::new("running".into()), ..ScriptedRunner::running("Pixel_9") };
    let code = start(&args_for("Pixel_9"), &mut Session::new(&runner), &instant_poll(3), &instant_poll(3));
    assert_eq!(code, 1);
}

#[test]
fn defaults_to_first_listed_avd() {
    let runner = ScriptedRunner::running("Pixel_9");
    let code = start(&AndroidArgs { avd: None, off: false }, &mut Session::new(&runner), &instant_poll(3), &instant_poll(3));
    assert_eq!(code, 0);
    assert!(runner.called("-list-avds"));
}

#[test]
fn spawn_failure_is_reported() {
    let runner = ScriptedRunner { spawn_succeeds: false, register_after_calls: u32::MAX, ..ScriptedRunner::running("Pixel_9") };
    let code = start(&args_for("Pixel_9"), &mut Session::new(&runner), &instant_poll(3), &instant_poll(3));
    assert_eq!(code, 1);
}

#[test]
fn serial_lines_need_the_emulator_prefix_as_first_word() {
    assert_eq!(parse_emulator_serials("  emulator-5560 device\nfoo emulator-5562\n"), vec!["emulator-5560".to_string()]);
    assert_eq!(parse_avd_reply("\r\n  Pixel_Tab \r\nOK"), Some("Pixel_Tab".into()));
}
