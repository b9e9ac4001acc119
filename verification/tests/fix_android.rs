use mdev::session::Session;
use std::cell::{Cell, RefCell};

use mdev::commands::fix::android::{
    fix, name_resolved, parse_resolv_conf, parse_scutil_nameservers, ping_reached, usable_dns,
    AndroidArgs, Timings, GATEWAY, PROBE_HOST,
};
use mdev::commands::simulator::android::PollConfig;
use mdev::runner::{BackgroundProcess, HostOs, RunResult, Runner};
use std::time::Duration;

#[test]
fn reads_nameservers_from_scutil_output() {
    let stdout = "DNS configuration\n\nresolver #1\n  nameserver[0] : 192.168.10.22\n  nameserver[1] : 8.8.8.8\n  flags  : Request A records\n";
    assert_eq!(parse_scutil_nameservers(stdout), vec!["192.168.10.22".to_string(), "8.8.8.8".to_string()]);
}

#[test]
fn reads_nameservers_from_resolv_conf() {
    let contents = "# comment\nnameserver 1.1.1.1\nsearch lan\nnameserver 9.9.9.9\n";
    assert_eq!(parse_resolv_conf(contents), vec!["1.1.1.1".to_string(), "9.9.9.9".to_string()]);
}

#[test]
fn drops_loopback_resolvers_and_falls_back_to_public_dns() {
    let servers = usable_dns(vec!["127.0.2.2".into(), "::1".into()]);
    assert_eq!(servers, vec!["8.8.8.8".to_string(), "1.1.1.1".to_string()]);
}

#[test]
fn keeps_host_resolvers_first_and_caps_at_four() {
    let servers = usable_dns(vec!["192.168.10.22".into(), "192.168.10.22".into(), "9.9.9.9".into()]);
    assert_eq!(
        servers,
        vec!["192.168.10.22".to_string(), "9.9.9.9".to_string(), "8.8.8.8".to_string(), "1.1.1.1".to_string()]
    );
}

#[test]
fn unknown_host_means_dns_is_broken() {
    assert!(!name_resolved("ping: unknown host connectivitycheck.gstatic.com\n"));
}

#[test]
fn resolved_name_without_icmp_reply_still_counts_as_resolved() {
    let output = "PING connectivitycheck.gstatic.com (142.250.72.163) 56 data bytes\n\n--- statistics ---\n1 packets transmitted, 0 received, 100% packet loss\n";
    assert!(name_resolved(output));
}

#[test]
fn gateway_reply_counts_as_reachable() {
    assert!(ping_reached("64 bytes from 10.0.2.2: icmp_seq=1 ttl=255"));
    assert!(!ping_reached("1 packets transmitted, 0 received, 100% packet loss"));
}

#[test]
fn usable_dns_never_more_than_four_and_never_empty() {
    let many: Vec<String> = (1..=9).map(|i| format!("10.0.0.{i}")).collect();
    assert_eq!(usable_dns(many).len(), 4);
    assert_eq!(usable_dns(vec![String::new(), "8.8.8.8".into()]), vec!["8.8.8.8".to_string(), "1.1.1.1".to_string()]);
}

struct FakeProcess;

impl BackgroundProcess for FakeProcess {
    fn exit_code(&mut self) -> Option<i32> {
        None
    }
}

/// Emulator whose network state the test drives.
struct ScriptedRunner {
    dns_ok: Cell<bool>,
    wifi_on: Cell<bool>,
    airplane: Cell<bool>,
    heals_on_wifi_toggle: bool,
    heals_on_restart: bool,
    running: Cell<bool>,
    calls: RefCell<Vec<String>>,
}

impl ScriptedRunner {
    fn healthy() -> Self {
        Self {
            dns_ok: Cell::new(true),
            wifi_on: Cell::new(true),
            airplane: Cell::new(false),
            heals_on_wifi_toggle: false,
            heals_on_restart: false,
            running: Cell::new(true),
            calls: RefCell::new(Vec::new()),
        }
    }

    fn dns_broken() -> Self {
        Self { dns_ok: Cell::new(false), ..Self::healthy() }
    }

    fn called(&self, needle: &str) -> bool {
        self.calls.borrow().iter().any(|c| c.contains(needle))
    }
}

impl Runner for ScriptedRunner {
    fn run(&self, executable: &str, args: &[&str], _working_dir: Option<&str>) -> RunResult {
        let command = format!("{} {}", executable, args.join(" "));
        self.calls.borrow_mut().push(command.clone());

        if args == ["devices"] {
            let listing = if self.running.get() {
                "List of devices attached\nemulator-5554\tdevice"
            } else {
                "List of devices attached"
            };
            return RunResult::success(listing.into());
        }
        if command.contains("emu avd name") {
            return RunResult::success("Pixel_9\nOK".into());
        }
        if command.contains("emu kill") {
            self.running.set(false);
            return RunResult::success(String::new());
        }
        if command.contains("settings get global airplane_mode_on") {
            return RunResult::success(if self.airplane.get() { "1" } else { "0" }.into());
        }
        if command.contains("settings get global wifi_on") {
            return RunResult::success(if self.wifi_on.get() { "1" } else { "0" }.into());
        }
        if command.contains("airplane-mode disable") {
            self.airplane.set(false);
            return RunResult::success(String::new());
        }
        if command.contains("svc wifi disable") {
            self.wifi_on.set(false);
            return RunResult::success(String::new());
        }
        if command.contains("svc wifi enable") {
            self.wifi_on.set(true);
            if self.heals_on_wifi_toggle {
                self.dns_ok.set(true);
            }
            return RunResult::success(String::new());
        }
        if command.contains(&format!("ping -c 1 -W 2 {}", GATEWAY)) {
            let reachable = self.wifi_on.get() && !self.airplane.get();
            return RunResult::success(if reachable {
                "64 bytes from 10.0.2.2: icmp_seq=1 ttl=255".into()
            } else {
                "1 packets transmitted, 0 received, 100% packet loss".to_string()
            });
        }
        if command.contains(&format!("ping -c 1 -W 2 {}", PROBE_HOST)) {
            return RunResult::success(if self.dns_ok.get() {
                format!("PING {} (142.250.72.163) 56 data bytes", PROBE_HOST)
            } else {
                format!("ping: unknown host {}", PROBE_HOST)
            });
        }
        if command.contains("getprop sys.boot_completed") {
            return RunResult::success("1".into());
        }
        if command.contains("getprop init.svc.bootanim") {
            return RunResult::success("stopped".into());
        }
        if command.contains("scutil --dns") {
            return RunResult::success("  nameserver[0] : 127.0.2.2".into());
        }
        RunResult::success(String::new())
    }

    fn which(&self, executable: &str) -> Option<String> {
        Some(format!("/fake/sdk/{}", executable))
    }

    fn host_os(&self) -> HostOs {
        HostOs::MacOs
    }

    fn spawn_detached(&self, executable: &str, args: &[&str], _log_path: &str) -> Option<Box<dyn BackgroundProcess>> {
        self.calls.borrow_mut().push(format!("spawn {} {}", executable, args.join(" ")));
        self.running.set(true);
        if self.heals_on_restart {
            self.dns_ok.set(true);
        }
        Some(Box::new(FakeProcess))
    }
}

fn instant_timings() -> Timings {
    let instant = || PollConfig { attempts: 2, interval: Duration::from_millis(0) };
    Timings { recheck: instant(), shutdown: instant(), serial: instant(), boot: instant() }
}

fn args() -> AndroidArgs {
    AndroidArgs { avd: None, dns: None, no_restart: false, yes: true }
}

#[test]
fn healthy_emulator_is_left_alone() {
    let runner = ScriptedRunner::healthy();
    let code = fix(&args(), &mut Session::new(&runner), &instant_timings());
    assert_eq!(code, 0);
    assert!(!runner.called("svc wifi"));
    assert!(!runner.called("emu kill"));
}

#[test]
fn disabled_wifi_is_re_enabled_without_restarting() {
    let runner = ScriptedRunner { wifi_on: Cell::new(false), ..ScriptedRunner::healthy() };
    let code = fix(&args(), &mut Session::new(&runner), &instant_timings());
    assert_eq!(code, 0);
    assert!(runner.called("svc wifi enable"));
    assert!(!runner.called("emu kill"));
}

#[test]
fn airplane_mode_is_turned_off_first() {
    let runner = ScriptedRunner { airplane: Cell::new(true), ..ScriptedRunner::healthy() };
    let code = fix(&args(), &mut Session::new(&runner), &instant_timings());
    assert_eq!(code, 0);
    assert!(runner.called("airplane-mode disable"));
    assert!(!runner.called("emu kill"));
}

#[test]
fn wifi_toggle_is_tried_before_a_restart() {
    let runner = ScriptedRunner { heals_on_wifi_toggle: true, ..ScriptedRunner::dns_broken() };
    let code = fix(&args(), &mut Session::new(&runner), &instant_timings());
    assert_eq!(code, 0);
    assert!(runner.called("svc wifi disable"));
    assert!(!runner.called("emu kill"));
}

#[test]
fn dead_resolver_cold_boots_with_explicit_dns() {
    let runner = ScriptedRunner { heals_on_restart: true, ..ScriptedRunner::dns_broken() };
    let code = fix(&args(), &mut Session::new(&runner), &instant_timings());
    assert_eq!(code, 0);
    assert!(runner.called("emu kill"));
    assert!(runner.called("-avd Pixel_9 -dns-server 8.8.8.8,1.1.1.1 -no-snapshot-load"));
}

#[test]
fn explicit_dns_flag_wins_over_host_resolvers() {
    let runner = ScriptedRunner { heals_on_restart: true, ..ScriptedRunner::dns_broken() };
    let code = fix(&AndroidArgs { dns: Some("9.9.9.9, 1.0.0.1".into()), ..args() }, &mut Session::new(&runner), &instant_timings());
    assert_eq!(code, 0);
    assert!(runner.called("-dns-server 9.9.9.9,1.0.0.1"));
}

#[test]
fn no_restart_reports_the_manual_command_instead() {
    let runner = ScriptedRunner::dns_broken();
    let code = fix(&AndroidArgs { no_restart: true, ..args() }, &mut Session::new(&runner), &instant_timings());
    assert_eq!(code, 1);
    assert!(!runner.called("emu kill"));
}

#[test]
fn restart_that_does_not_help_fails() {
    let runner = ScriptedRunner::dns_broken();
    let code = fix(&args(), &mut Session::new(&runner), &instant_timings());
    assert_eq!(code, 1);
    assert!(runner.called("emu kill"));
}

#[test]
fn missing_emulator_is_reported() {
    let runner = ScriptedRunner { running: Cell::new(false), ..ScriptedRunner::healthy() };
    let code = fix(&args(), &mut Session::new(&runner), &instant_timings());
    assert_eq!(code, 1);
}

#[test]
fn declined_restart_leaves_the_emulator_alone() {
    let runner = ScriptedRunner::dns_broken();
    // The default runner answers every confirmation with its default (yes);
    // without --yes the question is asked and accepted.
    let code = fix(&AndroidArgs { yes: false, ..args() }, &mut Session::new(&runner), &instant_timings());
    assert_eq!(code, 1);
    assert!(runner.called("emu kill"));
}
