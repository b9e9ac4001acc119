use std::cell::RefCell;

use mdev::commands::kill::kill_server;
use mdev::runner::{HostOs, RunResult, Runner};
use mdev::session::Session;

/// Answers `lsof` with two listeners, one of which runs inside `/work/app`,
/// and records every command it is given.
struct ServerRunner {
    host: HostOs,
    kill_exit: i32,
    seen: RefCell<Vec<String>>,
}

impl Runner for ServerRunner {
    fn run(&self, executable: &str, args: &[&str], _working_dir: Option<&str>) -> RunResult {
        let line = format!("{} {}", executable, args.join(" "));
        self.seen.borrow_mut().push(line);
        if executable == "lsof" && args.contains(&"-iTCP") {
            return RunResult::new(0, "p101\ncnode\nn*:3000\np202\ncpython\nn*:8000\n".to_string(), String::new());
        }
        if executable == "lsof" && args.contains(&"101") {
            return RunResult::new(0, "p101\nfcwd\nn/work/app/web\n".to_string(), String::new());
        }
        if executable == "lsof" {
            return RunResult::new(0, "p202\nfcwd\nn/elsewhere\n".to_string(), String::new());
        }
        if executable == "kill" {
            return RunResult::new(self.kill_exit, String::new(), String::new());
        }
        RunResult::new(1, String::new(), String::new())
    }
    fn which(&self, _executable: &str) -> Option<String> {
        None
    }
    fn host_os(&self) -> HostOs {
        self.host
    }
}

#[test]
fn kill_server_stops_only_the_project_server() {
    let runner = ServerRunner { host: HostOs::Linux, kill_exit: 0, seen: RefCell::new(Vec::new()) };
    let code = kill_server(&mut Session::new(&runner), "/work/app", false);
    assert_eq!(code, 0);
    let seen = runner.seen.borrow();
    let kills: Vec<&String> = seen.iter().filter(|c| c.starts_with("kill")).collect();
    assert_eq!(kills, vec!["kill -TERM 101"]);
}

#[test]
fn kill_server_reports_a_failed_kill() {
    let runner = ServerRunner { host: HostOs::MacOs, kill_exit: 1, seen: RefCell::new(Vec::new()) };
    assert_eq!(kill_server(&mut Session::new(&runner), "/work/app", false), 1);
}

#[test]
fn kill_server_is_refused_on_windows() {
    let runner = ServerRunner { host: HostOs::Windows, kill_exit: 0, seen: RefCell::new(Vec::new()) };
    assert_eq!(kill_server(&mut Session::new(&runner), "/work/app", false), 1);
    assert!(runner.seen.borrow().is_empty());
}
