use mdev::commands::doall::{
    doall_exit, format_result_line, format_running_msg, join_shell_command, list_subdirs, shell_quote,
    truncate_names, visible_subdir, DirResult,
};
use mdev::runner::{DirEntry, HostOs, IoError, RunResult, Runner};
use mdev::session::Session;
use std::cell::RefCell;
use std::collections::BTreeMap;

/// An in-memory file tree: each path maps to a file's contents, or to `None`
/// for a directory. Runs no commands.
struct MemFs {
    nodes: RefCell<BTreeMap<String, Option<String>>>,
}

fn parent(p: &str) -> Option<String> {
    match p.rfind('/') {
        Some(0) if p.len() > 1 => Some("/".to_string()),
        Some(0) => None,
        Some(i) => Some(p[..i].to_string()),
        None => None,
    }
}

fn normalize(p: &str) -> String {
    if p.len() > 1 { p.trim_end_matches('/').to_string() } else { p.to_string() }
}

impl MemFs {
    fn new() -> Self {
        let fs = MemFs { nodes: RefCell::new(BTreeMap::new()) };
        fs.dir("/t");
        fs
    }
    fn dir(&self, p: &str) {
        let p = normalize(p);
        if let Some(up) = parent(&p) {
            if !self.nodes.borrow().contains_key(&up) {
                self.dir(&up);
            }
        }
        self.nodes.borrow_mut().insert(p, None);
    }
    fn file(&self, p: &str, contents: &str) {
        let p = normalize(p);
        if let Some(up) = parent(&p) {
            self.dir(&up);
        }
        self.nodes.borrow_mut().insert(p, Some(contents.to_string()));
    }
    fn has(&self, p: &str) -> bool {
        self.nodes.borrow().contains_key(&normalize(p))
    }
    fn children(&self, p: &str) -> Option<Vec<(String, Option<String>)>> {
        let p = normalize(p);
        let nodes = self.nodes.borrow();
        match nodes.get(&p) {
            Some(None) => {}
            _ => return None,
        }
        let mut out = Vec::new();
        for (k, v) in nodes.iter() {
            if parent(k).as_deref() == Some(p.as_str()) && *k != p {
                let name = k.rsplit('/').next().unwrap_or("").to_string();
                out.push((name, v.clone()));
            }
        }
        Some(out)
    }
}

impl Runner for MemFs {
    fn run(&self, _executable: &str, _args: &[&str], _working_dir: Option<&str>) -> RunResult {
        RunResult::new(1, String::new(), String::new())
    }
    fn which(&self, _executable: &str) -> Option<String> {
        None
    }
    fn host_os(&self) -> HostOs {
        HostOs::MacOs
    }
    fn path_exists(&self, path: &str) -> bool {
        self.has(path)
    }
    fn is_dir(&self, path: &str) -> bool {
        matches!(self.nodes.borrow().get(&normalize(path)), Some(None))
    }
    fn is_file(&self, path: &str) -> bool {
        matches!(self.nodes.borrow().get(&normalize(path)), Some(Some(_)))
    }
    fn list_dir(&self, path: &str) -> Option<Vec<String>> {
        Some(self.children(path)?.into_iter().map(|(n, _)| n).collect())
    }
    fn dir_entries(&self, path: &str) -> Option<Vec<DirEntry>> {
        Some(
            self.children(path)?
                .into_iter()
                .map(|(name, v)| DirEntry {
                    name,
                    is_dir: v.is_none(),
                    is_file: v.is_some(),
                    is_symlink: false,
                    len: v.map(|c| c.len() as u64).unwrap_or(0),
                })
                .collect(),
        )
    }
    fn read_file(&self, path: &str) -> Result<String, IoError> {
        match self.nodes.borrow().get(&normalize(path)) {
            Some(Some(c)) => Ok(c.clone()),
            _ => Err(IoError { permission_denied: false, message: "not found".to_string() }),
        }
    }
    fn read_head(&self, path: &str, max_bytes: usize) -> Option<String> {
        match self.nodes.borrow().get(&normalize(path)) {
            Some(Some(c)) => Some(c.chars().take(max_bytes).collect()),
            _ => None,
        }
    }
    fn write_file(&self, path: &str, contents: &str) -> Result<(), IoError> {
        self.file(path, contents);
        Ok(())
    }
    fn remove_dir_all(&self, path: &str) -> Result<(), IoError> {
        let p = normalize(path);
        if !self.is_dir(&p) {
            return Err(IoError { permission_denied: false, message: "not a directory".to_string() });
        }
        let prefix = format!("{}/", p);
        self.nodes.borrow_mut().retain(|k, _| *k != p && !k.starts_with(&prefix));
        Ok(())
    }
    fn remove_file(&self, path: &str) -> Result<(), IoError> {
        let p = normalize(path);
        if !self.is_file(&p) {
            return Err(IoError { permission_denied: false, message: "not a file".to_string() });
        }
        self.nodes.borrow_mut().remove(&p);
        Ok(())
    }
    fn canonicalize(&self, path: &str) -> Option<String> {
        if self.has(path) { Some(normalize(path)) } else { None }
    }
}

#[test]
fn running_msg_lists_in_flight() {
    let mut set: Vec<String> = vec!["a".into(), "b".into()];
    assert_eq!(format_running_msg(0, 2, &set), "0/2 · running: a, b");
    set.clear();
    assert_eq!(format_running_msg(2, 2, &set), "2/2 complete");
}

#[test]
fn truncate_names_adds_remainder() {
    let set: Vec<String> = ["a", "b", "c", "d", "e"].into_iter().map(String::from).collect();
    assert_eq!(truncate_names(&set, 3), "a, b, c, +2");
}

#[test]
fn shell_quote_plain() {
    assert_eq!(shell_quote("nexusindex"), "nexusindex");
    assert_eq!(shell_quote("git"), "git");
}

#[test]
fn shell_quote_spaces() {
    assert_eq!(shell_quote("hello world"), "'hello world'");
}

#[test]
fn shell_quote_single_quote() {
    assert_eq!(shell_quote("it's"), "'it'\\''s'");
}

#[test]
fn join_command() {
    let args = vec!["git".into(), "status".into(), "-sb".into()];
    assert_eq!(join_shell_command(&args), "git status -sb");
}

#[test]
fn shell_quote_empty_and_unicode() {
    assert_eq!(shell_quote(""), "''");
    assert_eq!(shell_quote("café"), "'café'");
    assert_eq!(join_shell_command(&[]), "");
}

#[test]
fn running_msg_truncates_after_four() {
    let set: Vec<String> = ["a", "b", "c", "d", "e", "f"].into_iter().map(String::from).collect();
    assert_eq!(format_running_msg(1, 7, &set), "1/7 · running: a, b, c, d, +2");
    assert_eq!(truncate_names(&set[..2], 3), "a, b");
}

#[test]
fn hidden_subdirs_only_on_request() {
    assert!(visible_subdir("app", false));
    assert!(!visible_subdir(".git", false));
    assert!(visible_subdir(".git", true));
}

#[test]
fn result_lines_and_exit_code() {
    let ok = DirResult { name: "a".into(), exit_code: 0, stdout: String::new(), stderr: String::new() };
    let bad = DirResult { name: "b".into(), exit_code: 2, stdout: String::new(), stderr: "boom".into() };
    assert_eq!(format_result_line(&ok), "OK a");
    assert_eq!(format_result_line(&bad), "FAIL b (exit 2)");
    assert_eq!(doall_exit(&[ok.clone()]), 0);
    assert_eq!(doall_exit(&[ok, bad]), 1);
}

#[test]
fn list_subdirs_skips_files_and_hidden() {
    let fs = MemFs::new();
    fs.dir("/t/a");
    fs.dir("/t/b");
    fs.dir("/t/.hidden");
    fs.file("/t/file.txt", "x");

    let dirs = list_subdirs(&mut Session::new(&fs), "/t", false).unwrap();
    let names: Vec<&str> = dirs.iter().map(|p| p.rsplit('/').next().unwrap()).collect();
    assert_eq!(names, vec!["a", "b"]);

    let with_hidden = list_subdirs(&mut Session::new(&fs), "/t", true).unwrap();
    assert_eq!(with_hidden.len(), 3);
    assert_eq!(list_subdirs(&mut Session::new(&fs), "/missing", true), None);
}
