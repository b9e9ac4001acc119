use mdev::session::Session;
use mdev::commands::purge::extras::{find_extras, is_extra_dir, is_extra_file, matches_pid_pattern, run, total_size, Extra};
use mdev::commands::purge::PurgeArgs;
use mdev::runner::{DirEntry, HostOs, IoError, RunResult, Runner};
use std::cell::RefCell;
use std::collections::BTreeMap;

/// An in-memory file tree: each path maps to a file's contents, or to `None`
/// for a directory. Runs no commands.
struct MemFs {
    nodes: RefCell<BTreeMap<String, Option<String>>>,
}

fn parent(p: &str) -> Option<String> {
    match p.rfind('/') {
        Some(0) if p.len() > 1 => Some("/".to_string()),
        Some(0) => None,
        Some(i) => Some(p[..i].to_string()),
        None => None,
    }
}

fn normalize(p: &str) -> String {
    if p.len() > 1 { p.trim_end_matches('/').to_string() } else { p.to_string() }
}

impl MemFs {
    fn new() -> Self {
        let fs = MemFs { nodes: RefCell::new(BTreeMap::new()) };
        fs.dir("/t");
        fs
    }
    fn dir(&self, p: &str) {
        let p = normalize(p);
        if let Some(up) = parent(&p) {
            if !self.nodes.borrow().contains_key(&up) {
                self.dir(&up);
            }
        }
        self.nodes.borrow_mut().insert(p, None);
    }
    fn file(&self, p: &str, contents: &str) {
        let p = normalize(p);
        if let Some(up) = parent(&p) {
            self.dir(&up);
        }
        self.nodes.borrow_mut().insert(p, Some(contents.to_string()));
    }
    fn has(&self, p: &str) -> bool {
        self.nodes.borrow().contains_key(&normalize(p))
    }
    fn children(&self, p: &str) -> Option<Vec<(String, Option<String>)>> {
        let p = normalize(p);
        let nodes = self.nodes.borrow();
        match nodes.get(&p) {
            Some(None) => {}
            _ => return None,
        }
        let mut out = Vec::new();
        for (k, v) in nodes.iter() {
            if parent(k).as_deref() == Some(p.as_str()) && *k != p {
                let name = k.rsplit('/').next().unwrap_or("").to_string();
                out.push((name, v.clone()));
            }
        }
        Some(out)
    }
}

impl Runner for MemFs {
    fn run(&self, _executable: &str, _args: &[&str], _working_dir: Option<&str>) -> RunResult {
        RunResult::new(1, String::new(), String::new())
    }
    fn which(&self, _executable: &str) -> Option<String> {
        None
    }
    fn host_os(&self) -> HostOs {
        HostOs::MacOs
    }
    fn path_exists(&self, path: &str) -> bool {
        self.has(path)
    }
    fn is_dir(&self, path: &str) -> bool {
        matches!(self.nodes.borrow().get(&normalize(path)), Some(None))
    }
    fn is_file(&self, path: &str) -> bool {
        matches!(self.nodes.borrow().get(&normalize(path)), Some(Some(_)))
    }
    fn list_dir(&self, path: &str) -> Option<Vec<String>> {
        Some(self.children(path)?.into_iter().map(|(n, _)| n).collect())
    }
    fn dir_entries(&self, path: &str) -> Option<Vec<DirEntry>> {
        Some(
            self.children(path)?
                .into_iter()
                .map(|(name, v)| DirEntry {
                    name,
                    is_dir: v.is_none(),
                    is_file: v.is_some(),
                    is_symlink: false,
                    len: v.map(|c| c.len() as u64).unwrap_or(0),
                })
                .collect(),
        )
    }
    fn read_file(&self, path: &str) -> Result<String, IoError> {
        match self.nodes.borrow().get(&normalize(path)) {
            Some(Some(c)) => Ok(c.clone()),
            _ => Err(IoError { permission_denied: false, message: "not found".to_string() }),
        }
    }
    fn read_head(&self, path: &str, max_bytes: usize) -> Option<String> {
        match self.nodes.borrow().get(&normalize(path)) {
            Some(Some(c)) => Some(c.chars().take(max_bytes).collect()),
            _ => None,
        }
    }
    fn write_file(&self, path: &str, contents: &str) -> Result<(), IoError> {
        self.file(path, contents);
        Ok(())
    }
    fn remove_dir_all(&self, path: &str) -> Result<(), IoError> {
        let p = normalize(path);
        if !self.is_dir(&p) {
            return Err(IoError { permission_denied: false, message: "not a directory".to_string() });
        }
        let prefix = format!("{}/", p);
        self.nodes.borrow_mut().retain(|k, _| *k != p && !k.starts_with(&prefix));
        Ok(())
    }
    fn remove_file(&self, path: &str) -> Result<(), IoError> {
        let p = normalize(path);
        if !self.is_file(&p) {
            return Err(IoError { permission_denied: false, message: "not a file".to_string() });
        }
        self.nodes.borrow_mut().remove(&p);
        Ok(())
    }
    fn canonicalize(&self, path: &str) -> Option<String> {
        if self.has(path) { Some(normalize(path)) } else { None }
    }
}

fn args() -> PurgeArgs {
    PurgeArgs { dry_run: true, ..Default::default() }
}

fn bytes(n: u64) -> String {
    format!("{} B", n)
}

#[test]
fn matches_jvm_heap_dump() {
    assert!(is_extra_file("java_pid31278.hprof"));
    assert!(is_extra_file("java_pid1.hprof"));
    assert!(!is_extra_file("java_pid.hprof"));
    assert!(!is_extra_file("heap.hprof"));
}

#[test]
fn matches_jvm_crash_log() {
    assert!(is_extra_file("hs_err_pid9999.log"));
    assert!(!is_extra_file("error.log"));
}

#[test]
fn matches_core_dump_variants() {
    assert!(is_extra_file("core"));
    assert!(is_extra_file("core.123"));
    assert!(!is_extra_file("core.txt"));
    assert!(!is_extra_file("scorecard.md"));
}

#[test]
fn matches_pkg_manager_logs() {
    assert!(is_extra_file("npm-debug.log"));
    assert!(is_extra_file("npm-debug.log.0"));
    assert!(is_extra_file("yarn-error.log"));
    assert!(is_extra_file("lerna-debug.log"));
}

#[test]
fn matches_editor_and_os_junk() {
    assert!(is_extra_file(".DS_Store"));
    assert!(is_extra_file("Thumbs.db"));
    assert!(is_extra_file(".eslintcache"));
    assert!(is_extra_file("main.rs~"));
    assert!(is_extra_file(".main.rs.swp"));
    assert!(!is_extra_file("~"));
}

#[test]
fn pid_pattern_needs_digits_between() {
    assert!(matches_pid_pattern("java_pid42.hprof", "java_pid", ".hprof"));
    assert!(!matches_pid_pattern("java_pid4x2.hprof", "java_pid", ".hprof"));
    assert!(!matches_pid_pattern("java_pid.hprof", "java_pid", ".hprof"));
    assert!(is_extra_file("crash.dmp"));
    assert!(!is_extra_file("core."));
    assert!(is_extra_dir(".nyc_output"));
    assert!(!is_extra_dir("coverage"));
}

#[test]
fn dry_run_does_not_delete_extras() {
    let fs = MemFs::new();
    let heap = "/t/java_pid42.hprof";
    let ds_store = "/t/.DS_Store";
    fs.file(heap, &"x".repeat(1024));
    fs.file(ds_store, "y");

    run(&mut Session::new(&fs), &args(), "/t", true, false, &bytes);

    assert!(fs.has(heap));
    assert!(fs.has(ds_store));
}

#[test]
fn skips_owned_subdirs() {
    let fs = MemFs::new();
    fs.dir("/t/node_modules");
    fs.file("/t/node_modules/.DS_Store", "x");
    fs.file("/t/.DS_Store", "y");

    let found = find_extras(&mut Session::new(&fs), "/t");
    assert_eq!(found.len(), 1);
    assert!(found[0].path.ends_with(".DS_Store"));
    assert!(!found[0].path.contains("node_modules"));
}

#[test]
fn largest_extras_come_first_and_sizes_add_up() {
    let fs = MemFs::new();
    fs.file("/t/npm-debug.log", &"x".repeat(10));
    fs.file("/t/java_pid7.hprof", &"x".repeat(300));
    fs.file("/t/.nyc_output/deep/a.json", &"x".repeat(50));

    let found = find_extras(&mut Session::new(&fs), "/t");
    let sizes: Vec<u64> = found.iter().map(|e| e.size).collect();
    assert_eq!(sizes, vec![300, 50, 10]);
    assert!(found[1].is_dir);
    assert_eq!(found[1].name, ".nyc_output");
    assert_eq!(total_size(&found), 360);
}

#[test]
fn total_size_saturates() {
    let items = vec![
        Extra { path: "/a".to_string(), name: "a".to_string(), size: u64::MAX - 1, is_dir: false },
        Extra { path: "/b".to_string(), name: "b".to_string(), size: 5, is_dir: false },
    ];
    assert_eq!(total_size(&items), u64::MAX);
}

#[test]
fn ds_store_is_deleted_without_asking_and_the_rest_kept_when_declined() {
    let fs = MemFs::new();
    fs.file("/t/.DS_Store", "y");
    fs.file("/t/java_pid42.hprof", "x");

    run(&mut Session::new(&fs), &PurgeArgs::default(), "/t", false, false, &bytes);

    assert!(!fs.has("/t/.DS_Store"));
    assert!(fs.has("/t/java_pid42.hprof"));
}
