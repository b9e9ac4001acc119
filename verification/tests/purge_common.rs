use mdev::session::Session;
use mdev::commands::purge::common::{
    delete_entry, delete_existing_with_confirm, delete_paths, existing_paths, is_heavy_or_owned_dir,
    select_paths_to_delete, DeleteScope, EntryKind,
};
use mdev::runner::{DirEntry, HostOs, IoError, RunResult, Runner};
use std::cell::RefCell;
use std::collections::BTreeMap;

/// An in-memory file tree: each path maps to a file's contents, or to `None`
/// for a directory. Runs no commands.
struct MemFs {
    nodes: RefCell<BTreeMap<String, Option<String>>>,
}

fn parent(p: &str) -> Option<String> {
    match p.rfind('/') {
        Some(0) if p.len() > 1 => Some("/".to_string()),
        Some(0) => None,
        Some(i) => Some(p[..i].to_string()),
        None => None,
    }
}

fn normalize(p: &str) -> String {
    if p.len() > 1 { p.trim_end_matches('/').to_string() } else { p.to_string() }
}

impl MemFs {
    fn new() -> Self {
        let fs = MemFs { nodes: RefCell::new(BTreeMap::new()) };
        fs.dir("/t");
        fs
    }
    fn dir(&self, p: &str) {
        let p = normalize(p);
        if let Some(up) = parent(&p) {
            if !self.nodes.borrow().contains_key(&up) {
                self.dir(&up);
            }
        }
        self.nodes.borrow_mut().insert(p, None);
    }
    fn file(&self, p: &str, contents: &str) {
        let p = normalize(p);
        if let Some(up) = parent(&p) {
            self.dir(&up);
        }
        self.nodes.borrow_mut().insert(p, Some(contents.to_string()));
    }
    fn has(&self, p: &str) -> bool {
        self.nodes.borrow().contains_key(&normalize(p))
    }
    fn children(&self, p: &str) -> Option<Vec<(String, Option<String>)>> {
        let p = normalize(p);
        let nodes = self.nodes.borrow();
        match nodes.get(&p) {
            Some(None) => {}
            _ => return None,
        }
        let mut out = Vec::new();
        for (k, v) in nodes.iter() {
            if parent(k).as_deref() == Some(p.as_str()) && *k != p {
                let name = k.rsplit('/').next().unwrap_or("").to_string();
                out.push((name, v.clone()));
            }
        }
        Some(out)
    }
}

impl Runner for MemFs {
    fn run(&self, _executable: &str, _args: &[&str], _working_dir: Option<&str>) -> RunResult {
        RunResult::new(1, String::new(), String::new())
    }
    fn which(&self, _executable: &str) -> Option<String> {
        None
    }
    fn host_os(&self) -> HostOs {
        HostOs::MacOs
    }
    fn path_exists(&self, path: &str) -> bool {
        self.has(path)
    }
    fn is_dir(&self, path: &str) -> bool {
        matches!(self.nodes.borrow().get(&normalize(path)), Some(None))
    }
    fn is_file(&self, path: &str) -> bool {
        matches!(self.nodes.borrow().get(&normalize(path)), Some(Some(_)))
    }
    fn list_dir(&self, path: &str) -> Option<Vec<String>> {
        Some(self.children(path)?.into_iter().map(|(n, _)| n).collect())
    }
    fn dir_entries(&self, path: &str) -> Option<Vec<DirEntry>> {
        Some(
            self.children(path)?
                .into_iter()
                .map(|(name, v)| DirEntry {
                    name,
                    is_dir: v.is_none(),
                    is_file: v.is_some(),
                    is_symlink: false,
                    len: v.map(|c| c.len() as u64).unwrap_or(0),
                })
                .collect(),
        )
    }
    fn read_file(&self, path: &str) -> Result<String, IoError> {
        match self.nodes.borrow().get(&normalize(path)) {
            Some(Some(c)) => Ok(c.clone()),
            _ => Err(IoError { permission_denied: false, message: "not found".to_string() }),
        }
    }
    fn read_head(&self, path: &str, max_bytes: usize) -> Option<String> {
        match self.nodes.borrow().get(&normalize(path)) {
            Some(Some(c)) => Some(c.chars().take(max_bytes).collect()),
            _ => None,
        }
    }
    fn write_file(&self, path: &str, contents: &str) -> Result<(), IoError> {
        self.file(path, contents);
        Ok(())
    }
    fn remove_dir_all(&self, path: &str) -> Result<(), IoError> {
        let p = normalize(path);
        if !self.is_dir(&p) {
            return Err(IoError { permission_denied: false, message: "not a directory".to_string() });
        }
        let prefix = format!("{}/", p);
        self.nodes.borrow_mut().retain(|k, _| *k != p && !k.starts_with(&prefix));
        Ok(())
    }
    fn remove_file(&self, path: &str) -> Result<(), IoError> {
        let p = normalize(path);
        if !self.is_file(&p) {
            return Err(IoError { permission_denied: false, message: "not a file".to_string() });
        }
        self.nodes.borrow_mut().remove(&p);
        Ok(())
    }
    fn canonicalize(&self, path: &str) -> Option<String> {
        if self.has(path) { Some(normalize(path)) } else { None }
    }
}


#[test]
fn delete_entry_dry_run_preserves_dir() {
    let fs = MemFs::new();
    let dir = "/t/cache".to_string();
    fs.dir(&dir);
    delete_entry(&mut Session::new(&fs), &dir, Some("rust"), EntryKind::Dir, true, false);
    assert!(fs.has(&dir));
}

#[test]
fn delete_entry_removes_dir() {
    let fs = MemFs::new();
    let dir = "/t/cache".to_string();
    fs.dir(&format!("{}/nested", dir));
    delete_entry(&mut Session::new(&fs), &dir, None, EntryKind::Dir, false, false);
    assert!(!fs.has(&dir));
}

#[test]
fn delete_entry_removes_file() {
    let fs = MemFs::new();
    let f = "/t/x.log".to_string();
    fs.file(&f, "x");
    delete_entry(&mut Session::new(&fs), &f, Some("rails"), EntryKind::File, false, false);
    assert!(!fs.has(&f));
}

#[test]
fn delete_entry_auto_picks_file_vs_dir() {
    let fs = MemFs::new();
    let f = "/t/a.txt".to_string();
    let d = "/t/b".to_string();
    fs.file(&f, "x");
    fs.dir(&d);
    delete_entry(&mut Session::new(&fs), &f, None, EntryKind::Auto, false, false);
    delete_entry(&mut Session::new(&fs), &d, None, EntryKind::Auto, false, false);
    assert!(!fs.has(&f));
    assert!(!fs.has(&d));
}

#[test]
fn delete_entry_missing_is_noop() {
    let fs = MemFs::new();
    let missing = "/t/nope".to_string();
    delete_entry(&mut Session::new(&fs), &missing, None, EntryKind::Dir, false, false);
}

#[test]
fn delete_paths_dry_run_preserves_all() {
    let fs = MemFs::new();
    let a = "/t/a".to_string();
    let b = "/t/b".to_string();
    fs.dir(&a);
    fs.dir(&b);
    delete_paths(&mut Session::new(&fs), &[a.clone(), b.clone()], true, false);
    assert!(fs.has(&a) && fs.has(&b));
}

#[test]
fn kind_dir_on_file_leaves_file() {
    let fs = MemFs::new();
    let f = "/t/notadir".to_string();
    fs.file(&f, "data");
    delete_entry(&mut Session::new(&fs), &f, None, EntryKind::Dir, false, false);
    assert!(fs.has(&f), "Dir kind on file must not remove the file");
    assert_eq!(fs.read_file(&f).unwrap(), "data");
}

#[test]
fn kind_file_on_dir_leaves_dir() {
    let fs = MemFs::new();
    let d = "/t/adir".to_string();
    fs.dir(&format!("{}/nested", d));
    delete_entry(&mut Session::new(&fs), &d, None, EntryKind::File, false, false);
    assert!(fs.has(&d), "File kind on dir must not remove the directory");
    assert!(fs.has(&format!("{}/nested", d)));
}

#[test]
fn auto_removes_nested_tree() {
    let fs = MemFs::new();
    let root = "/t/tree".to_string();
    fs.dir(&format!("{}/a/b", root));
    fs.file(&format!("{}/a/b/c.txt", root), "x");
    delete_entry(&mut Session::new(&fs), &root, Some("t"), EntryKind::Auto, false, false);
    assert!(!fs.has(&root));
}

#[test]
fn auto_removes_empty_dir() {
    let fs = MemFs::new();
    let d = "/t/empty".to_string();
    fs.dir(&d);
    delete_entry(&mut Session::new(&fs), &d, None, EntryKind::Auto, false, false);
    assert!(!fs.has(&d));
}

#[test]
fn existing_paths_filters_missing() {
    let fs = MemFs::new();
    let a = "/t/a".to_string();
    let b = "/t/missing".to_string();
    fs.dir(&a);
    let cands = vec![a.clone(), b.clone()];
    let got = existing_paths(&mut Session::new(&fs), &cands);
    assert_eq!(got.len(), 1);
    assert_eq!(got[0], a);
}

#[test]
fn confirm_delete_dry_run_preserves_and_counts() {
    let fs = MemFs::new();
    let a = "/t/a".to_string();
    let b = "/t/b".to_string();
    fs.dir(&a);
    fs.dir(&b);
    let existing = [a.clone(), b.clone()];
    let n = delete_existing_with_confirm(&mut Session::new(&fs), &existing, true, false, Some("t"), "Delete?");
    assert_eq!(n, 2);
    assert!(fs.has(&a) && fs.has(&b));
}

#[test]
fn confirm_delete_empty_is_zero() {
    let n = delete_existing_with_confirm(&mut Session::new(&MemFs::new()), &[], false, false, None, "x");
    assert_eq!(n, 0);
}

#[test]
fn select_paths_empty_is_empty() {
    let got = select_paths_to_delete(&mut Session::new(&MemFs::new()), &[], "x");
    assert!(got.is_empty());
}

#[test]
fn delete_scope_variants_distinct() {
    assert_ne!(DeleteScope::Skip, DeleteScope::All);
    assert_ne!(DeleteScope::All, DeleteScope::Pick);
    assert_ne!(DeleteScope::Skip, DeleteScope::Pick);
}

#[test]
fn heavy_or_owned_dir_core_names() {
    for n in ["node_modules", ".git", "target", "__pycache__", ".venv"] {
        assert!(is_heavy_or_owned_dir(n), "{n}");
    }
    for n in ["src", "lib", "worktree", "feature-worktree"] {
        assert!(!is_heavy_or_owned_dir(n), "{n}");
    }
}

/// Answers every menu with "All" and confirms nothing.
struct PickAllRunner;

impl Runner for PickAllRunner {
    fn run(&self, _executable: &str, _args: &[&str], _working_dir: Option<&str>) -> RunResult {
        RunResult::new(1, String::new(), String::new())
    }
    fn which(&self, _executable: &str) -> Option<String> {
        None
    }
    fn host_os(&self) -> HostOs {
        HostOs::Linux
    }
    fn select(&self, _prompt: &str, _items: &[&str], _default: usize) -> usize {
        1
    }
}

#[test]
fn select_paths_all_keeps_every_path_in_order() {
    let got = select_paths_to_delete(&mut Session::new(&PickAllRunner), &["/a".to_string(), "/b".to_string()], "x");
    assert_eq!(got, vec!["/a".to_string(), "/b".to_string()]);
}

#[test]
fn select_paths_default_answer_deletes_nothing() {
    let got = select_paths_to_delete(&mut Session::new(&MemFs::new()), &["/a".to_string()], "x");
    assert!(got.is_empty());
}
