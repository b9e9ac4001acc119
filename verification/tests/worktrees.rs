use mdev::session::Session;
use mdev::commands::purge::worktrees::{
    collapse_nested,
    discover_worktree_folders, is_multi_worktree_parent, is_worktree_basename, parse_worktrees, removable,
    union_targets, MAX_DEPTH,
};
use mdev::runner::{DirEntry, HostOs, IoError, RunResult, Runner};
use std::cell::RefCell;
use std::collections::BTreeMap;

/// An in-memory file tree: each path maps to a file's contents, or to `None`
/// for a directory. Runs no commands.
struct MemFs {
    nodes: RefCell<BTreeMap<String, Option<String>>>,
}

fn parent(p: &str) -> Option<String> {
    match p.rfind('/') {
        Some(0) if p.len() > 1 => Some("/".to_string()),
        Some(0) => None,
        Some(i) => Some(p[..i].to_string()),
        None => None,
    }
}

fn normalize(p: &str) -> String {
    if p.len() > 1 { p.trim_end_matches('/').to_string() } else { p.to_string() }
}

impl MemFs {
    fn new() -> Self {
        let fs = MemFs { nodes: RefCell::new(BTreeMap::new()) };
        fs.dir("/t");
        fs
    }
    fn dir(&self, p: &str) {
        let p = normalize(p);
        if let Some(up) = parent(&p) {
            if !self.nodes.borrow().contains_key(&up) {
                self.dir(&up);
            }
        }
        self.nodes.borrow_mut().insert(p, None);
    }
    fn file(&self, p: &str, contents: &str) {
        let p = normalize(p);
        if let Some(up) = parent(&p) {
            self.dir(&up);
        }
        self.nodes.borrow_mut().insert(p, Some(contents.to_string()));
    }
    fn has(&self, p: &str) -> bool {
        self.nodes.borrow().contains_key(&normalize(p))
    }
    fn children(&self, p: &str) -> Option<Vec<(String, Option<String>)>> {
        let p = normalize(p);
        let nodes = self.nodes.borrow();
        match nodes.get(&p) {
            Some(None) => {}
            _ => return None,
        }
        let mut out = Vec::new();
        for (k, v) in nodes.iter() {
            if parent(k).as_deref() == Some(p.as_str()) && *k != p {
                let name = k.rsplit('/').next().unwrap_or("").to_string();
                out.push((name, v.clone()));
            }
        }
        Some(out)
    }
}

impl Runner for MemFs {
    fn run(&self, _executable: &str, _args: &[&str], _working_dir: Option<&str>) -> RunResult {
        RunResult::new(1, String::new(), String::new())
    }
    fn which(&self, _executable: &str) -> Option<String> {
        None
    }
    fn host_os(&self) -> HostOs {
        HostOs::MacOs
    }
    fn path_exists(&self, path: &str) -> bool {
        self.has(path)
    }
    fn is_dir(&self, path: &str) -> bool {
        matches!(self.nodes.borrow().get(&normalize(path)), Some(None))
    }
    fn is_file(&self, path: &str) -> bool {
        matches!(self.nodes.borrow().get(&normalize(path)), Some(Some(_)))
    }
    fn list_dir(&self, path: &str) -> Option<Vec<String>> {
        Some(self.children(path)?.into_iter().map(|(n, _)| n).collect())
    }
    fn dir_entries(&self, path: &str) -> Option<Vec<DirEntry>> {
        Some(
            self.children(path)?
                .into_iter()
                .map(|(name, v)| DirEntry {
                    name,
                    is_dir: v.is_none(),
                    is_file: v.is_some(),
                    is_symlink: false,
                    len: v.map(|c| c.len() as u64).unwrap_or(0),
                })
                .collect(),
        )
    }
    fn read_file(&self, path: &str) -> Result<String, IoError> {
        match self.nodes.borrow().get(&normalize(path)) {
            Some(Some(c)) => Ok(c.clone()),
            _ => Err(IoError { permission_denied: false, message: "not found".to_string() }),
        }
    }
    fn read_head(&self, path: &str, max_bytes: usize) -> Option<String> {
        match self.nodes.borrow().get(&normalize(path)) {
            Some(Some(c)) => Some(c.chars().take(max_bytes).collect()),
            _ => None,
        }
    }
    fn write_file(&self, path: &str, contents: &str) -> Result<(), IoError> {
        self.file(path, contents);
        Ok(())
    }
    fn remove_dir_all(&self, path: &str) -> Result<(), IoError> {
        let p = normalize(path);
        if !self.is_dir(&p) {
            return Err(IoError { permission_denied: false, message: "not a directory".to_string() });
        }
        let prefix = format!("{}/", p);
        self.nodes.borrow_mut().retain(|k, _| *k != p && !k.starts_with(&prefix));
        Ok(())
    }
    fn remove_file(&self, path: &str) -> Result<(), IoError> {
        let p = normalize(path);
        if !self.is_file(&p) {
            return Err(IoError { permission_denied: false, message: "not a file".to_string() });
        }
        self.nodes.borrow_mut().remove(&p);
        Ok(())
    }
    fn canonicalize(&self, path: &str) -> Option<String> {
        if self.has(path) { Some(normalize(path)) } else { None }
    }
}

const SAMPLE: &str = "\
worktree /repo
HEAD aaaa
branch refs/heads/main

worktree /repo/.agents/wt/feature
HEAD bbbb
branch refs/heads/feature

worktree /repo/.assist/worktrees/agent-1
HEAD cccc
detached
locked harness-managed

worktree /repo/.agents/wt/dirty
HEAD dddd
branch refs/heads/dirty
";

#[test]
fn skips_main_and_locked_worktrees() {
    let parsed = parse_worktrees(SAMPLE);
    assert_eq!(parsed.len(), 4);
    assert!(parsed[0].is_main);
    assert!(parsed[2].locked);

    let targets: Vec<&str> = removable(&parsed).iter().map(|w| w.path.as_str()).collect();
    assert_eq!(targets, vec!["/repo/.agents/wt/feature", "/repo/.agents/wt/dirty"]);
}

#[test]
fn empty_output_yields_no_targets() {
    assert!(parse_worktrees("").is_empty());
    assert!(removable(&[]).is_empty());
}

#[test]
fn lone_main_worktree_has_no_removable_targets() {
    let parsed = parse_worktrees("worktree /repo\nHEAD aaaa\nbranch refs/heads/main\n");
    assert_eq!(parsed.len(), 1);
    assert!(removable(&parsed).is_empty());
}

#[test]
fn bare_main_repo_is_not_removable() {
    let parsed = parse_worktrees("worktree /repo.git\nbare\n\nworktree /repo/wt\nHEAD b\nbranch refs/heads/x\n");
    let targets = removable(&parsed);
    assert_eq!(targets.len(), 1);
    assert_eq!(targets[0].path, "/repo/wt");
}

#[test]
fn worktree_basename_matcher_table() {
    let cases: &[(&str, bool)] = &[
        ("worktree", true),
        ("worktrees", true),
        (".worktree", true),
        (".worktrees", true),
        ("feature-worktree", true),
        ("my-feature-worktree", true),
        ("agent.worktree", true),
        ("src", false),
        ("node_modules", false),
        ("worktreex", false),
        ("myworktree", false),
        ("work-tree", false),
        (".git", false),
        ("wt", false),
    ];
    for &(name, want) in cases {
        assert_eq!(is_worktree_basename(name), want, "is_worktree_basename({name:?}) expected {want}");
    }
}

#[test]
fn multi_parent_matcher_table() {
    assert!(is_multi_worktree_parent("worktrees", "worktrees"));
    assert!(is_multi_worktree_parent("worktree", ".assist/worktree"));
    assert!(is_multi_worktree_parent("worktrees", ".assist/worktrees"));
    assert!(is_multi_worktree_parent("wt", ".agents/wt"));
    assert!(!is_multi_worktree_parent("wt", "other/wt"));
    assert!(!is_multi_worktree_parent("src", "src"));
}

fn mkdir(fs: &MemFs, rel: &str) {
    fs.dir(&format!("/t/{}", rel));
}

fn rels(paths: &[String]) -> Vec<String> {
    let base = "/t".to_string();
    let mut v: Vec<String> = paths
        .iter()
        .map(|p| p.strip_prefix(&base).map(|r| r.trim_start_matches('/').to_string()).unwrap_or_else(|| p.clone()))
        .collect();
    v.sort();
    v
}

#[test]
fn discover_finds_convention_layouts() {
    let fs = MemFs::new();

    mkdir(&fs, "worktree");
    mkdir(&fs, "worktrees/feature-a");
    mkdir(&fs, "feature-worktree");
    mkdir(&fs, ".worktree");
    mkdir(&fs, ".assist/worktree/agent-x");
    mkdir(&fs, ".assist/worktrees/agent-1");
    mkdir(&fs, ".agents/wt/feature");
    mkdir(&fs, "src/lib");
    mkdir(&fs, "node_modules/pkg");

    let found = discover_worktree_folders(&mut Session::new(&fs), "/t");
    let got = rels(&found);

    for expected in [
        "worktree",
        "worktrees",
        "worktrees/feature-a",
        "feature-worktree",
        ".worktree",
        ".assist/worktree",
        ".assist/worktree/agent-x",
        ".assist/worktrees",
        ".assist/worktrees/agent-1",
        ".agents/wt/feature",
    ] {
        assert!(got.iter().any(|g| g == expected), "missing {expected:?} in {got:?}");
    }
    assert!(!got.iter().any(|g| g == "src" || g.starts_with("src/")), "must not match src: {got:?}");
    assert!(
        !got.iter().any(|g| g == "node_modules" || g.starts_with("node_modules/")),
        "must not match node_modules: {got:?}"
    );
}

#[test]
fn discover_depth_bound_skips_deep_decoy() {
    let fs = MemFs::new();
    mkdir(&fs, "a/b/c/d/worktree");
    mkdir(&fs, "feature-worktree");

    let found = discover_worktree_folders(&mut Session::new(&fs), "/t");
    let got = rels(&found);

    assert!(got.iter().any(|g| g == "feature-worktree"), "shallow candidate missing: {got:?}");
    assert!(!got.iter().any(|g| g.contains("a/b/c/d")), "deep decoy must not be discovered: {got:?}");
}

#[test]
fn union_dedupes_fs_matching_porcelain() {
    let git = vec!["/repo/.agents/wt/feature".to_string(), "/repo/.agents/wt/dirty".to_string()];
    let fs = vec![
        "/repo/.agents/wt/feature".to_string(),
        "/repo/feature-worktree".to_string(),
        "/repo/worktrees/orphan".to_string(),
    ];
    let (union, fs_only) = union_targets(&git, &fs);

    assert_eq!(union.len(), 4);
    assert!(union.contains(&"/repo/.agents/wt/feature".to_string()));
    assert!(union.contains(&"/repo/feature-worktree".to_string()));
    assert_eq!(fs_only.len(), 2);
    assert!(fs_only.contains(&"/repo/feature-worktree".to_string()));
    assert!(fs_only.contains(&"/repo/worktrees/orphan".to_string()));
    assert!(!fs_only.contains(&"/repo/.agents/wt/feature".to_string()));
}

#[test]
fn union_treats_trailing_slash_as_same_path() {
    let git = vec!["/repo/wt/a/".to_string()];
    let fs = vec!["/repo/wt/a".to_string()];
    let (union, fs_only) = union_targets(&git, &fs);
    assert_eq!(union.len(), 1);
    assert!(fs_only.is_empty());
}

#[test]
fn max_depth_constant_is_bounded() {
    assert!(MAX_DEPTH <= 4);
    assert!(MAX_DEPTH >= 1);
}

#[test]
fn nested_fs_only_folders_collapse_into_their_parent() {
    let paths = vec![
        "/repo/worktrees".to_string(),
        "/repo/worktrees/feature-a".to_string(),
        "/repo/feature-worktree".to_string(),
        "/repo/worktrees-old".to_string(),
    ];
    assert_eq!(
        collapse_nested(&paths),
        vec!["/repo/worktrees".to_string(), "/repo/feature-worktree".to_string(), "/repo/worktrees-old".to_string()]
    );
}

/// The tree of `MemFs`, plus a symlink named `escape-link` at the root that
/// points outside it.
struct LinkedFs(MemFs);

impl Runner for LinkedFs {
    fn run(&self, executable: &str, args: &[&str], working_dir: Option<&str>) -> RunResult {
        self.0.run(executable, args, working_dir)
    }
    fn which(&self, executable: &str) -> Option<String> {
        self.0.which(executable)
    }
    fn host_os(&self) -> HostOs {
        self.0.host_os()
    }
    fn dir_entries(&self, path: &str) -> Option<Vec<DirEntry>> {
        let mut entries = self.0.dir_entries(path)?;
        if path == "/t" {
            entries.push(DirEntry { name: "escape-link".to_string(), is_dir: false, is_file: false, is_symlink: true, len: 0 });
        }
        Some(entries)
    }
    fn is_dir(&self, path: &str) -> bool {
        path == "/t/escape-link" || self.0.is_dir(path)
    }
}

#[test]
fn discover_skips_symlink_escape() {
    let fs = MemFs::new();
    fs.dir("/outside/secret-worktree");
    mkdir(&fs, "feature-worktree");
    let linked = LinkedFs(fs);

    let found = discover_worktree_folders(&mut Session::new(&linked), "/t");
    let got = rels(&found);

    assert!(got.iter().any(|g| g == "feature-worktree"));
    assert!(!got.iter().any(|g| g.contains("secret")), "must not follow symlink outside root: {got:?}");
    for p in &found {
        assert!(p.starts_with("/t/"), "candidate escaped root: {p}");
    }
}
