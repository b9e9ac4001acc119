use mdev::session::Session;
use mdev::commands::purge::{
    android, collect_flutter_sdk_caches, collect_projects, dedupe_by_key, flutter, global_paths, global_plan, go, ios,
    node, python, ruby, runs_cleaner, rust, sdk_version_roots, without_nested, GlobalPlan, PurgeArgs,
};
use mdev::models::{AppInfo, NodePm, ProjectType};
use mdev::runner::{DirEntry, HostOs, IoError, RunResult, Runner};
use std::cell::RefCell;
use std::collections::BTreeMap;
use std::path::Path;

/// An in-memory file tree: each path maps to a file's contents, or to `None`
/// for a directory. Runs no commands.
struct MemFs {
    nodes: RefCell<BTreeMap<String, Option<String>>>,
}

fn parent(p: &str) -> Option<String> {
    match p.rfind('/') {
        Some(0) if p.len() > 1 => Some("/".to_string()),
        Some(0) => None,
        Some(i) => Some(p[..i].to_string()),
        None => None,
    }
}

fn normalize(p: &str) -> String {
    if p.len() > 1 { p.trim_end_matches('/').to_string() } else { p.to_string() }
}

impl MemFs {
    fn new() -> Self {
        let fs = MemFs { nodes: RefCell::new(BTreeMap::new()) };
        fs.dir("/t");
        fs
    }
    fn dir(&self, p: &str) {
        let p = normalize(p);
        if let Some(up) = parent(&p) {
            if !self.nodes.borrow().contains_key(&up) {
                self.dir(&up);
            }
        }
        self.nodes.borrow_mut().insert(p, None);
    }
    fn file(&self, p: &str, contents: &str) {
        let p = normalize(p);
        if let Some(up) = parent(&p) {
            self.dir(&up);
        }
        self.nodes.borrow_mut().insert(p, Some(contents.to_string()));
    }
    fn has(&self, p: &str) -> bool {
        self.nodes.borrow().contains_key(&normalize(p))
    }
    fn children(&self, p: &str) -> Option<Vec<(String, Option<String>)>> {
        let p = normalize(p);
        let nodes = self.nodes.borrow();
        match nodes.get(&p) {
            Some(None) => {}
            _ => return None,
        }
        let mut out = Vec::new();
        for (k, v) in nodes.iter() {
            if parent(k).as_deref() == Some(p.as_str()) && *k != p {
                let name = k.rsplit('/').next().unwrap_or("").to_string();
                out.push((name, v.clone()));
            }
        }
        Some(out)
    }
}

impl Runner for MemFs {
    fn run(&self, _executable: &str, _args: &[&str], _working_dir: Option<&str>) -> RunResult {
        RunResult::new(1, String::new(), String::new())
    }
    fn which(&self, _executable: &str) -> Option<String> {
        None
    }
    fn host_os(&self) -> HostOs {
        HostOs::MacOs
    }
    fn path_exists(&self, path: &str) -> bool {
        self.has(path)
    }
    fn is_dir(&self, path: &str) -> bool {
        matches!(self.nodes.borrow().get(&normalize(path)), Some(None))
    }
    fn is_file(&self, path: &str) -> bool {
        matches!(self.nodes.borrow().get(&normalize(path)), Some(Some(_)))
    }
    fn list_dir(&self, path: &str) -> Option<Vec<String>> {
        Some(self.children(path)?.into_iter().map(|(n, _)| n).collect())
    }
    fn dir_entries(&self, path: &str) -> Option<Vec<DirEntry>> {
        Some(
            self.children(path)?
                .into_iter()
                .map(|(name, v)| DirEntry {
                    name,
                    is_dir: v.is_none(),
                    is_file: v.is_some(),
                    is_symlink: false,
                    len: v.map(|c| c.len() as u64).unwrap_or(0),
                })
                .collect(),
        )
    }
    fn read_file(&self, path: &str) -> Result<String, IoError> {
        match self.nodes.borrow().get(&normalize(path)) {
            Some(Some(c)) => Ok(c.clone()),
            _ => Err(IoError { permission_denied: false, message: "not found".to_string() }),
        }
    }
    fn read_head(&self, path: &str, max_bytes: usize) -> Option<String> {
        match self.nodes.borrow().get(&normalize(path)) {
            Some(Some(c)) => Some(c.chars().take(max_bytes).collect()),
            _ => None,
        }
    }
    fn write_file(&self, path: &str, contents: &str) -> Result<(), IoError> {
        self.file(path, contents);
        Ok(())
    }
    fn remove_dir_all(&self, path: &str) -> Result<(), IoError> {
        let p = normalize(path);
        if !self.is_dir(&p) {
            return Err(IoError { permission_denied: false, message: "not a directory".to_string() });
        }
        let prefix = format!("{}/", p);
        self.nodes.borrow_mut().retain(|k, _| *k != p && !k.starts_with(&prefix));
        Ok(())
    }
    fn remove_file(&self, path: &str) -> Result<(), IoError> {
        let p = normalize(path);
        if !self.is_file(&p) {
            return Err(IoError { permission_denied: false, message: "not a file".to_string() });
        }
        self.nodes.borrow_mut().remove(&p);
        Ok(())
    }
    fn canonicalize(&self, path: &str) -> Option<String> {
        if self.has(path) { Some(normalize(path)) } else { None }
    }
}

fn args() -> PurgeArgs {
    PurgeArgs { dry_run: true, ..Default::default() }
}

fn rel_paths(projects: &[(AppInfo, String)], base: &str) -> Vec<String> {
    projects
        .iter()
        .map(|(_, p)| match p.strip_prefix(base) {
            Some(rest) => rest.trim_start_matches('/').to_string(),
            None => p.clone(),
        })
        .collect()
}

#[test]
fn collects_every_fvm_version_and_dedupes_active() {
    let fs = MemFs::new();
    for v in &["3.41.5", "3.41.6", "3.44.0"] {
        fs.dir(&format!("/t/versions/{}/bin/cache", v));
    }
    let active = Some("/t/versions/3.44.0/bin/cache".to_string());

    let caches = collect_flutter_sdk_caches(&mut Session::new(&fs), active, &["/t/versions".to_string()]);

    assert_eq!(caches.len(), 3);
    let names: Vec<String> = caches
        .iter()
        .filter_map(|p| {
            Path::new(p).parent().and_then(|b| b.parent()).and_then(|v| v.file_name()).and_then(|n| n.to_str().map(String::from))
        })
        .collect();
    assert!(names.contains(&"3.41.5".to_string()));
    assert!(names.contains(&"3.41.6".to_string()));
    assert!(names.contains(&"3.44.0".to_string()));
}

#[test]
fn missing_version_root_is_ignored() {
    let caches = collect_flutter_sdk_caches(&mut Session::new(&MemFs::new()), None, &["/nonexistent/path".to_string()]);
    assert!(caches.is_empty());
}

#[test]
fn collect_projects_does_not_walk_up_to_parent_container() {
    let fs = MemFs::new();
    fs.file("/t/Gemfile", "");
    fs.file("/t/repo/Cargo.toml", "[package]\nname = \"x\"\n");

    let got = collect_projects(&mut Session::new(&fs), "/t/repo");

    assert_eq!(got.len(), 1);
    assert_eq!(got[0].1, "/t/repo");
    assert_eq!(got[0].0.project_type, ProjectType::Rust);
}

#[test]
fn collect_projects_home_layout_finds_nested_repos_only() {
    let fs = MemFs::new();
    fs.file("/t/package.json", "{}");
    fs.file("/t/projects/open-source/cli-apps-helper/Cargo.toml", "[package]\nname = \"mdev\"\n");
    fs.file("/t/projects/other-app/go.mod", "module example.com/other\n");
    fs.file("/t/Library/Zed/languages/bash-language-server/package.json", "{}");

    let got = collect_projects(&mut Session::new(&fs), "/t");
    let paths = rel_paths(&got, "/t");

    assert_eq!(paths, vec!["projects/open-source/cli-apps-helper".to_string(), "projects/other-app".to_string()]);
    assert!(got.iter().all(|(_, p)| p != "/t"), "purge must not treat a container scan root as the sole project");
}

#[test]
fn collect_projects_single_repo_at_scan_root() {
    let fs = MemFs::new();
    fs.file("/t/Cargo.toml", "[package]\nname = \"solo\"\n");

    let got = collect_projects(&mut Session::new(&fs), "/t");

    assert_eq!(got.len(), 1);
    assert_eq!(got[0].1, "/t");
    assert_eq!(got[0].0.project_type, ProjectType::Rust);
}

fn info(t: ProjectType) -> AppInfo {
    AppInfo::new(String::new(), t, None, None)
}

#[test]
fn nested_projects_and_repeated_roots_are_dropped() {
    let projects = vec![
        (info(ProjectType::Go), "/w/a".to_string()),
        (info(ProjectType::Rust), "/w/a/inner".to_string()),
        (info(ProjectType::Go), "/w/ab".to_string()),
        (info(ProjectType::Rust), "/w/b".to_string()),
        (info(ProjectType::Flutter), "/w/b".to_string()),
    ];
    let kept = without_nested(projects);
    let roots: Vec<&str> = kept.iter().map(|(_, p)| p.as_str()).collect();
    assert_eq!(roots, vec!["/w/a", "/w/ab", "/w/b"]);
    assert_eq!(kept[2].0.project_type, ProjectType::Flutter);
}

#[test]
fn dedupe_by_key_keeps_first_of_each_key() {
    let paths = vec!["/x".to_string(), "/y".to_string(), "/z".to_string()];
    let keys = vec!["k1".to_string(), "k2".to_string(), "k1".to_string()];
    assert_eq!(dedupe_by_key(&paths, &keys), vec!["/x".to_string(), "/y".to_string()]);
}

#[test]
fn sdk_version_roots_put_fvm_cache_first() {
    assert_eq!(
        sdk_version_roots("/h", Some("/fvm")),
        vec!["/fvm/versions", "/h/fvm/versions", "/h/.fvm/versions", "/h/.asdf/installs/flutter"]
    );
    assert_eq!(sdk_version_roots("/h", None).len(), 3);
}

#[test]
fn without_flags_every_cleaner_runs() {
    let a = PurgeArgs::default();
    assert!(runs_cleaner(&a, ProjectType::Go));
    assert!(runs_cleaner(&a, ProjectType::Node { manager: NodePm::Npm }));
    assert!(!runs_cleaner(&a, ProjectType::Unknown));
    let only_node = PurgeArgs { node: true, ..Default::default() };
    assert!(runs_cleaner(&only_node, ProjectType::Node { manager: NodePm::Yarn }));
    assert!(!runs_cleaner(&only_node, ProjectType::Rust));
    let only_ios = PurgeArgs { ios: true, ..Default::default() };
    assert!(runs_cleaner(&only_ios, ProjectType::Flutter));
    assert!(!runs_cleaner(&only_ios, ProjectType::Android));
}

#[test]
fn global_plan_follows_flags_and_projects() {
    let plan = global_plan(&PurgeArgs::default(), true, false, true);
    assert_eq!(plan, GlobalPlan { pub_cache: true, flutter_sdk: true, gradle: true, derived_data: false, pod_cache: false });
    let plan = global_plan(&PurgeArgs { pub_cache: true, ..Default::default() }, true, true, true);
    assert_eq!(plan, GlobalPlan { pub_cache: true, flutter_sdk: false, gradle: false, derived_data: false, pod_cache: false });
    let plan = global_plan(&PurgeArgs { ios: true, ..Default::default() }, false, false, false);
    assert_eq!(plan, GlobalPlan { pub_cache: false, flutter_sdk: false, gradle: false, derived_data: false, pod_cache: false });
}

#[test]
fn global_paths_list_in_plan_order() {
    let plan = GlobalPlan { pub_cache: true, flutter_sdk: true, gradle: true, derived_data: true, pod_cache: true };
    let got = global_paths("/h", "/g", &["/sdk/bin/cache".to_string()], plan);
    assert_eq!(
        got,
        vec![
            "/h/.pub-cache",
            "/sdk/bin/cache",
            "/g/caches",
            "/g/wrapper/dists",
            "/g/daemon",
            "/h/.kotlin",
            "/h/Library/Developer/Xcode/DerivedData",
            "/h/Library/Caches/CocoaPods",
        ]
    );
}

#[test]
fn cleaner_targets_follow_flags() {
    assert_eq!(android::targets(&PurgeArgs::default(), "/p"), vec!["/p/build", "/p/app/build", "/p/.gradle", "/p/.dart_tool"]);
    assert!(android::targets(&PurgeArgs { ios: true, ..Default::default() }, "/p").is_empty());
    assert_eq!(ios::targets(&PurgeArgs::default(), "/p", true), vec!["/p/Pods", "/p/.symlinks", "/p/build"]);
    assert!(ios::targets(&PurgeArgs::default(), "/p", false).is_empty());
    assert_eq!(
        flutter::targets(&PurgeArgs { flutter: true, ..Default::default() }, "/p", true),
        vec!["/p/android/build", "/p/android/app/build", "/p/android/.gradle", "/p/ios/Pods", "/p/ios/.symlinks", "/p/ios/build"]
    );
    assert_eq!(flutter::targets(&PurgeArgs { android: true, ..Default::default() }, "/p", true).len(), 3);
    assert!(!flutter::runs_flutter_clean(&PurgeArgs { android: true, ..Default::default() }));
    assert_eq!(node::targets("/p").len(), 11);
    assert_eq!(node::global_candidates("/h", HostOs::Linux), vec!["/h/.npm", "/h/.pnpm-store", "/h/.cache/yarn", "/h/.bun/install/cache"]);
    assert_eq!(rust::global_candidates("/h")[0], "/h/.cargo/registry/cache");
    assert_eq!(go::build_cache("/h", HostOs::MacOs), Some("/h/Library/Caches/go-build".to_string()));
    assert_eq!(go::build_cache("/h", HostOs::Windows), None);
    assert!(ruby::is_rails_log("development.log"));
    assert!(!ruby::is_rails_log(".log"));
    assert_eq!(python::global_candidates("/h", HostOs::Other), vec!["/h/.cache/uv", "/h/.local/share/virtualenvs"]);
    assert!(python::is_py_cache_dir("__pycache__"));
    assert!(python::is_sweep_skip("env"));
}

#[test]
fn dry_run_does_not_delete_bin_or_pkg() {
    let fs = MemFs::new();
    fs.file("/t/go.mod", "module example.test\n");
    let bin = "/t/bin".to_string();
    let pkg = "/t/pkg".to_string();
    fs.dir(&bin);
    fs.dir(&pkg);

    go::run(&mut Session::new(&fs), &args(), "/t", true, false);

    assert!(fs.has(&bin), "dry-run must not delete bin/");
    assert!(fs.has(&pkg), "dry-run must not delete pkg/");
}

#[test]
fn dry_run_does_not_delete_python_caches() {
    let fs = MemFs::new();
    let pycache = "/t/__pycache__".to_string();
    let pytest = "/t/.pytest_cache".to_string();
    let coverage = "/t/.coverage".to_string();
    let htmlcov = "/t/htmlcov".to_string();
    fs.dir(&pycache);
    fs.dir(&pytest);
    fs.file(&coverage, "");
    fs.dir(&htmlcov);

    python::run(&mut Session::new(&fs), &args(), "/t", true, false);

    assert!(fs.has(&pycache));
    assert!(fs.has(&pytest));
    assert!(fs.has(&coverage));
    assert!(fs.has(&htmlcov));
}

#[test]
fn python_sweep_deletes_nested_caches_but_not_in_env() {
    let fs = MemFs::new();
    let nested = "/t/pkg/sub/__pycache__".to_string();
    let mypy = "/t/pkg/.mypy_cache".to_string();
    let in_env = "/t/env/lib/__pycache__".to_string();
    let in_venv = "/t/.venv/lib/.pytest_cache".to_string();
    fs.dir(&nested);
    fs.dir(&mypy);
    fs.dir(&in_env);
    fs.dir(&in_venv);

    python::run(&mut Session::new(&fs), &args(), "/t", false, false);

    assert!(!fs.has(&nested));
    assert!(!fs.has(&mypy));
    assert!(fs.has(&in_env));
    assert!(fs.has(&in_venv));
}

#[test]
fn dry_run_does_not_delete_ruby_targets() {
    let fs = MemFs::new();
    let vendor_bundle = "/t/vendor/bundle".to_string();
    let dot_bundle = "/t/.bundle".to_string();
    fs.dir(&vendor_bundle);
    fs.dir(&dot_bundle);

    ruby::run(&mut Session::new(&fs), &args(), "/t", true, false);

    assert!(fs.has(&vendor_bundle));
    assert!(fs.has(&dot_bundle));
}

#[test]
fn dry_run_rails_branch_preserves_tmp_cache_and_log() {
    let fs = MemFs::new();
    fs.dir("/t/config");
    fs.file("/t/config/application.rb", "# rails\n");
    let vendor_bundle = "/t/vendor/bundle".to_string();
    let tmp_cache = "/t/tmp/cache".to_string();
    let log_dir = "/t/log".to_string();
    let log_file = format!("{}/development.log", log_dir);
    fs.dir(&vendor_bundle);
    fs.dir(&tmp_cache);
    fs.dir(&log_dir);
    fs.file(&log_file, "line\n");

    ruby::run(&mut Session::new(&fs), &args(), "/t", true, false);

    assert!(fs.has(&tmp_cache));
    assert!(fs.has(&log_file));
    assert!(fs.has(&vendor_bundle));
}

#[test]
fn rails_logs_are_deleted_and_other_files_kept() {
    let fs = MemFs::new();
    fs.dir("/t/config");
    fs.file("/t/config/application.rb", "# rails\n");
    fs.dir("/t/log");
    fs.file("/t/log/test.log", "x");
    fs.file("/t/log/keep.txt", "x");

    ruby::run(&mut Session::new(&fs), &args(), "/t", false, false);

    assert!(!fs.has("/t/log/test.log"));
    assert!(fs.has("/t/log/keep.txt"));
}

#[test]
fn dry_run_does_not_delete_target() {
    let fs = MemFs::new();
    let target = "/t/target".to_string();
    fs.dir(&format!("{}/debug", target));
    let sentinel = format!("{}/debug/placeholder", target);
    fs.file(&sentinel, "x");

    rust::run(&mut Session::new(&fs), &args(), "/t", true, false);

    assert!(fs.has(&target), "dry-run must not delete target/");
    assert!(fs.has(&sentinel), "dry-run must leave files inside target/ untouched");
}
