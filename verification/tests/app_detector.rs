use mdev::app_detector::{build_app_info, classify_dir, detect_android_id, is_discovery_skip_dir, AppDetector, MAX_DISCOVERY_DEPTH};
use mdev::session::Session;
use mdev::models::{AppInfo, NodePm, ProjectType, PyFw};
use mdev::runner::{DirEntry, HostOs, IoError, RunResult, Runner};
use std::cell::RefCell;
use std::collections::BTreeMap;

/// An in-memory file tree: each path maps to a file's contents, or to `None`
/// for a directory. Runs no commands.
struct MemFs {
    nodes: RefCell<BTreeMap<String, Option<String>>>,
}

fn parent(p: &str) -> Option<String> {
    match p.rfind('/') {
        Some(0) if p.len() > 1 => Some("/".to_string()),
        Some(0) => None,
        Some(i) => Some(p[..i].to_string()),
        None => None,
    }
}

fn normalize(p: &str) -> String {
    if p.len() > 1 { p.trim_end_matches('/').to_string() } else { p.to_string() }
}

impl MemFs {
    fn new() -> Self {
        let fs = MemFs { nodes: RefCell::new(BTreeMap::new()) };
        fs.dir("/t");
        fs
    }
    fn dir(&self, p: &str) {
        let p = normalize(p);
        if let Some(up) = parent(&p) {
            if !self.nodes.borrow().contains_key(&up) {
                self.dir(&up);
            }
        }
        self.nodes.borrow_mut().insert(p, None);
    }
    fn file(&self, p: &str, contents: &str) {
        let p = normalize(p);
        if let Some(up) = parent(&p) {
            self.dir(&up);
        }
        self.nodes.borrow_mut().insert(p, Some(contents.to_string()));
    }
    fn has(&self, p: &str) -> bool {
        self.nodes.borrow().contains_key(&normalize(p))
    }
    fn children(&self, p: &str) -> Option<Vec<(String, Option<String>)>> {
        let p = normalize(p);
        let nodes = self.nodes.borrow();
        match nodes.get(&p) {
            Some(None) => {}
            _ => return None,
        }
        let mut out = Vec::new();
        for (k, v) in nodes.iter() {
            if parent(k).as_deref() == Some(p.as_str()) && *k != p {
                let name = k.rsplit('/').next().unwrap_or("").to_string();
                out.push((name, v.clone()));
            }
        }
        Some(out)
    }
}

impl Runner for MemFs {
    fn run(&self, _executable: &str, _args: &[&str], _working_dir: Option<&str>) -> RunResult {
        RunResult::new(1, String::new(), String::new())
    }
    fn which(&self, _executable: &str) -> Option<String> {
        None
    }
    fn host_os(&self) -> HostOs {
        HostOs::MacOs
    }
    fn path_exists(&self, path: &str) -> bool {
        self.has(path)
    }
    fn is_dir(&self, path: &str) -> bool {
        matches!(self.nodes.borrow().get(&normalize(path)), Some(None))
    }
    fn is_file(&self, path: &str) -> bool {
        matches!(self.nodes.borrow().get(&normalize(path)), Some(Some(_)))
    }
    fn list_dir(&self, path: &str) -> Option<Vec<String>> {
        Some(self.children(path)?.into_iter().map(|(n, _)| n).collect())
    }
    fn dir_entries(&self, path: &str) -> Option<Vec<DirEntry>> {
        Some(
            self.children(path)?
                .into_iter()
                .map(|(name, v)| DirEntry {
                    name,
                    is_dir: v.is_none(),
                    is_file: v.is_some(),
                    is_symlink: false,
                    len: v.map(|c| c.len() as u64).unwrap_or(0),
                })
                .collect(),
        )
    }
    fn read_file(&self, path: &str) -> Result<String, IoError> {
        match self.nodes.borrow().get(&normalize(path)) {
            Some(Some(c)) => Ok(c.clone()),
            _ => Err(IoError { permission_denied: false, message: "not found".to_string() }),
        }
    }
    fn read_head(&self, path: &str, max_bytes: usize) -> Option<String> {
        match self.nodes.borrow().get(&normalize(path)) {
            Some(Some(c)) => Some(c.chars().take(max_bytes).collect()),
            _ => None,
        }
    }
    fn write_file(&self, path: &str, contents: &str) -> Result<(), IoError> {
        self.file(path, contents);
        Ok(())
    }
    fn remove_dir_all(&self, path: &str) -> Result<(), IoError> {
        let p = normalize(path);
        if !self.is_dir(&p) {
            return Err(IoError { permission_denied: false, message: "not a directory".to_string() });
        }
        let prefix = format!("{}/", p);
        self.nodes.borrow_mut().retain(|k, _| *k != p && !k.starts_with(&prefix));
        Ok(())
    }
    fn remove_file(&self, path: &str) -> Result<(), IoError> {
        let p = normalize(path);
        if !self.is_file(&p) {
            return Err(IoError { permission_denied: false, message: "not a file".to_string() });
        }
        self.nodes.borrow_mut().remove(&p);
        Ok(())
    }
    fn canonicalize(&self, path: &str) -> Option<String> {
        if self.has(path) { Some(normalize(path)) } else { None }
    }
}

/// Relative path plus contents. A trailing `/` in `path` means a directory.
struct Marker {
    path: &'static str,
    contents: &'static str,
}

impl Marker {
    const fn file(path: &'static str) -> Self {
        Self { path, contents: "" }
    }
    const fn file_with(path: &'static str, contents: &'static str) -> Self {
        Self { path, contents }
    }
    const fn dir(path: &'static str) -> Self {
        Self { path, contents: "" }
    }
}

fn seed(fs: &MemFs, markers: &[Marker]) {
    for m in markers {
        let p = format!("/t/{}", m.path.trim_end_matches('/'));
        if m.path.ends_with('/') {
            fs.dir(&p);
        } else {
            fs.file(&p, m.contents);
        }
    }
}

fn case(markers: &[Marker], expected: ProjectType) {
    let fs = MemFs::new();
    seed(&fs, markers);
    let got = classify_dir(&mut Session::new(&fs), "/t");
    assert_eq!(
        got,
        expected,
        "classify_dir mismatch for markers {:?}",
        markers.iter().map(|m| m.path).collect::<Vec<_>>()
    );
}

#[test]
fn flutter_pubspec() {
    case(&[Marker::file("pubspec.yaml")], ProjectType::Flutter);
}

#[test]
fn android_app_build_gradle_kts() {
    case(&[Marker::file("app/build.gradle.kts")], ProjectType::Android);
}

#[test]
fn ios_xcodeproj_dir() {
    case(&[Marker::dir("Foo.xcodeproj/")], ProjectType::Ios);
}

#[test]
fn node_pnpm() {
    case(&[Marker::file("package.json"), Marker::file("pnpm-lock.yaml")], ProjectType::Node { manager: NodePm::Pnpm });
}

#[test]
fn node_yarn() {
    case(&[Marker::file("package.json"), Marker::file("yarn.lock")], ProjectType::Node { manager: NodePm::Yarn });
}

#[test]
fn node_bun() {
    case(&[Marker::file("package.json"), Marker::file("bun.lockb")], ProjectType::Node { manager: NodePm::Bun });
}

#[test]
fn node_npm_with_lock() {
    case(&[Marker::file("package.json"), Marker::file("package-lock.json")], ProjectType::Node { manager: NodePm::Npm });
}

#[test]
fn node_npm_alone() {
    case(&[Marker::file("package.json")], ProjectType::Node { manager: NodePm::Npm });
}

#[test]
fn rust_cargo_toml() {
    case(&[Marker::file("Cargo.toml")], ProjectType::Rust);
}

#[test]
fn go_mod() {
    case(&[Marker::file("go.mod")], ProjectType::Go);
}

#[test]
fn ruby_gemfile_only() {
    case(&[Marker::file("Gemfile")], ProjectType::Ruby { rails: false });
}

#[test]
fn ruby_rails() {
    case(&[Marker::file("Gemfile"), Marker::file("config/application.rb")], ProjectType::Ruby { rails: true });
}

#[test]
fn python_pyproject_generic() {
    case(
        &[Marker::file_with("pyproject.toml", "[project]\nname = \"x\"\n")],
        ProjectType::Python { framework: Some(PyFw::Generic) },
    );
}

#[test]
fn python_pyproject_fastapi() {
    case(
        &[Marker::file_with("pyproject.toml", "[project]\nname = \"x\"\ndependencies = [\"fastapi\"]\n")],
        ProjectType::Python { framework: Some(PyFw::FastAPI) },
    );
}

#[test]
fn python_django() {
    case(
        &[Marker::file("manage.py"), Marker::file_with("pyproject.toml", "[project]\nname = \"x\"\n")],
        ProjectType::Python { framework: Some(PyFw::Django) },
    );
}

#[test]
fn empty_dir_is_unknown() {
    case(&[], ProjectType::Unknown);
}

#[test]
fn android_with_fastlane_gemfile() {
    case(&[Marker::file("Gemfile"), Marker::file("app/build.gradle.kts")], ProjectType::Android);
}

#[test]
fn ios_with_fastlane_gemfile() {
    case(&[Marker::file("Gemfile"), Marker::dir("Foo.xcodeproj/")], ProjectType::Ios);
}

#[test]
fn android_id_literal_in_app_gradle() {
    let fs = MemFs::new();
    seed(
        &fs,
        &[Marker::file_with(
            "app/build.gradle.kts",
            "android {\n    defaultConfig {\n        applicationId = \"com.example.app\"\n    }\n}\n",
        )],
    );
    assert_eq!(detect_android_id(&mut Session::new(&fs), "/t"), Some("com.example.app".to_string()));
}

#[test]
fn android_id_via_convention_plugin_const() {
    let fs = MemFs::new();
    seed(
        &fs,
        &[
            Marker::file_with("app/build.gradle.kts", "plugins { id(\"homeassistant.android.application\") }\n"),
            Marker::file_with(
                "build-logic/convention/src/main/kotlin/AndroidApplicationConventionPlugin.kt",
                "private const val APPLICATION_ID = \"io.homeassistant.companion.android\"\n\
                 class P { fun a() { namespace = APPLICATION_ID\n applicationId = APPLICATION_ID } }\n",
            ),
        ],
    );
    assert_eq!(detect_android_id(&mut Session::new(&fs), "/t"), Some("io.homeassistant.companion.android".to_string()));
}

#[test]
fn android_id_via_namespace_literal() {
    let fs = MemFs::new();
    seed(&fs, &[Marker::file_with("app/build.gradle.kts", "android {\n    namespace = \"com.example.ns\"\n}\n")]);
    assert_eq!(detect_android_id(&mut Session::new(&fs), "/t"), Some("com.example.ns".to_string()));
}

fn roots(projects: &[(AppInfo, String)]) -> Vec<String> {
    let base = "/t";
    projects
        .iter()
        .map(|(_, p)| match p.strip_prefix(base) {
            Some(rest) => rest.trim_start_matches('/').to_string(),
            None => p.clone(),
        })
        .collect()
}

/// Discovery as it was before the scan root deferred to its children: the
/// scan root was classified and returned at once.
fn legacy_discover_recursive(fs: &MemFs, dir: &str, depth: usize, out: &mut Vec<(AppInfo, String)>) {
    let pt = classify_dir(&mut Session::new(fs), dir);
    if pt != ProjectType::Unknown {
        out.push((build_app_info(&mut Session::new(fs), dir, &pt), dir.to_string()));
        return;
    }
    if depth >= MAX_DISCOVERY_DEPTH {
        return;
    }
    let Some(names) = fs.list_dir(dir) else {
        return;
    };
    for name in names {
        let path = format!("{}/{}", dir, name);
        if !fs.is_dir(&path) {
            continue;
        }
        if name.starts_with('.') || is_discovery_skip_dir(&name) {
            continue;
        }
        legacy_discover_recursive(fs, &path, depth + 1, out);
    }
}

fn legacy_discover_projects(fs: &MemFs, start_dir: &str) -> Vec<(AppInfo, String)> {
    let mut found: Vec<(AppInfo, String)> = Vec::new();
    legacy_discover_recursive(fs, start_dir, 0, &mut found);
    found.sort_by(|a, b| std::path::Path::new(&a.1).cmp(std::path::Path::new(&b.1)));
    found
}

fn discover(fs: &MemFs) -> Vec<(AppInfo, String)> {
    AppDetector::new().discover_projects(&mut Session::new(fs), "/t")
}

#[test]
fn discover_finds_deeply_nested_projects() {
    let fs = MemFs::new();
    seed(
        &fs,
        &[
            Marker::file("group-a/repo1/Cargo.toml"),
            Marker::file("group-a/repo2/go.mod"),
            Marker::file("group-b/nested/repo3/pubspec.yaml"),
        ],
    );
    let got = discover(&fs);
    assert_eq!(
        roots(&got),
        vec!["group-a/repo1".to_string(), "group-a/repo2".to_string(), "group-b/nested/repo3".to_string()]
    );
}

#[test]
fn discover_does_not_descend_into_found_project() {
    let fs = MemFs::new();
    seed(&fs, &[Marker::file("app/pubspec.yaml"), Marker::file("app/android/app/build.gradle.kts")]);
    let got = discover(&fs);
    assert_eq!(roots(&got), vec!["app".to_string()]);
    assert_eq!(got[0].0.project_type, ProjectType::Flutter);
}

#[test]
fn regression_home_package_json_finds_nested_repos_not_container() {
    let fs = MemFs::new();
    seed(
        &fs,
        &[
            Marker::file("package.json"),
            Marker::file("projects/open-source/cli-apps-helper/Cargo.toml"),
            Marker::file("projects/other-app/go.mod"),
        ],
    );
    let got = discover(&fs);
    let paths = roots(&got);
    assert_eq!(
        paths,
        vec!["projects/open-source/cli-apps-helper".to_string(), "projects/other-app".to_string()],
        "must discover nested repos under a container scan root"
    );
    assert!(!paths.contains(&"".to_string()), "container scan root must not be a result when children exist");
    assert_ne!(got.len(), 1, "must not collapse to a single bogus project at the scan root");
}

#[test]
fn regression_legacy_scan_root_stop_would_miss_nested_repos() {
    let fs = MemFs::new();
    seed(
        &fs,
        &[
            Marker::file("package.json"),
            Marker::file("projects/open-source/cli-apps-helper/Cargo.toml"),
            Marker::file("projects/other-app/go.mod"),
        ],
    );
    let legacy = legacy_discover_projects(&fs, "/t");
    let legacy_paths = roots(&legacy);
    assert_eq!(legacy_paths, vec!["".to_string()], "legacy behavior incorrectly reports only the container root");

    let fixed = discover(&fs);
    let fixed_paths = roots(&fixed);
    assert_ne!(fixed_paths, legacy_paths, "fixed discovery must differ from the legacy bug");
    assert_eq!(fixed_paths.len(), 2);
}

#[test]
fn discover_container_scan_root_defers_to_children_gemfile() {
    let fs = MemFs::new();
    seed(
        &fs,
        &[
            Marker::file("Gemfile"),
            Marker::file("projects/open-source/cli-apps-helper/Cargo.toml"),
            Marker::file("projects/other-app/go.mod"),
        ],
    );
    let got = discover(&fs);
    assert_eq!(
        roots(&got),
        vec!["projects/open-source/cli-apps-helper".to_string(), "projects/other-app".to_string()]
    );
}

#[test]
fn discover_container_scan_root_defers_to_children_package_json() {
    let fs = MemFs::new();
    seed(&fs, &[Marker::file("package.json"), Marker::file("projects/foo/Cargo.toml")]);
    let got = discover(&fs);
    assert_eq!(roots(&got), vec!["projects/foo".to_string()]);
}

#[test]
fn discover_scan_root_kept_when_no_children() {
    let fs = MemFs::new();
    seed(&fs, &[Marker::file("Gemfile")]);
    let got = discover(&fs);
    assert_eq!(roots(&got), vec!["".to_string()]);
    assert_eq!(got[0].0.project_type, ProjectType::Ruby { rails: false });
}

#[test]
fn discover_strong_scan_root_does_not_descend() {
    let fs = MemFs::new();
    seed(&fs, &[Marker::file("pubspec.yaml"), Marker::file("android/app/build.gradle.kts")]);
    let got = discover(&fs);
    assert_eq!(roots(&got), vec!["".to_string()]);
    assert_eq!(got[0].0.project_type, ProjectType::Flutter);
}

#[test]
fn discover_skips_macos_home_containers() {
    let fs = MemFs::new();
    seed(
        &fs,
        &[
            Marker::file("package.json"),
            Marker::file("Library/Zed/pkg/package.json"),
            Marker::file("projects/real/Cargo.toml"),
        ],
    );
    let got = discover(&fs);
    assert_eq!(roots(&got), vec!["projects/real".to_string()]);
}

#[test]
fn discover_skips_dependency_dirs() {
    let fs = MemFs::new();
    seed(
        &fs,
        &[Marker::file("node_modules/pkg/Cargo.toml"), Marker::file(".git/sub/go.mod"), Marker::file("real/Cargo.toml")],
    );
    let got = discover(&fs);
    assert_eq!(roots(&got), vec!["real".to_string()]);
}

#[test]
fn android_id_skips_build_output_dirs() {
    let fs = MemFs::new();
    seed(
        &fs,
        &[
            Marker::file_with("app/build.gradle.kts", "android {\n    namespace = \"com.example.real\"\n}\n"),
            Marker::file_with("app/build/generated/Stale.kt", "val APPLICATION_ID = \"com.example.stale\"\n"),
        ],
    );
    assert_eq!(detect_android_id(&mut Session::new(&fs), "/t"), Some("com.example.real".to_string()));
}

#[test]
fn detect_walks_up_to_the_project_root() {
    let fs = MemFs::new();
    seed(&fs, &[Marker::file("Cargo.toml"), Marker::dir("src/deep/")]);
    let (info, root) = AppDetector::new().detect_with_root(&mut Session::new(&fs), "/t/src/deep");
    assert_eq!(info.project_type, ProjectType::Rust);
    assert_eq!(root, Some("/t".to_string()));
}
