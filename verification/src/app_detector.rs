//! Detects which kind of project a directory holds, and the identifiers of
//! mobile apps, from the files in it.
use vstd::prelude::*;
use crate::models::{AppInfo, NodePm, ProjectType, PyFw};
use crate::paths::{join_path, path_components, path_join};
use crate::runner::Runner;
use crate::session::{extends, lemma_since_prefix, reads_only, since, Call, Session};
use crate::text::{
    cat, chars_of, contains, ends_with, ends_with_chars, lines, lines_of, lowercase, opt_view,
    starts_with, starts_with_chars, str_contains, str_eq, string_of, to_lowercase, trim, trim_str,
};

verus! {

/// How far up `detect_with_root` walks, and how deep gradle sources are
/// searched.
pub const MAX_LEVELS: usize = 10;
/// Maximum directory depth descended when recursively discovering projects
/// under a starting directory (e.g. a workspace folder holding many repos at
/// `~/projects/<group>/<repo>`).
pub const MAX_DISCOVERY_DEPTH: usize = 6;
/// Maximum bytes scanned when looking for `fastapi` in requirement / project
/// files.
pub const SCAN_BYTES: usize = 65536;

/// What `regex::Regex::new(pattern)` and `Regex::captures(text)` make of the
/// first capture group: `None` when the pattern does not compile, does not
/// match, or the group did not take part in the leftmost-first match.
pub uninterp spec fn regex_first_capture(pattern: Seq<char>, text: Seq<char>) -> Option<Seq<char>>;

/// Compiles `pattern` with `regex::Regex::new` and returns the text of capture
/// group 1 of the leftmost-first match in `text` (`Regex::captures`,
/// `Captures::get(1)`). The contract only names the result: it depends on the
/// pattern and the text alone.
#[verifier::external_body]
fn first_capture(pattern: &str, text: &str) -> (r: Option<String>)
    ensures
        opt_view(r) == regex_first_capture(pattern@, text@),
{
    regex::Regex::new(pattern).ok().and_then(|re| re.captures(text).and_then(|c| c.get(1)).map(|m| m.as_str().to_string()))
}

/// The characters `regex::escape` puts a backslash before.
pub open spec fn regex_meta(c: char) -> bool {
    c == '\\' || c == '.' || c == '+' || c == '*' || c == '?' || c == '(' || c == ')' || c == '|' || c == '['
        || c == ']' || c == '{' || c == '}' || c == '^' || c == '$' || c == '#' || c == '&' || c == '-' || c == '~'
}

/// `s` with a backslash before each regex meta character.
pub open spec fn regex_escaped(s: Seq<char>) -> Seq<char>
    decreases s.len(),
{
    if s.len() == 0 {
        Seq::empty()
    } else if regex_meta(s.last()) {
        regex_escaped(s.drop_last()) + seq!['\\', s.last()]
    } else {
        regex_escaped(s.drop_last()).push(s.last())
    }
}

/// `regex::escape`: `s` with a backslash before every regex meta character
/// (`regex_syntax::is_meta_character`), so that it matches itself literally.
#[verifier::external_body]
pub(crate) fn escape_regex(s: &str) -> (r: String)
    ensures
        r@ == regex_escaped(s@),
{
    regex::escape(s)
}

/// The `name` field of a `pubspec.yaml` text: the string under the key
/// `name` of the document, when the text parses.
pub open spec fn yaml_name_field(text: Seq<char>) -> Option<Seq<char>> {
    match crate::yaml::parsed_yaml(text) {
        Some(y) => crate::yaml::str_entry(y, "name"@),
        None => None,
    }
}

/// The `name` field of a `pubspec.yaml` text; see `yaml_name_field`.
fn pubspec_name(text: &str) -> (r: Option<String>)
    ensures
        opt_view(r) == yaml_name_field(text@),
{
    match crate::yaml::parse_yaml(text) {
        Some(y) => match crate::yaml::str_entry_of(&y, "name") {
            Some(n) => Some(n.to_string()),
            None => None,
        },
        None => None,
    }
}

/// Kotlin DSL: `applicationId = "com.example.app"`.
pub const KOTLIN_DSL_PATTERN: &'static str = "applicationId\\s*=\\s*\"([^\"]+)\"";
/// Groovy DSL: `applicationId 'com.example.app'`.
pub const GROOVY_DSL_PATTERN: &'static str = "applicationId\\s+'([^']+)'";
/// AndroidManifest.xml: `package="com.example.app"`.
pub const MANIFEST_PACKAGE_PATTERN: &'static str = "package=\"([^\"]+)\"";
/// project.pbxproj: `PRODUCT_BUNDLE_IDENTIFIER = com.example.app;`.
pub const BUNDLE_ID_PATTERN: &'static str = "PRODUCT_BUNDLE_IDENTIFIER\\s*=\\s*([^;]+);";
/// Indirect Kotlin DSL: `applicationId = APPLICATION_ID` (an unquoted constant).
pub const APPLICATION_ID_REF_PATTERN: &'static str = "applicationId\\s*=\\s*([A-Za-z_][A-Za-z0-9_]*)";
/// AGP namespace literal: `namespace = "com.example.app"` (Kotlin or Groovy).
pub const NAMESPACE_PATTERN: &'static str = "namespace\\s*=?\\s*[\"']([^\"']+)[\"']";

/// The files and directories of one directory that decide its project type.
#[derive(Debug, Clone, Copy, PartialEq, Eq, Structural)]
pub struct DirMarkers {
    pub pubspec: bool,
    pub gemfile: bool,
    /// `config/application.rb`
    pub rails_config: bool,
    pub manage_py: bool,
    pub pyproject: bool,
    pub requirements: bool,
    pub pipfile: bool,
    /// `pyproject.toml` mentions `fastapi` in its head (case-insensitive).
    pub pyproject_fastapi: bool,
    /// `requirements.txt` mentions `fastapi` in its head (case-insensitive).
    pub requirements_fastapi: bool,
    pub uv_lock: bool,
    pub poetry_lock: bool,
    pub package_json: bool,
    pub pnpm_lock: bool,
    pub yarn_lock: bool,
    pub bun_lockb: bool,
    pub cargo_toml: bool,
    pub go_mod: bool,
    /// `app/build.gradle.kts`
    pub app_gradle_kts: bool,
    /// `app/build.gradle`
    pub app_gradle: bool,
    /// a `*.xcodeproj` directory
    pub xcodeproj: bool,
}

/// The project type the markers give, by precedence: Flutter, Rails, Django,
/// FastAPI, Python, Node (by lock file), Rust, Go, Android, iOS, and a bare
/// Gemfile last (a weak signal: native projects often carry a fastlane one).
pub open spec fn classify_spec(m: DirMarkers) -> ProjectType {
    if m.pubspec {
        ProjectType::Flutter
    } else if m.gemfile && m.rails_config {
        ProjectType::Ruby { rails: true }
    } else if m.manage_py && (m.pyproject || m.requirements || m.pipfile) {
        ProjectType::Python { framework: Some(PyFw::Django) }
    } else if (m.pyproject && m.pyproject_fastapi) || (m.requirements && m.requirements_fastapi) {
        ProjectType::Python { framework: Some(PyFw::FastAPI) }
    } else if m.pyproject || m.requirements || m.pipfile || m.uv_lock || m.poetry_lock {
        ProjectType::Python { framework: Some(PyFw::Generic) }
    } else if m.package_json {
        ProjectType::Node {
            manager: if m.pnpm_lock {
                NodePm::Pnpm
            } else if m.yarn_lock {
                NodePm::Yarn
            } else if m.bun_lockb {
                NodePm::Bun
            } else {
                NodePm::Npm
            },
        }
    } else if m.cargo_toml {
        ProjectType::Rust
    } else if m.go_mod {
        ProjectType::Go
    } else if m.app_gradle_kts || m.app_gradle {
        ProjectType::Android
    } else if m.xcodeproj {
        ProjectType::Ios
    } else if m.gemfile {
        ProjectType::Ruby { rails: false }
    } else {
        ProjectType::Unknown
    }
}

/// Classifies a directory from its markers; see `classify_spec`.
pub fn classify_markers(m: &DirMarkers) -> (pt: ProjectType)
    ensures
        pt == classify_spec(*m),
{
    if m.pubspec {
        return ProjectType::Flutter;
    }
    if m.gemfile && m.rails_config {
        return ProjectType::Ruby { rails: true };
    }
    if m.manage_py && (m.pyproject || m.requirements || m.pipfile) {
        return ProjectType::Python { framework: Some(PyFw::Django) };
    }
    if (m.pyproject && m.pyproject_fastapi) || (m.requirements && m.requirements_fastapi) {
        return ProjectType::Python { framework: Some(PyFw::FastAPI) };
    }
    if m.pyproject || m.requirements || m.pipfile || m.uv_lock || m.poetry_lock {
        return ProjectType::Python { framework: Some(PyFw::Generic) };
    }
    if m.package_json {
        let manager = if m.pnpm_lock {
            NodePm::Pnpm
        } else if m.yarn_lock {
            NodePm::Yarn
        } else if m.bun_lockb {
            NodePm::Bun
        } else {
            NodePm::Npm
        };
        return ProjectType::Node { manager };
    }
    if m.cargo_toml {
        return ProjectType::Rust;
    }
    if m.go_mod {
        return ProjectType::Go;
    }
    if m.app_gradle_kts || m.app_gradle {
        return ProjectType::Android;
    }
    if m.xcodeproj {
        return ProjectType::Ios;
    }
    if m.gemfile {
        return ProjectType::Ruby { rails: false };
    }
    ProjectType::Unknown
}

/// A `pubspec.yaml` makes a Flutter project, whatever else the directory holds.
pub proof fn lemma_flutter_wins(m: DirMarkers)
    requires
        m.pubspec,
    ensures
        classify_spec(m) == ProjectType::Flutter,
{
}

/// The precedence of the markers, one type at a time: Rails needs both a
/// Gemfile and `config/application.rb`; Django needs `manage.py` beside a
/// Python manifest; FastAPI is named by `pyproject.toml` or by
/// `requirements.txt`; any other Python manifest or lock file makes a plain
/// Python project; a Node project's manager comes from its lock file (pnpm,
/// then Yarn, then Bun, else npm); then Rust, Go, Android, iOS and a bare
/// Gemfile, in that order; and each applies only where no earlier one does.
pub proof fn lemma_classify_precedence(m: DirMarkers)
    ensures
        !m.pubspec && m.gemfile && m.rails_config ==> classify_spec(m) == (ProjectType::Ruby { rails: true }),
        !m.pubspec && !(m.gemfile && m.rails_config) && m.manage_py && (m.pyproject || m.requirements || m.pipfile)
            ==> classify_spec(m) == (ProjectType::Python { framework: Some(PyFw::Django) }),
        !m.pubspec && !(m.gemfile && m.rails_config) && !m.manage_py && m.requirements && m.requirements_fastapi
            ==> classify_spec(m) == (ProjectType::Python { framework: Some(PyFw::FastAPI) }),
        !m.pubspec && !(m.gemfile && m.rails_config) && !m.manage_py && m.pyproject && m.pyproject_fastapi
            ==> classify_spec(m) == (ProjectType::Python { framework: Some(PyFw::FastAPI) }),
        !m.pubspec && !(m.gemfile && m.rails_config) && !m.manage_py && !m.pyproject_fastapi
            && !m.requirements_fastapi && (m.pyproject || m.requirements || m.pipfile || m.uv_lock || m.poetry_lock)
            ==> classify_spec(m) == (ProjectType::Python { framework: Some(PyFw::Generic) }),
        ({
            let no_python = !m.pyproject && !m.requirements && !m.pipfile && !m.uv_lock && !m.poetry_lock;
            let above_node = !m.pubspec && !(m.gemfile && m.rails_config) && no_python;
            &&& above_node && m.package_json && m.pnpm_lock
                ==> classify_spec(m) == (ProjectType::Node { manager: NodePm::Pnpm })
            &&& above_node && m.package_json && !m.pnpm_lock && m.yarn_lock
                ==> classify_spec(m) == (ProjectType::Node { manager: NodePm::Yarn })
            &&& above_node && m.package_json && !m.pnpm_lock && !m.yarn_lock && m.bun_lockb
                ==> classify_spec(m) == (ProjectType::Node { manager: NodePm::Bun })
            &&& above_node && m.package_json && !m.pnpm_lock && !m.yarn_lock && !m.bun_lockb
                ==> classify_spec(m) == (ProjectType::Node { manager: NodePm::Npm })
            &&& above_node && !m.package_json && m.cargo_toml ==> classify_spec(m) == ProjectType::Rust
            &&& above_node && !m.package_json && !m.cargo_toml && m.go_mod ==> classify_spec(m) == ProjectType::Go
            &&& above_node && !m.package_json && !m.cargo_toml && !m.go_mod && (m.app_gradle_kts || m.app_gradle)
                ==> classify_spec(m) == ProjectType::Android
            &&& above_node && !m.package_json && !m.cargo_toml && !m.go_mod && !m.app_gradle_kts && !m.app_gradle
                && m.xcodeproj ==> classify_spec(m) == ProjectType::Ios
            &&& above_node && !m.package_json && !m.cargo_toml && !m.go_mod && !m.app_gradle_kts && !m.app_gradle
                && !m.xcodeproj && m.gemfile ==> classify_spec(m) == (ProjectType::Ruby { rails: false })
        }),
{
}

/// A bare Gemfile is the weakest signal: a directory is classified as plain
/// Ruby only when nothing else marks it.
pub proof fn lemma_bare_gemfile_is_last(m: DirMarkers)
    requires
        classify_spec(m) == (ProjectType::Ruby { rails: false }),
    ensures
        m.gemfile,
        !m.pubspec && !m.package_json && !m.cargo_toml && !m.go_mod,
        !m.app_gradle_kts && !m.app_gradle && !m.xcodeproj,
        !m.pyproject && !m.requirements && !m.pipfile && !m.uv_lock && !m.poetry_lock,
{
}

/// A directory without any marker is not a project.
pub proof fn lemma_no_marker_is_unknown(m: DirMarkers)
    requires
        !m.pubspec && !m.gemfile && !m.manage_py && !m.pyproject && !m.requirements && !m.pipfile
            && !m.uv_lock && !m.poetry_lock && !m.package_json && !m.cargo_toml && !m.go_mod
            && !m.app_gradle_kts && !m.app_gradle && !m.xcodeproj,
    ensures
        classify_spec(m) == ProjectType::Unknown,
{
}

/// Directory names never descended into during recursive project discovery:
/// dependency/build/VCS dirs that never host a sibling project we care about
/// and only inflate the walk cost.
pub open spec fn discovery_skip_names() -> Seq<Seq<char>> {
    seq![
        "node_modules"@, "target"@, "build"@, "Pods"@, ".dart_tool"@, "DerivedData"@, "vendor"@,
        "__pycache__"@, ".venv"@, "venv"@, "env"@, ".tox"@, ".next"@, ".nuxt"@, ".turbo"@,
        "Library"@, "Applications"@, "Movies"@, "Music"@, "Pictures"@, "Public"@, "Parallels"@,
        "Caches"@, "store"@, "fvm"@, "go"@, "pkg"@, "mod"@,
    ]
}

/// Whether discovery skips a directory named `name`; see `discovery_skip_names`.
pub fn is_discovery_skip_dir(name: &str) -> (b: bool)
    ensures
        b == discovery_skip_names().contains(name@),
{
    let names = [
        "node_modules", "target", "build", "Pods", ".dart_tool", "DerivedData", "vendor",
        "__pycache__", ".venv", "venv", "env", ".tox", ".next", ".nuxt", ".turbo",
        "Library", "Applications", "Movies", "Music", "Pictures", "Public", "Parallels",
        "Caches", "store", "fvm", "go", "pkg", "mod",
    ];
    let ghost nv = names@.map_values(|s: &str| s@);
    assert(nv =~= discovery_skip_names());
    let mut i: usize = 0;
    while i < names.len()
        invariant
            i <= names@.len(),
            nv == names@.map_values(|s: &str| s@),
            nv == discovery_skip_names(),
            forall|k: int| 0 <= k < i ==> nv[k] != name@,
        decreases names.len() - i,
    {
        if str_eq(names[i], name) {
            assert(nv[i as int] == name@);
            return true;
        }
        i = i + 1;
    }
    proof {
        if nv.contains(name@) {
            let k = choose|k: int| 0 <= k < nv.len() && nv[k] == name@;
        }
    }
    false
}

/// Discovery never descends into dependency, build, virtualenv or tool
/// directories, nor into the home folders that never hold projects.
pub proof fn lemma_discovery_skips_heavy_dirs(name: Seq<char>)
    requires
        name == "node_modules"@ || name == "target"@ || name == "build"@ || name == "Pods"@
            || name == ".dart_tool"@ || name == "DerivedData"@ || name == "vendor"@ || name == "__pycache__"@
            || name == ".venv"@ || name == "venv"@ || name == "env"@ || name == ".tox"@ || name == ".next"@
            || name == ".nuxt"@ || name == ".turbo"@ || name == "Library"@ || name == "Applications"@
            || name == "Movies"@ || name == "Music"@ || name == "Pictures"@ || name == "Public"@
            || name == "Parallels"@ || name == "Caches"@ || name == "store"@ || name == "fvm"@ || name == "go"@
            || name == "pkg"@ || name == "mod"@,
    ensures
        discovery_skip_names().contains(name),
{
    let s = discovery_skip_names();
    assert(s[0] == "node_modules"@ && s[1] == "target"@ && s[2] == "build"@ && s[3] == "Pods"@);
    assert(s[4] == ".dart_tool"@ && s[5] == "DerivedData"@ && s[6] == "vendor"@ && s[7] == "__pycache__"@);
    assert(s[8] == ".venv"@ && s[9] == "venv"@ && s[10] == "env"@ && s[11] == ".tox"@);
    assert(s[12] == ".next"@ && s[13] == ".nuxt"@ && s[14] == ".turbo"@ && s[15] == "Library"@);
    assert(s[16] == "Applications"@ && s[17] == "Movies"@ && s[18] == "Music"@ && s[19] == "Pictures"@);
    assert(s[20] == "Public"@ && s[21] == "Parallels"@ && s[22] == "Caches"@ && s[23] == "store"@);
    assert(s[24] == "fvm"@ && s[25] == "go"@ && s[26] == "pkg"@ && s[27] == "mod"@);
}

/// Every Flutter platform folder (Android, iOS, web and the three desktops)
/// belongs to the Flutter app above it.
pub proof fn lemma_flutter_platforms(name: Seq<char>)
    requires
        name == "android"@ || name == "ios"@ || name == "web"@ || name == "linux"@ || name == "macos"@
            || name == "windows"@,
    ensures
        flutter_platform_names().contains(name),
{
    let s = flutter_platform_names();
    assert(s[0] == "android"@ && s[1] == "ios"@ && s[2] == "web"@);
    assert(s[3] == "linux"@ && s[4] == "macos"@ && s[5] == "windows"@);
}

/// Flutter platform subdirectories.
pub open spec fn flutter_platform_names() -> Seq<Seq<char>> {
    seq!["android"@, "ios"@, "web"@, "linux"@, "macos"@, "windows"@]
}

/// Flutter platform subdirectories are part of the parent app, not separate
/// projects — skip them when descending from a Flutter scan root.
pub fn is_flutter_platform_subdir(parent_pt: &ProjectType, child_name: &str) -> (b: bool)
    ensures
        b == (*parent_pt == ProjectType::Flutter && flutter_platform_names().contains(child_name@)),
{
    if *parent_pt != ProjectType::Flutter {
        return false;
    }
    let names = ["android", "ios", "web", "linux", "macos", "windows"];
    let ghost nv = names@.map_values(|s: &str| s@);
    assert(nv =~= flutter_platform_names());
    let mut i: usize = 0;
    while i < names.len()
        invariant
            i <= names@.len(),
            nv == names@.map_values(|s: &str| s@),
            nv == flutter_platform_names(),
            *parent_pt == ProjectType::Flutter,
            forall|k: int| 0 <= k < i ==> nv[k] != child_name@,
        decreases names.len() - i,
    {
        if str_eq(names[i], child_name) {
            assert(nv[i as int] == child_name@);
            return true;
        }
        i = i + 1;
    }
    proof {
        if nv.contains(child_name@) {
            let k = choose|k: int| 0 <= k < nv.len() && nv[k] == child_name@;
        }
    }
    false
}

/// Reader state over the lines of a `project.pbxproj`: inside a Release block,
/// the first bundle id of a Release block, the first bundle id anywhere.
pub type PbxState = (bool, Option<Seq<char>>, Option<Seq<char>>);

/// Whether a line opens a Release build configuration.
pub open spec fn release_line(line: Seq<char>) -> bool {
    contains(line, "name = Release;"@) || contains(line, "name = \"Release\";"@) || contains(line, "/* Release */"@)
}

/// Whether a line opens a Debug build configuration.
pub open spec fn debug_line(line: Seq<char>) -> bool {
    contains(line, "name = Debug;"@) || contains(line, "name = \"Debug\";"@) || contains(line, "/* Debug */"@)
}

/// One line of a `project.pbxproj`: block transitions, then a literal bundle
/// id (variable substitutions `$(...)` skipped).
pub open spec fn pbx_step(st: PbxState, line: Seq<char>) -> PbxState {
    pbx_step_with(st, line, regex_first_capture(BUNDLE_ID_PATTERN@, line))
}

/// `pbx_step` when the bundle id pattern captured `capture` in `line`.
pub open spec fn pbx_step_with(st: PbxState, line: Seq<char>, capture: Option<Seq<char>>) -> PbxState {
    let in_release = if release_line(line) { true } else if debug_line(line) { false } else { st.0 };
    match capture {
        Some(raw) => {
            let value = trim(raw);
            if starts_with(value, "$("@) {
                (in_release, st.1, st.2)
            } else {
                (
                    in_release,
                    if in_release && st.1 is None { Some(value) } else { st.1 },
                    if st.2 is None { Some(value) } else { st.2 },
                )
            }
        },
        None => (in_release, st.1, st.2),
    }
}

/// Reading one `project.pbxproj` line: `name = Release;` (or `"Release"`, or a
/// `/* Release */` comment) enters a Release block and the Debug forms leave
/// it; a captured bundle id is trimmed, a `$(...)` substitution is skipped,
/// and a literal one becomes the Release id when inside a Release block and
/// none was found yet, and the fallback id when none was found yet. An id
/// once found is never replaced.
pub proof fn lemma_pbx_line(st: PbxState, line: Seq<char>, capture: Option<Seq<char>>)
    ensures
        ({
            let r = pbx_step_with(st, line, capture);
            &&& contains(line, "name = Release;"@) || contains(line, "name = \"Release\";"@) || contains(line, "/* Release */"@) ==> r.0
            &&& !release_line(line) && (contains(line, "name = Debug;"@) || contains(line, "name = \"Debug\";"@)
                || contains(line, "/* Debug */"@)) ==> !r.0
            &&& !release_line(line) && !debug_line(line) ==> r.0 == st.0
            &&& st.1 is Some ==> r.1 == st.1
            &&& st.2 is Some ==> r.2 == st.2
            &&& capture is None ==> r.1 == st.1 && r.2 == st.2
            &&& (capture matches Some(raw) && starts_with(trim(raw), "$("@)) ==> r.1 == st.1 && r.2 == st.2
            &&& (capture is Some && !starts_with(trim(capture->0), "$("@) && st.2 is None) ==> r.2 == Some(trim(capture->0))
            &&& (capture is Some && !starts_with(trim(capture->0), "$("@) && st.1 is None && r.0) ==> r.1 == Some(trim(capture->0))
            &&& (capture is Some && !r.0) ==> r.1 == st.1
        }),
{
}

/// The bundle id of a `project.pbxproj` is its Release id when it has one,
/// else its first id.
pub proof fn lemma_pbx_prefers_release(content: Seq<char>)
    ensures
        pbx_state(lines(content)).1 is Some ==> pbx_bundle_id(content) == pbx_state(lines(content)).1,
        pbx_state(lines(content)).1 is None ==> pbx_bundle_id(content) == pbx_state(lines(content)).2,
{
}

/// The reader state after `ls`.
pub open spec fn pbx_state(ls: Seq<Seq<char>>) -> PbxState
    decreases ls.len(),
{
    if ls.len() == 0 {
        (false, None, None)
    } else {
        pbx_step(pbx_state(ls.drop_last()), ls.last())
    }
}

/// The bundle id of a `project.pbxproj`: the first one of a Release block,
/// else the first one at all.
pub open spec fn pbx_bundle_id(content: Seq<char>) -> Option<Seq<char>> {
    let st = pbx_state(lines(content));
    if st.1 is Some { st.1 } else { st.2 }
}

/// One line of a `project.pbxproj` read into the state (`in_release`, the
/// first Release bundle id, the first bundle id), given what the bundle id
/// pattern captured in it; see `pbx_step_with`.
pub fn pbx_line_step(
    in_release: bool,
    release_value: Option<String>,
    fallback_value: Option<String>,
    line: &str,
    capture: Option<String>,
) -> (r: (bool, Option<String>, Option<String>))
    ensures
        (r.0, opt_view(r.1), opt_view(r.2)) == pbx_step_with((in_release, opt_view(release_value), opt_view(fallback_value)), line@, opt_view(capture)),
{
    let mut in_release = in_release;
    let mut release_value = release_value;
    let mut fallback_value = fallback_value;
    let is_release = str_contains(line, "name = Release;") || str_contains(line, "name = \"Release\";") || str_contains(line, "/* Release */");
    let is_debug = str_contains(line, "name = Debug;") || str_contains(line, "name = \"Debug\";") || str_contains(line, "/* Debug */");
    if is_release {
        in_release = true;
    } else if is_debug {
        in_release = false;
    }
    if let Some(raw) = capture {
        let value = trim_str(raw.as_str());
        let vc = chars_of(value.as_str());
        let dollar = chars_of("$(");
        if !starts_with_chars(vc.as_slice(), dollar.as_slice()) {
            if in_release && release_value.is_none() {
                release_value = Some(value.clone());
            }
            if fallback_value.is_none() {
                fallback_value = Some(value);
            }
        }
    }
    (in_release, release_value, fallback_value)
}

/// Reads the bundle id from a `project.pbxproj`; see `pbx_bundle_id`.
pub fn parse_bundle_id_from_pbxproj(content: &str) -> (r: Option<String>)
    ensures
        opt_view(r) == pbx_bundle_id(content@),
{
    let v = chars_of(content);
    let ls = lines_of(v.as_slice());
    let ghost lv = ls.deep_view();
    let mut in_release = false;
    let mut release_value: Option<String> = None;
    let mut fallback_value: Option<String> = None;
    let mut i: usize = 0;
    while i < ls.len()
        invariant
            i <= ls@.len(),
            lv == ls.deep_view(),
            lv == lines(content@),
            (in_release, opt_view(release_value), opt_view(fallback_value)) == pbx_state(lv.take(i as int)),
        decreases ls.len() - i,
    {
        assert(lv.take(i + 1).drop_last() =~= lv.take(i as int));
        assert(lv[i as int] == ls@[i as int]@);
        let line = string_of(ls[i].as_slice());
        let l = line.as_str();
        let capture = first_capture(BUNDLE_ID_PATTERN, l);
        let (r0, r1, r2) = pbx_line_step(in_release, release_value, fallback_value, l, capture);
        in_release = r0;
        release_value = r1;
        fallback_value = r2;
        i = i + 1;
    }
    assert(lv.take(ls@.len() as int) =~= lv);
    if release_value.is_some() {
        release_value
    } else {
        fallback_value
    }
}


/// A probe whether `dir/name` exists, answered `b`.
pub open spec fn exists_probe(dir: Seq<char>, name: Seq<char>, b: bool) -> Call {
    Call::PathExists { path: path_join(dir, name), reply: b }
}

/// Whether `dir/rel` exists.
fn exists_in<R: Runner>(runner: &mut Session<R>, dir: &str, rel: &str) -> (b: bool)
    ensures
        reads_only(old(runner).calls(), final(runner).calls()),
        final(runner).calls() == old(runner).calls().push(exists_probe(dir@, rel@, b)),
{
    let p = join_path(dir, rel);
    runner.path_exists(p.as_str())
}

/// The answer of a file-head read (`None` for any other request).
pub open spec fn head_reply(c: Call) -> Option<Seq<char>> {
    match c {
        Call::ReadHead { reply, .. } => reply,
        _ => None,
    }
}

/// Reads the first `SCAN_BYTES` of `path` and tells whether `needle` (already
/// lowercase) occurs in them, case-insensitively. False when unreadable.
pub fn file_head_contains_ci<R: Runner>(runner: &mut Session<R>, path: &str, needle: &str) -> (b: bool)
    ensures
        reads_only(old(runner).calls(), final(runner).calls()),
        final(runner).calls() == old(runner).calls().push(
            Call::ReadHead { path: path@, max: SCAN_BYTES, reply: head_reply(final(runner).calls().last()) },
        ),
        b == head_mentions(head_reply(final(runner).calls().last()), needle@),
{
    match runner.read_head(path, SCAN_BYTES) {
        Some(text) => {
            let low = to_lowercase(text.as_str());
            let b = str_contains(low.as_str(), needle);
            assert(b == head_mentions(Some(text@), needle@));
            b
        },
        None => {
            assert(false == head_mentions(None, needle@));
            false
        },
    }
}

/// A file head, when it could be read, mentions `needle` once lowercased.
pub open spec fn head_mentions(head: Option<Seq<char>>, needle: Seq<char>) -> bool {
    match head {
        Some(h) => contains(lowercase(h), needle),
        None => false,
    }
}

/// `name` is a `*.xcodeproj` name.
pub open spec fn xcodeproj_name(name: Seq<char>) -> bool {
    crate::paths::name_extension(name) == Some("xcodeproj"@)
}

/// The directory probes `x` of the scan of `dir`'s entries `names`, in order,
/// until one is a `*.xcodeproj` directory (`found`) or none is left.
pub open spec fn xcode_scan(dir: Seq<char>, names: Seq<Seq<char>>, x: Seq<Call>, found: bool) -> bool
    decreases names.len(),
{
    if names.len() == 0 {
        x.len() == 0 && !found
    } else {
        &&& x.len() >= 1
        &&& match x[0] {
            Call::IsDir { path, reply } => path == path_join(dir, names[0]) && if reply && xcodeproj_name(names[0]) {
                x.len() == 1 && found
            } else {
                xcode_scan(dir, names.drop_first(), x.drop_first(), found)
            },
            _ => false,
        }
    }
}

/// What `dir_has_xcodeproj` asks (`x`) and answers (`found`): the listing of
/// `dir`, then `xcode_scan` of its entries; false when it cannot be listed.
pub open spec fn xcode_trace(dir: Seq<char>, x: Seq<Call>, found: bool) -> bool {
    &&& x.len() >= 1
    &&& match x[0] {
        Call::ListDir { path, reply } => path == dir && match reply {
            None => x.len() == 1 && !found,
            Some(names) => xcode_scan(dir, names, x.drop_first(), found),
        },
        _ => false,
    }
}

/// True if `dir` directly contains a `*.xcodeproj` directory.
pub fn dir_has_xcodeproj<R: Runner>(runner: &mut Session<R>, dir: &str) -> (found: bool)
    ensures
        reads_only(old(runner).calls(), final(runner).calls()),
        extends(old(runner).calls(), final(runner).calls()),
        xcode_trace(dir@, since(old(runner).calls(), final(runner).calls()), found),
{
    let ghost start = runner.calls();
    let names = match runner.list_dir(dir) {
        Some(n) => n,
        None => {
            assert(since(start, runner.calls()) =~= seq![Call::ListDir { path: dir@, reply: None }]);
            return false;
        },
    };
    let ghost nv = crate::paths::string_views(names@);
    let ghost mid = runner.calls();
    let ghost mut done: Seq<Call> = Seq::empty();
    assert(since(start, mid) =~= seq![Call::ListDir { path: dir@, reply: Some(nv) }]);
    assert forall|rest: Seq<Call>, b: bool| xcode_scan(dir@, nv.skip(0), rest, b) implies xcode_scan(dir@, nv, done + rest, b) by {
        assert(nv.skip(0) =~= nv);
        assert(done + rest =~= rest);
    }
    let mut i: usize = 0;
    while i < names.len()
        invariant
            reads_only(old(runner).calls(), runner.calls()),
            i <= names@.len(),
            nv == crate::paths::string_views(names@),
            start == old(runner).calls(),
            start.len() + 1 == mid.len(),
            extends(start, mid),
            since(start, mid) == seq![Call::ListDir { path: dir@, reply: Some(nv) }],
            runner.calls() == mid + done,
            forall|rest: Seq<Call>, b: bool| xcode_scan(dir@, nv.skip(i as int), rest, b) ==> xcode_scan(dir@, nv, done + rest, b),
        decreases names.len() - i,
    {
        let path = join_path(dir, names[i].as_str());
        let r = runner.is_dir(path.as_str());
        let ghost c = Call::IsDir { path: path@, reply: r };
        let ghost old_done = done;
        proof {
            done = done.push(c);
        }
        assert(nv[i as int] == names@[i as int]@);
        assert(nv.skip(i as int)[0] == nv[i as int]);
        assert(nv.skip(i as int).drop_first() =~= nv.skip(i + 1));
        let mut hit = false;
        if r {
            if let Some(ext) = crate::paths::extension_of(names[i].as_str()) {
                if str_eq(ext.as_str(), "xcodeproj") {
                    hit = true;
                }
            }
        }
        assert(hit == (r && xcodeproj_name(nv[i as int])));
        if hit {
            proof {
                assert(runner.calls() =~= mid + done);
                assert(xcode_scan(dir@, nv.skip(i as int), seq![c], true));
                assert(old_done + seq![c] =~= done);
                assert(xcode_scan(dir@, nv, done, true));
                assert(since(start, runner.calls()) =~= seq![Call::ListDir { path: dir@, reply: Some(nv) }] + done);
                assert((seq![Call::ListDir { path: dir@, reply: Some(nv) }] + done).drop_first() =~= done);
                assert(extends(start, runner.calls()));
                assert(xcode_trace(dir@, since(start, runner.calls()), true));
            }
            return true;
        }
        assert(runner.calls() =~= mid + done);
        assert forall|rest: Seq<Call>, b: bool| xcode_scan(dir@, nv.skip(i + 1), rest, b) implies xcode_scan(dir@, nv, done + rest, b) by {
            let x = seq![c] + rest;
            assert(x.drop_first() =~= rest);
            assert(x[0] == c);
            assert(xcode_scan(dir@, nv.skip(i as int), x, b));
            assert(old_done + x =~= done + rest);
        }
        i = i + 1;
    }
    proof {
        assert(nv.skip(i as int) =~= Seq::<Seq<char>>::empty());
        assert(xcode_scan(dir@, nv.skip(i as int), Seq::<Call>::empty(), false));
        assert(done + Seq::<Call>::empty() =~= done);
        assert(since(start, runner.calls()) =~= seq![Call::ListDir { path: dir@, reply: Some(nv) }] + done);
        assert((seq![Call::ListDir { path: dir@, reply: Some(nv) }] + done).drop_first() =~= done);
    }
    false
}

/// The first existence probes of `classify_dir` with their answers `r`:
/// `pyproject.toml`, `requirements.txt`, `pubspec.yaml`, `Gemfile`,
/// `config/application.rb`, `manage.py`, `Pipfile`.
pub open spec fn first_probes(dir: Seq<char>, r: (bool, bool, bool, bool, bool, bool, bool)) -> Seq<Call> {
    seq![
        exists_probe(dir, "pyproject.toml"@, r.0),
        exists_probe(dir, "requirements.txt"@, r.1),
        exists_probe(dir, "pubspec.yaml"@, r.2),
        exists_probe(dir, "Gemfile"@, r.3),
        exists_probe(path_join(dir, "config"@), "application.rb"@, r.4),
        exists_probe(dir, "manage.py"@, r.5),
        exists_probe(dir, "Pipfile"@, r.6),
    ]
}

/// The lock-file and build-file probes of `classify_dir` with their answers
/// `r`: `uv.lock`, `poetry.lock`, `package.json`, `pnpm-lock.yaml`,
/// `yarn.lock`, `bun.lockb`, `Cargo.toml`, `go.mod`, `app/build.gradle.kts`,
/// `app/build.gradle`.
pub open spec fn lock_probes(dir: Seq<char>, r: (bool, bool, bool, bool, bool, bool, bool, bool, bool, bool)) -> Seq<Call> {
    seq![
        exists_probe(dir, "uv.lock"@, r.0),
        exists_probe(dir, "poetry.lock"@, r.1),
        exists_probe(dir, "package.json"@, r.2),
        exists_probe(dir, "pnpm-lock.yaml"@, r.3),
        exists_probe(dir, "yarn.lock"@, r.4),
        exists_probe(dir, "bun.lockb"@, r.5),
        exists_probe(dir, "Cargo.toml"@, r.6),
        exists_probe(dir, "go.mod"@, r.7),
        exists_probe(path_join(dir, "app"@), "build.gradle.kts"@, r.8),
        exists_probe(path_join(dir, "app"@), "build.gradle"@, r.9),
    ]
}

/// The head reads of `classify_dir`: `pyproject.toml`'s when it exists
/// (`h1`), then `requirements.txt`'s when it exists (`h2`).
pub open spec fn head_probes(dir: Seq<char>, py: bool, req: bool, h1: Option<Seq<char>>, h2: Option<Seq<char>>) -> Seq<Call> {
    let heads1: Seq<Call> = if py {
        seq![Call::ReadHead { path: path_join(dir, "pyproject.toml"@), max: SCAN_BYTES, reply: h1 }]
    } else {
        Seq::empty()
    };
    let heads2: Seq<Call> = if req {
        seq![Call::ReadHead { path: path_join(dir, "requirements.txt"@), max: SCAN_BYTES, reply: h2 }]
    } else {
        Seq::empty()
    };
    heads1 + heads2
}

/// The requests `classify_dir` makes of `dir` when its markers are `m`, the
/// heads read are `h1`, `h2` and the `*.xcodeproj` scan made `x`:
/// `first_probes`, `head_probes`, `lock_probes`, then the scan.
pub open spec fn marker_probes(
    dir: Seq<char>,
    m: DirMarkers,
    h1: Option<Seq<char>>,
    h2: Option<Seq<char>>,
    x: Seq<Call>,
) -> Seq<Call> {
    first_probes(dir, (m.pyproject, m.requirements, m.pubspec, m.gemfile, m.rails_config, m.manage_py, m.pipfile))
        + head_probes(dir, m.pyproject, m.requirements, h1, h2)
        + lock_probes(
        dir,
        (m.uv_lock, m.poetry_lock, m.package_json, m.pnpm_lock, m.yarn_lock, m.bun_lockb, m.cargo_toml, m.go_mod, m.app_gradle_kts, m.app_gradle),
    ) + x
}

/// What `classify_dir` asks about `dir` (`t`) and answers (`pt`): the
/// requests of `marker_probes`, each marker being the answer to its own probe
/// (a FastAPI marker: the file exists and its head mentions `fastapi`), and
/// `pt` the type `classify_spec` gives for those markers.
pub open spec fn classify_trace(dir: Seq<char>, t: Seq<Call>, pt: ProjectType) -> bool {
    exists|m: DirMarkers, h1: Option<Seq<char>>, h2: Option<Seq<char>>, x: Seq<Call>|
        #[trigger] marker_probes(dir, m, h1, h2, x) == t
        && m.pyproject_fastapi == (m.pyproject && head_mentions(h1, "fastapi"@))
        && m.requirements_fastapi == (m.requirements && head_mentions(h2, "fastapi"@))
        && xcode_trace(dir, x, m.xcodeproj)
        && pt == classify_spec(m)
}

/// The first seven probes of `classify_dir`; see `first_probes`.
fn probe_first<R: Runner>(runner: &mut Session<R>, dir: &str) -> (r: (bool, bool, bool, bool, bool, bool, bool))
    ensures
        reads_only(old(runner).calls(), final(runner).calls()),
        final(runner).calls() == old(runner).calls() + first_probes(dir@, r),
{
    let ghost start = runner.calls();
    let config = join_path(dir, "config");
    let a = exists_in(runner, dir, "pyproject.toml");
    let b = exists_in(runner, dir, "requirements.txt");
    let c = exists_in(runner, dir, "pubspec.yaml");
    let d = exists_in(runner, dir, "Gemfile");
    let e = exists_in(runner, config.as_str(), "application.rb");
    let f = exists_in(runner, dir, "manage.py");
    let g = exists_in(runner, dir, "Pipfile");
    assert(runner.calls() =~= start + first_probes(dir@, (a, b, c, d, e, f, g)));
    (a, b, c, d, e, f, g)
}

/// The ten lock-file and build-file probes of `classify_dir`; see `lock_probes`.
fn probe_locks<R: Runner>(runner: &mut Session<R>, dir: &str) -> (r: (bool, bool, bool, bool, bool, bool, bool, bool, bool, bool))
    ensures
        reads_only(old(runner).calls(), final(runner).calls()),
        final(runner).calls() == old(runner).calls() + lock_probes(dir@, r),
{
    let ghost start = runner.calls();
    let app = join_path(dir, "app");
    let a = exists_in(runner, dir, "uv.lock");
    let b = exists_in(runner, dir, "poetry.lock");
    let c = exists_in(runner, dir, "package.json");
    let d = exists_in(runner, dir, "pnpm-lock.yaml");
    let e = exists_in(runner, dir, "yarn.lock");
    let f = exists_in(runner, dir, "bun.lockb");
    let g = exists_in(runner, dir, "Cargo.toml");
    let h = exists_in(runner, dir, "go.mod");
    let i = exists_in(runner, app.as_str(), "build.gradle.kts");
    let j = exists_in(runner, app.as_str(), "build.gradle");
    assert(runner.calls() =~= start + lock_probes(dir@, (a, b, c, d, e, f, g, h, i, j)));
    (a, b, c, d, e, f, g, h, i, j)
}

/// Classify a single directory by checking anchor files in the documented
/// precedence order (see `classify_spec` and `classify_trace`).
pub fn classify_dir<R: Runner>(runner: &mut Session<R>, dir: &str) -> (pt: ProjectType)
    ensures
        reads_only(old(runner).calls(), final(runner).calls()),
        extends(old(runner).calls(), final(runner).calls()),
        classify_trace(dir@, since(old(runner).calls(), final(runner).calls()), pt),
{
    let ghost start = runner.calls();
    let first = probe_first(runner, dir);
    let ghost after_first = runner.calls();
    let pyproject = join_path(dir, "pyproject.toml");
    let requirements = join_path(dir, "requirements.txt");
    let ghost mut h1: Option<Seq<char>> = None;
    let pyproject_fastapi = if first.0 {
        let b = file_head_contains_ci(runner, pyproject.as_str(), "fastapi");
        proof {
            h1 = head_reply(runner.calls().last());
        }
        b
    } else {
        false
    };
    let ghost mut h2: Option<Seq<char>> = None;
    let ghost after_h1 = runner.calls();
    let requirements_fastapi = if first.1 {
        let b = file_head_contains_ci(runner, requirements.as_str(), "fastapi");
        proof {
            h2 = head_reply(runner.calls().last());
        }
        b
    } else {
        false
    };
    let ghost after_heads = runner.calls();
    let locks = probe_locks(runner, dir);
    let ghost before_x = runner.calls();
    let xcodeproj = dir_has_xcodeproj(runner, dir);
    let m = DirMarkers {
        pubspec: first.2,
        gemfile: first.3,
        rails_config: first.4,
        manage_py: first.5,
        pyproject: first.0,
        requirements: first.1,
        pipfile: first.6,
        pyproject_fastapi,
        requirements_fastapi,
        uv_lock: locks.0,
        poetry_lock: locks.1,
        package_json: locks.2,
        pnpm_lock: locks.3,
        yarn_lock: locks.4,
        bun_lockb: locks.5,
        cargo_toml: locks.6,
        go_mod: locks.7,
        app_gradle_kts: locks.8,
        app_gradle: locks.9,
        xcodeproj,
    };
    proof {
        let hp = head_probes(dir@, m.pyproject, m.requirements, h1, h2);
        if m.pyproject {
            if m.requirements {
                assert(after_heads =~= after_first + hp);
            } else {
                assert(after_heads =~= after_first + hp);
            }
        } else {
            if m.requirements {
                assert(after_heads =~= after_first + hp);
            } else {
                assert(after_heads =~= after_first + hp);
            }
        }
        lemma_marker_log(dir@, m, h1, h2, start, after_first, after_heads, before_x, runner.calls());
    }
    let pt = classify_markers(&m);
    assert(classify_trace(dir@, since(start, runner.calls()), pt)) by {
        let x = since(before_x, runner.calls());
        assert(marker_probes(dir@, m, h1, h2, x) == since(start, runner.calls()));
    }
    pt
}

proof fn lemma_marker_log(
    dir: Seq<char>,
    m: DirMarkers,
    h1: Option<Seq<char>>,
    h2: Option<Seq<char>>,
    start: Seq<Call>,
    after_first: Seq<Call>,
    after_heads: Seq<Call>,
    before_x: Seq<Call>,
    end: Seq<Call>,
)
    requires
        after_first == start + first_probes(dir, (m.pyproject, m.requirements, m.pubspec, m.gemfile, m.rails_config, m.manage_py, m.pipfile)),
        after_heads == after_first + head_probes(dir, m.pyproject, m.requirements, h1, h2),
        before_x == after_heads + lock_probes(
            dir,
            (m.uv_lock, m.poetry_lock, m.package_json, m.pnpm_lock, m.yarn_lock, m.bun_lockb, m.cargo_toml, m.go_mod, m.app_gradle_kts, m.app_gradle),
        ),
        extends(before_x, end),
    ensures
        extends(start, end),
        since(start, end) == marker_probes(dir, m, h1, h2, since(before_x, end)),
{
    let x = since(before_x, end);
    assert(end =~= before_x + x);
    assert(since(start, end) =~= marker_probes(dir, m, h1, h2, x));
}

/// The requests `t` are the one read of the `pubspec.yaml` at `root`, and
/// `name` is the `name` field of the text read (`None` when the read failed).
pub open spec fn pubspec_read(root: Seq<char>, t: Seq<Call>, name: Option<Seq<char>>) -> bool {
    &&& t.len() == 1
    &&& t[0] matches Call::ReadFile { path, reply } && path == path_join(root, "pubspec.yaml"@) && name == match reply {
        Ok(x) => yaml_name_field(x),
        Err(_) => None,
    }
}

/// The `name` of the `pubspec.yaml` at `root`.
pub fn read_flutter_name<R: Runner>(runner: &mut Session<R>, root: &str) -> (r: Option<String>)
    ensures
        reads_only(old(runner).calls(), final(runner).calls()),
        r matches Some(n) ==> exists|text: Seq<char>| Some(n@) == #[trigger] yaml_name_field(text),
        pubspec_read(root@, since(old(runner).calls(), final(runner).calls()), opt_view(r)),
{
    let path = join_path(root, "pubspec.yaml");
    let read = runner.read_file(path.as_str());
    assert(since(old(runner).calls(), runner.calls()) =~= seq![Call::ReadFile { path: path@, reply: crate::session::read_reply(read) }]);
    match read {
        Ok(content) => pubspec_name(content.as_str()),
        Err(_) => None,
    }
}

/// The pattern of a literal application id in Kotlin or Groovy DSL.
pub open spec fn gradle_pattern(is_kts: bool) -> Seq<char> {
    if is_kts { KOTLIN_DSL_PATTERN@ } else { GROOVY_DSL_PATTERN@ }
}

/// What the read request `c` of the gradle file `path` gave: the id the
/// pattern captured in the text read, `None` when it captured nothing or the
/// file could not be read. `None` at the outer level when `c` is no such
/// request.
pub open spec fn gradle_read(path: Seq<char>, is_kts: bool, c: Call) -> Option<Option<Seq<char>>> {
    match c {
        Call::ReadFile { path: p, reply } => if p == path {
            Some(match reply {
                Ok(x) => regex_first_capture(gradle_pattern(is_kts), x),
                Err(_) => None,
            })
        } else {
            None
        },
        _ => None,
    }
}

/// The requests `t` begin with the probe of the gradle file `path`: whether it
/// exists and, when it does, its content. The result is how many requests
/// the probe took and the id it found.
pub open spec fn gradle_probe(path: Seq<char>, is_kts: bool, t: Seq<Call>) -> Option<(int, Option<Seq<char>>)> {
    if t.len() == 0 {
        None
    } else {
        match t[0] {
            Call::PathExists { path: p, reply: e } => if p != path {
                None
            } else if !e {
                Some((1, None))
            } else if t.len() >= 2 && gradle_read(path, is_kts, t[1]) is Some {
                Some((2, gradle_read(path, is_kts, t[1])->0))
            } else {
                None
            },
            _ => None,
        }
    }
}

/// The literal id search in `android_root`, recorded as exactly `t`, found
/// `lit`: `app/build.gradle.kts` is probed first and its literal id, when
/// there is one, is the result; otherwise `app/build.gradle` is probed and its
/// literal id, or none, is the result.
pub open spec fn gradle_literal(android_root: Seq<char>, t: Seq<Call>, lit: Option<Seq<char>>) -> bool {
    let kts = path_join_all(android_root, seq!["app"@, "build.gradle.kts"@]);
    let groovy = path_join_all(android_root, seq!["app"@, "build.gradle"@]);
    &&& gradle_probe(kts, true, t) is Some
    &&& if gradle_probe(kts, true, t).unwrap().1 is Some {
        gradle_probe(kts, true, t).unwrap().0 == t.len() && lit == gradle_probe(kts, true, t).unwrap().1
    } else {
        let rest = t.skip(gradle_probe(kts, true, t).unwrap().0);
        &&& gradle_probe(groovy, false, rest) is Some
        &&& gradle_probe(kts, true, t).unwrap().0 + gradle_probe(groovy, false, rest).unwrap().0 == t.len()
        &&& lit == gradle_probe(groovy, false, rest).unwrap().1
    }
}

/// The Android id search in `android_root` as recorded in `t` with result
/// `r`: it begins with the literal search of `gradle_literal`; a literal id
/// found there is the result and ends the search.
pub open spec fn android_id_search(android_root: Seq<char>, t: Seq<Call>, r: Option<Seq<char>>) -> bool {
    exists|k: int, lit: Option<Seq<char>>|
        0 <= k <= t.len() && #[trigger] gradle_literal(android_root, t.take(k), lit) && (lit is Some ==> r == lit && k == t.len())
}

/// The application id a gradle build file declares literally: Kotlin DSL
/// (`applicationId = "..."`) or Groovy DSL (`applicationId '...'`).
pub fn extract_application_id_from_gradle<R: Runner>(runner: &mut Session<R>, path: &str, is_kts: bool) -> (r: Option<String>)
    ensures
        reads_only(old(runner).calls(), final(runner).calls()),
        r matches Some(id) ==> exists|text: Seq<char>|
            Some(id@) == #[trigger] regex_first_capture(gradle_pattern(is_kts), text),
        since(old(runner).calls(), final(runner).calls()).len() == 1,
        gradle_read(path@, is_kts, since(old(runner).calls(), final(runner).calls())[0]) == Some(opt_view(r)),
{
    let content = match runner.read_file(path) {
        Ok(c) => c,
        Err(_) => return None,
    };
    let r = if is_kts {
        first_capture(KOTLIN_DSL_PATTERN, content.as_str())
    } else {
        first_capture(GROOVY_DSL_PATTERN, content.as_str())
    };
    assert(opt_view(r) == regex_first_capture(gradle_pattern(is_kts), content@));
    r
}

/// The legacy `package="..."` of an `AndroidManifest.xml`.
pub fn extract_package_from_manifest<R: Runner>(runner: &mut Session<R>, path: &str) -> (r: Option<String>)
    ensures
        reads_only(old(runner).calls(), final(runner).calls()),
        r matches Some(id) ==> exists|text: Seq<char>| Some(id@) == #[trigger] regex_first_capture(MANIFEST_PACKAGE_PATTERN@, text),
        since(old(runner).calls(), final(runner).calls()).len() == 1,
        since(old(runner).calls(), final(runner).calls())[0] is ReadFile,
        since(old(runner).calls(), final(runner).calls())[0]->ReadFile_path == path@,
        opt_view(r) == read_capture(MANIFEST_PACKAGE_PATTERN@, since(old(runner).calls(), final(runner).calls())[0]->ReadFile_reply),
{
    let read = runner.read_file(path);
    assert(since(old(runner).calls(), runner.calls())[0] == runner.calls().last());
    let content = match read {
        Ok(c) => c,
        Err(_) => return None,
    };
    first_capture(MANIFEST_PACKAGE_PATTERN, content.as_str())
}

/// Whether a file name is a gradle or Kotlin source.
pub open spec fn gradle_kotlin_name(name: Seq<char>) -> bool {
    ends_with(name, ".gradle.kts"@) || ends_with(name, ".gradle"@) || ends_with(name, ".kt"@)
}

/// `p` is a directory joined with a gradle or Kotlin source name.
pub open spec fn gradle_kotlin_path(p: Seq<char>) -> bool {
    exists|d: Seq<char>, n: Seq<char>| gradle_kotlin_name(n) && p == #[trigger] path_join(d, n)
}

/// The collection of gradle and Kotlin sources under `dir`, `depth` levels
/// below where it began, recorded as exactly `t`, found `files` in order:
/// past `MAX_LEVELS` nothing; otherwise `dir` is listed and each name looked
/// at in turn (`gradle_entry`).
pub open spec fn gradle_walk(dir: Seq<char>, depth: int, t: Seq<Call>, files: Seq<Seq<char>>) -> bool
    decreases MAX_LEVELS + 1 - depth, 1int,
{
    if depth > MAX_LEVELS || depth < 0 {
        t.len() == 0 && files.len() == 0
    } else if t.len() == 0 {
        false
    } else {
        match t[0] {
            Call::ListDir { path, reply } => path == dir && match reply {
                None => t.len() == 1 && files.len() == 0,
                Some(names) => exists|chunks: Seq<Seq<Call>>, outs: Seq<Seq<Seq<char>>>|
                    #![trigger chunks.flatten(), outs.flatten()]
                    chunks.len() == names.len() && outs.len() == names.len()
                    && t.skip(1) == chunks.flatten() && files == outs.flatten()
                    && forall|k: int| 0 <= k < names.len() ==> gradle_entry(dir, depth, names[k], #[trigger] chunks[k], outs[k]),
            },
            _ => false,
        }
    }
}

/// One name of `dir` looked at (`t`, finding `files`): a directory other than
/// `build` is searched one level down; a file is kept when it is a gradle or
/// Kotlin source.
pub open spec fn gradle_entry(dir: Seq<char>, depth: int, name: Seq<char>, t: Seq<Call>, files: Seq<Seq<char>>) -> bool
    decreases MAX_LEVELS + 1 - depth, 0int,
{
    let path = path_join(dir, name);
    if depth > MAX_LEVELS || depth < 0 || t.len() == 0 {
        false
    } else {
        match t[0] {
            Call::IsDir { path: p, reply: d } => p == path && if d {
                if name != "build"@ {
                    gradle_walk(path, depth + 1, t.skip(1), files)
                } else {
                    t.len() == 1 && files.len() == 0
                }
            } else {
                t.len() == 1 && files == (if gradle_kotlin_name(name) { seq![path] } else { Seq::empty() })
            },
            _ => false,
        }
    }
}

/// Collects the `*.gradle`, `*.gradle.kts` and `*.kt` files under `dir`,
/// skipping `build` output directories; at most `MAX_LEVELS` levels deep.
pub fn collect_gradle_kotlin_files<R: Runner>(runner: &mut Session<R>, dir: &str, depth: usize, out: &mut Vec<String>)
    ensures
        reads_only(old(runner).calls(), final(runner).calls()),
        final(out)@.len() >= old(out)@.len(),
        forall|i: int| 0 <= i < old(out)@.len() ==> final(out)@[i] == old(out)@[i],
        forall|i: int| old(out)@.len() <= i < final(out)@.len() ==> gradle_kotlin_path(#[trigger] final(out)@[i]@),
        gradle_walk(dir@, depth as int, since(old(runner).calls(), final(runner).calls()), crate::paths::string_views(final(out)@).skip(old(out)@.len() as int)),
    decreases MAX_LEVELS + 1 - depth,
{
    let ghost begin = runner.calls();
    let ghost o0 = crate::paths::string_views(out@);
    if depth > MAX_LEVELS {
        assert(crate::paths::string_views(out@).skip(o0.len() as int) =~= Seq::<Seq<char>>::empty());
        return;
    }
    let listing = runner.list_dir(dir);
    let ghost after_list = runner.calls();
    proof { assert(since(begin, after_list)[0] == after_list.last()); }
    let names = match listing {
        Some(n) => n,
        None => {
            assert(crate::paths::string_views(out@).skip(o0.len() as int) =~= Seq::<Seq<char>>::empty());
            return;
        },
    };
    let ghost nv = crate::paths::string_views(names@);
    let ghost start = out@;
    let ghost mut chunks: Seq<Seq<Call>> = Seq::empty();
    let ghost mut outs: Seq<Seq<Seq<char>>> = Seq::empty();
    proof {
        assert(since(after_list, runner.calls()) =~= chunks.flatten());
        assert(crate::paths::string_views(out@).skip(o0.len() as int) =~= outs.flatten());
    }
    let mut i: usize = 0;
    while i < names.len()
        invariant
            reads_only(old(runner).calls(), runner.calls()),
            depth <= MAX_LEVELS,
            begin == old(runner).calls(),
            o0 == crate::paths::string_views(old(out)@),
            start == old(out)@,
            extends(begin, after_list),
            extends(after_list, runner.calls()),
            since(begin, after_list).len() == 1,
            since(begin, after_list)[0] == (Call::ListDir { path: dir@, reply: Some(nv) }),
            nv == crate::paths::string_views(names@),
            i <= names@.len(),
            out@.len() >= start.len(),
            forall|k: int| 0 <= k < start.len() ==> out@[k] == start[k],
            forall|k: int| start.len() <= k < out@.len() ==> gradle_kotlin_path(#[trigger] out@[k]@),
            chunks.len() == i,
            outs.len() == i,
            since(after_list, runner.calls()) == chunks.flatten(),
            crate::paths::string_views(out@).skip(o0.len() as int) == outs.flatten(),
            forall|k: int| 0 <= k < i ==> gradle_entry(dir@, depth as int, nv[k], #[trigger] chunks[k], outs[k]),
        decreases names.len() - i,
    {
        let ghost before = runner.calls();
        let ghost ob = crate::paths::string_views(out@);
        let name = names[i].as_str();
        assert(nv[i as int] == name@);
        let path = join_path(dir, name);
        let is_dir = runner.is_dir(path.as_str());
        let ghost probed = runner.calls();
        proof { assert(since(before, probed)[0] == probed.last()); }
        if is_dir {
            if !str_eq(name, "build") {
                let ghost mid = out@;
                collect_gradle_kotlin_files(runner, path.as_str(), depth + 1, out);
                assert forall|k: int| start.len() <= k < out@.len() implies gradle_kotlin_path(#[trigger] out@[k]@) by {
                    if k < mid.len() {
                        assert(out@[k] == mid[k]);
                    }
                }
                proof {
                    lemma_since_prefix(before, probed, runner.calls());
                    assert(since(before, runner.calls()).skip(1) =~= since(probed, runner.calls()));
                    assert(since(before, runner.calls())[0] == since(before, probed)[0]);
                    assert(ob.len() == mid.len());
                    assert(gradle_entry(dir@, depth as int, nv[i as int], since(before, runner.calls()), crate::paths::string_views(out@).skip(ob.len() as int)));
                }
            } else {
                proof {
                    assert(name@ == "build"@);
                    assert(crate::paths::string_views(out@).skip(ob.len() as int) =~= Seq::<Seq<char>>::empty());
                    assert(gradle_entry(dir@, depth as int, nv[i as int], since(before, runner.calls()), crate::paths::string_views(out@).skip(ob.len() as int)));
                }
            }
        } else {
            let nv2 = chars_of(name);
            let kts = chars_of(".gradle.kts");
            let gradle = chars_of(".gradle");
            let kt = chars_of(".kt");
            if ends_with_chars(nv2.as_slice(), kts.as_slice()) || ends_with_chars(nv2.as_slice(), gradle.as_slice())
                || ends_with_chars(nv2.as_slice(), kt.as_slice()) {
                let ghost before_out = out@;
                assert(gradle_kotlin_path(path@)) by {
                    assert(path@ == path_join(dir@, name@));
                }
                out.push(path);
                assert forall|k: int| start.len() <= k < out@.len() implies gradle_kotlin_path(#[trigger] out@[k]@) by {
                    if k < before_out.len() {
                        assert(out@[k] == before_out[k]);
                    }
                }
                assert(crate::paths::string_views(out@) =~= crate::paths::string_views(before_out).push(path@));
                proof {
                    assert(gradle_kotlin_name(name@));
                    assert(crate::paths::string_views(out@).skip(ob.len() as int) =~= seq![path@]);
                    assert(gradle_entry(dir@, depth as int, nv[i as int], since(before, runner.calls()), crate::paths::string_views(out@).skip(ob.len() as int)));
                }
            } else {
                proof {
                    assert(!gradle_kotlin_name(name@));
                    assert(crate::paths::string_views(out@).skip(ob.len() as int) =~= Seq::<Seq<char>>::empty());
                    assert(gradle_entry(dir@, depth as int, nv[i as int], since(before, runner.calls()), crate::paths::string_views(out@).skip(ob.len() as int)));
                }
            }
        }
        proof {
            let chunk = since(before, runner.calls());
            let o = crate::paths::string_views(out@).skip(ob.len() as int);
            assert(crate::paths::string_views(out@).take(ob.len() as int) =~= ob) by {
                assert forall|k: int| 0 <= k < ob.len() implies crate::paths::string_views(out@)[k] == ob[k] by {}
            }
            assert(gradle_entry(dir@, depth as int, nv[i as int], chunk, o));
            lemma_since_prefix(after_list, before, runner.calls());
            assert(since(after_list, runner.calls()) =~= since(after_list, before) + chunk);
            chunks.lemma_flatten_push(chunk);
            outs.lemma_flatten_push(o);
            assert(crate::paths::string_views(out@).skip(o0.len() as int) =~= ob.skip(o0.len() as int) + o);
            chunks = chunks.push(chunk);
            outs = outs.push(o);
        }
        i = i + 1;
    }
    proof {
        lemma_since_prefix(begin, after_list, runner.calls());
        assert(since(begin, runner.calls())[0] == since(begin, after_list)[0]);
        assert(since(begin, runner.calls()).skip(1) =~= since(after_list, runner.calls()));
        assert(gradle_walk(dir@, depth as int, since(begin, runner.calls()), crate::paths::string_views(out@).skip(o0.len() as int)));
    }
}

/// The pattern of a Kotlin `(const) val IDENT = "..."` string constant.
pub open spec fn const_pattern(escaped_ident: Seq<char>) -> Seq<char> {
    "\\bval\\s+"@ + escaped_ident + "\\s*(?::\\s*String\\s*)?=\\s*\"([^\"]+)\""@
}

/// The answer to reading a file, as recorded.
pub type ReadReply = Result<Seq<char>, (bool, Seq<char>)>;

/// What `pattern` captures in the text read, none when it could not be read.
pub open spec fn read_capture(pattern: Seq<char>, reply: ReadReply) -> Option<Seq<char>> {
    match reply {
        Ok(c) => regex_first_capture(pattern, c),
        Err(_) => None,
    }
}

/// The literal application id of a text read: Kotlin DSL, else Groovy DSL.
pub open spec fn literal_capture(reply: ReadReply) -> Option<Seq<char>> {
    if read_capture(KOTLIN_DSL_PATTERN@, reply) is Some {
        read_capture(KOTLIN_DSL_PATTERN@, reply)
    } else {
        read_capture(GROOVY_DSL_PATTERN@, reply)
    }
}

/// A pass over `fs` recorded as exactly `t` found `r`: each file is read in
/// order until `pick` of what was read gives an id, which is the result.
pub open spec fn read_pass(fs: Seq<Seq<char>>, pick: spec_fn(ReadReply) -> Option<Seq<char>>, t: Seq<Call>, r: Option<Seq<char>>) -> bool
    decreases fs.len(),
{
    if fs.len() == 0 {
        t.len() == 0 && r is None
    } else {
        &&& t.len() >= 1
        &&& t[0] is ReadFile
        &&& t[0]->ReadFile_path == fs[0]
        &&& if pick(t[0]->ReadFile_reply) is Some {
            t.len() == 1 && r == pick(t[0]->ReadFile_reply)
        } else {
            read_pass(fs.drop_first(), pick, t.skip(1), r)
        }
    }
}

/// The pick of the `val` constant named `ident`.
pub open spec fn const_pick(ident: Seq<char>) -> spec_fn(ReadReply) -> Option<Seq<char>> {
    |reply: ReadReply| read_capture(const_pattern(regex_escaped(ident)), reply)
}

/// The first file of `files[i..]` whose text holds the constant of `pattern`
/// gives its value; see `read_pass`.
fn resolve_from<R: Runner>(runner: &mut Session<R>, files: &Vec<String>, i: usize, pattern: &str, Ghost(ident): Ghost<Seq<char>>) -> (r: Option<String>)
    requires
        i <= files@.len(),
        pattern@ == const_pattern(regex_escaped(ident)),
    ensures
        reads_only(old(runner).calls(), final(runner).calls()),
        read_pass(crate::paths::string_views(files@).skip(i as int), const_pick(ident), since(old(runner).calls(), final(runner).calls()), opt_view(r)),
    decreases files@.len() - i,
{
    let ghost fv = crate::paths::string_views(files@);
    if i == files.len() {
        assert(fv.skip(i as int) =~= Seq::<Seq<char>>::empty());
        return None;
    }
    let ghost start = runner.calls();
    let read = runner.read_file(files[i].as_str());
    let ghost mid = runner.calls();
    proof {
        assert(fv.skip(i as int)[0] == files@[i as int]@);
        assert(fv.skip(i as int).drop_first() =~= fv.skip(i + 1));
        assert(since(start, mid)[0] == mid.last());
    }
    if let Ok(c) = read {
        if let Some(v) = first_capture(pattern, c.as_str()) {
            return Some(v);
        }
    }
    let r = resolve_from(runner, files, i + 1, pattern, Ghost(ident));
    proof {
        lemma_since_prefix(start, mid, runner.calls());
        assert(since(start, runner.calls())[0] == since(start, mid)[0]);
        assert(since(start, runner.calls()).skip(1) =~= since(mid, runner.calls()));
    }
    r
}

/// Finds a Kotlin `(const) val IDENT = "..."` string constant across `files`:
/// the first file whose text holds one gives its value.
pub fn resolve_kotlin_string_const<R: Runner>(runner: &mut Session<R>, files: &Vec<String>, ident: &str) -> (r: Option<String>)
    ensures
        reads_only(old(runner).calls(), final(runner).calls()),
        r matches Some(v) ==> exists|text: Seq<char>|
            Some(v@) == #[trigger] regex_first_capture(const_pattern(regex_escaped(ident@)), text),
        read_pass(crate::paths::string_views(files@), const_pick(ident@), since(old(runner).calls(), final(runner).calls()), opt_view(r)),
{
    let escaped = escape_regex(ident);
    let pattern = cat(&["\\bval\\s+", escaped.as_str(), "\\s*(?::\\s*String\\s*)?=\\s*\"([^\"]+)\""]);
    proof {
        reveal_with_fuel(crate::text::concat_views, 4);
    }
    assert(pattern@ =~= const_pattern(regex_escaped(ident@)));
    let r = resolve_from(runner, files, 0, pattern.as_str(), Ghost(ident@));
    assert(crate::paths::string_views(files@).skip(0) =~= crate::paths::string_views(files@));
    proof {
        if r is Some {
            lemma_pass_found(crate::paths::string_views(files@), const_pick(ident@), since(old(runner).calls(), runner.calls()), opt_view(r));
        }
    }
    r
}

/// What a pass found was picked from some file's text.
proof fn lemma_pass_found(fs: Seq<Seq<char>>, pick: spec_fn(ReadReply) -> Option<Seq<char>>, t: Seq<Call>, r: Option<Seq<char>>)
    requires
        read_pass(fs, pick, t, r),
        r is Some,
    ensures
        exists|reply: ReadReply| r == #[trigger] pick(reply),
    decreases fs.len(),
{
    if fs.len() > 0 {
        if pick(t[0]->ReadFile_reply) is None {
            lemma_pass_found(fs.drop_first(), pick, t.skip(1), r);
        }
    }
}

/// `id` is what one of the application-id patterns captures in `text`: a
/// literal in Kotlin or Groovy DSL, an AGP `namespace`, a manifest `package`,
/// or the `val` constant that an `applicationId = IDENT` of some file names.
pub open spec fn android_id_in(id: Seq<char>, text: Seq<char>) -> bool {
    ||| Some(id) == regex_first_capture(KOTLIN_DSL_PATTERN@, text)
    ||| Some(id) == regex_first_capture(GROOVY_DSL_PATTERN@, text)
    ||| Some(id) == regex_first_capture(NAMESPACE_PATTERN@, text)
    ||| Some(id) == regex_first_capture(MANIFEST_PACKAGE_PATTERN@, text)
    ||| exists|ident: Seq<char>, src: Seq<char>|
        #![trigger regex_first_capture(APPLICATION_ID_REF_PATTERN@, src), regex_first_capture(const_pattern(regex_escaped(ident)), text)]
        Some(ident) == regex_first_capture(APPLICATION_ID_REF_PATTERN@, src)
            && Some(id) == regex_first_capture(const_pattern(regex_escaped(ident)), text)
}

/// `id` is what the application-id patterns capture in some file's text.
pub open spec fn android_id_found(id: Seq<char>) -> bool {
    exists|text: Seq<char>| #[trigger] android_id_in(id, text)
}

proof fn lemma_gradle_id_found(id: Seq<char>, is_kts: bool)
    requires
        exists|text: Seq<char>| Some(id) == #[trigger] regex_first_capture(gradle_pattern(is_kts), text),
    ensures
        android_id_found(id),
{
    let t = choose|text: Seq<char>| Some(id) == #[trigger] regex_first_capture(gradle_pattern(is_kts), text);
    assert(android_id_in(id, t));
}

proof fn lemma_manifest_id_found(id: Seq<char>)
    requires
        exists|text: Seq<char>| Some(id) == #[trigger] regex_first_capture(MANIFEST_PACKAGE_PATTERN@, text),
    ensures
        android_id_found(id),
{
    let t = choose|text: Seq<char>| Some(id) == #[trigger] regex_first_capture(MANIFEST_PACKAGE_PATTERN@, text);
    assert(android_id_in(id, t));
}

/// The pick of a literal application id.
pub open spec fn literal_pick() -> spec_fn(ReadReply) -> Option<Seq<char>> {
    |reply: ReadReply| literal_capture(reply)
}

/// The pick of an AGP `namespace`.
pub open spec fn namespace_pick() -> spec_fn(ReadReply) -> Option<Seq<char>> {
    |reply: ReadReply| read_capture(NAMESPACE_PATTERN@, reply)
}

/// The pass over `fs` (constants looked up across `all`) recorded as exactly
/// `t`, which found `r`: each file is read in order; one whose text holds
/// `applicationId = IDENT` has `IDENT` looked up as a `val` constant across
/// `all` (`read_pass` with `const_pick`); a value found is the result.
pub open spec fn ref_pass(all: Seq<Seq<char>>, fs: Seq<Seq<char>>, t: Seq<Call>, r: Option<Seq<char>>) -> bool
    decreases fs.len(),
{
    if fs.len() == 0 {
        t.len() == 0 && r is None
    } else {
        &&& t.len() >= 1
        &&& t[0] is ReadFile
        &&& t[0]->ReadFile_path == fs[0]
        &&& match read_capture(APPLICATION_ID_REF_PATTERN@, t[0]->ReadFile_reply) {
            None => ref_pass(all, fs.drop_first(), t.skip(1), r),
            Some(ident) => ref_lookup(all, fs, ident, t, r),
        }
    }
}

/// The lookup of `ident` after the read of `fs[0]` in `ref_pass`.
pub open spec fn ref_lookup(all: Seq<Seq<char>>, fs: Seq<Seq<char>>, ident: Seq<char>, t: Seq<Call>, r: Option<Seq<char>>) -> bool
    decreases fs.len(), 0int,
{
    exists|k: int, v: Option<Seq<char>>|
        1 <= k <= t.len() && #[trigger] read_pass(all, const_pick(ident), t.subrange(1, k), v) && if v is Some {
            k == t.len() && r == v
        } else {
            fs.len() > 0 && ref_pass(all, fs.drop_first(), t.skip(k), r)
        }
}

/// The manifest step recorded as exactly `t` found `r`: whether `manifest`
/// exists and, when it does, the `package` its text declares.
pub open spec fn manifest_step(manifest: Seq<char>, t: Seq<Call>, r: Option<Seq<char>>) -> bool {
    &&& t.len() >= 1
    &&& t[0] == (Call::PathExists { path: manifest, reply: t[0]->PathExists_reply })
    &&& if !t[0]->PathExists_reply {
        t.len() == 1 && r is None
    } else {
        t.len() == 2 && t[1] is ReadFile && t[1]->ReadFile_path == manifest
            && r == read_capture(MANIFEST_PACKAGE_PATTERN@, t[1]->ReadFile_reply)
    }
}

/// The collections under each of `roots` in turn, recorded as exactly `t`,
/// found `files`.
pub open spec fn gradle_walks(roots: Seq<Seq<char>>, t: Seq<Call>, files: Seq<Seq<char>>) -> bool
    decreases roots.len(),
{
    if roots.len() == 0 {
        t.len() == 0 && files.len() == 0
    } else {
        exists|j: int, f: Seq<Seq<char>>|
            0 <= j <= t.len() && f.len() <= files.len() && #[trigger] gradle_walk(roots[0], 0, t.take(j), f)
            && files.take(f.len() as int) == f && gradle_walks(roots.drop_first(), t.skip(j), files.skip(f.len() as int))
    }
}

/// The search without a literal id, recorded as exactly `t`, found `r`: the
/// gradle and Kotlin sources under `roots` are collected, then read for a
/// literal id, then for an `applicationId = IDENT` constant, then for a
/// `namespace`, and last `manifest` is asked; the first found is the result.
pub open spec fn fallback_trace(roots: Seq<Seq<char>>, manifest: Seq<char>, t: Seq<Call>, r: Option<Seq<char>>) -> bool {
    exists|k: int, files: Seq<Seq<char>>|
        0 <= k <= t.len() && #[trigger] gradle_walks(roots, t.take(k), files) && fallback_passes(files, manifest, t.skip(k), r)
}

/// The passes of `fallback_trace` over `files`.
pub open spec fn fallback_passes(files: Seq<Seq<char>>, manifest: Seq<char>, t: Seq<Call>, r: Option<Seq<char>>) -> bool {
    exists|a: int, r1: Option<Seq<char>>|
        0 <= a <= t.len() && #[trigger] read_pass(files, literal_pick(), t.take(a), r1) && if r1 is Some {
            a == t.len() && r == r1
        } else {
            fallback_refs(files, manifest, t.skip(a), r)
        }
}

/// The passes of `fallback_trace` after the literal one.
pub open spec fn fallback_refs(files: Seq<Seq<char>>, manifest: Seq<char>, t: Seq<Call>, r: Option<Seq<char>>) -> bool {
    exists|b: int, r2: Option<Seq<char>>|
        0 <= b <= t.len() && #[trigger] ref_pass(files, files, t.take(b), r2) && if r2 is Some {
            b == t.len() && r == r2
        } else {
            fallback_names(files, manifest, t.skip(b), r)
        }
}

/// The namespace pass and the manifest step of `fallback_trace`.
pub open spec fn fallback_names(files: Seq<Seq<char>>, manifest: Seq<char>, t: Seq<Call>, r: Option<Seq<char>>) -> bool {
    exists|c: int, r3: Option<Seq<char>>|
        0 <= c <= t.len() && #[trigger] read_pass(files, namespace_pick(), t.take(c), r3) && if r3 is Some {
            c == t.len() && r == r3
        } else {
            manifest_step(manifest, t.skip(c), r)
        }
}

/// The literal pass over `files[i..]`; see `read_pass` with `literal_pick`.
fn literal_scan<R: Runner>(runner: &mut Session<R>, files: &Vec<String>, i: usize) -> (r: Option<String>)
    requires
        i <= files@.len(),
    ensures
        reads_only(old(runner).calls(), final(runner).calls()),
        read_pass(crate::paths::string_views(files@).skip(i as int), literal_pick(), since(old(runner).calls(), final(runner).calls()), opt_view(r)),
    decreases files@.len() - i,
{
    let ghost fv = crate::paths::string_views(files@);
    if i == files.len() {
        assert(fv.skip(i as int) =~= Seq::<Seq<char>>::empty());
        return None;
    }
    let ghost start = runner.calls();
    let read = runner.read_file(files[i].as_str());
    let ghost mid = runner.calls();
    proof {
        assert(fv.skip(i as int)[0] == files@[i as int]@);
        assert(fv.skip(i as int).drop_first() =~= fv.skip(i + 1));
        assert(since(start, mid)[0] == mid.last());
    }
    if let Ok(c) = read {
        if let Some(id) = first_capture(KOTLIN_DSL_PATTERN, c.as_str()) {
            return Some(id);
        }
        if let Some(id) = first_capture(GROOVY_DSL_PATTERN, c.as_str()) {
            return Some(id);
        }
    }
    let r = literal_scan(runner, files, i + 1);
    proof {
        lemma_since_prefix(start, mid, runner.calls());
        assert(since(start, runner.calls())[0] == since(start, mid)[0]);
        assert(since(start, runner.calls()).skip(1) =~= since(mid, runner.calls()));
    }
    r
}

/// The namespace pass over `files[i..]`; see `read_pass` with `namespace_pick`.
fn namespace_scan<R: Runner>(runner: &mut Session<R>, files: &Vec<String>, i: usize) -> (r: Option<String>)
    requires
        i <= files@.len(),
    ensures
        reads_only(old(runner).calls(), final(runner).calls()),
        read_pass(crate::paths::string_views(files@).skip(i as int), namespace_pick(), since(old(runner).calls(), final(runner).calls()), opt_view(r)),
    decreases files@.len() - i,
{
    let ghost fv = crate::paths::string_views(files@);
    if i == files.len() {
        assert(fv.skip(i as int) =~= Seq::<Seq<char>>::empty());
        return None;
    }
    let ghost start = runner.calls();
    let read = runner.read_file(files[i].as_str());
    let ghost mid = runner.calls();
    proof {
        assert(fv.skip(i as int)[0] == files@[i as int]@);
        assert(fv.skip(i as int).drop_first() =~= fv.skip(i + 1));
        assert(since(start, mid)[0] == mid.last());
    }
    if let Ok(c) = read {
        if let Some(ns) = first_capture(NAMESPACE_PATTERN, c.as_str()) {
            return Some(ns);
        }
    }
    let r = namespace_scan(runner, files, i + 1);
    proof {
        lemma_since_prefix(start, mid, runner.calls());
        assert(since(start, runner.calls())[0] == since(start, mid)[0]);
        assert(since(start, runner.calls()).skip(1) =~= since(mid, runner.calls()));
    }
    r
}

/// The constant pass over `files[i..]`; see `ref_pass`.
fn ref_scan<R: Runner>(runner: &mut Session<R>, files: &Vec<String>, i: usize) -> (r: Option<String>)
    requires
        i <= files@.len(),
    ensures
        reads_only(old(runner).calls(), final(runner).calls()),
        ref_pass(crate::paths::string_views(files@), crate::paths::string_views(files@).skip(i as int), since(old(runner).calls(), final(runner).calls()), opt_view(r)),
    decreases files@.len() - i,
{
    let ghost fv = crate::paths::string_views(files@);
    if i == files.len() {
        assert(fv.skip(i as int) =~= Seq::<Seq<char>>::empty());
        return None;
    }
    let ghost start = runner.calls();
    let read = runner.read_file(files[i].as_str());
    let ghost mid = runner.calls();
    proof {
        assert(fv.skip(i as int)[0] == files@[i as int]@);
        assert(fv.skip(i as int).drop_first() =~= fv.skip(i + 1));
        assert(since(start, mid)[0] == mid.last());
    }
    let ident = match &read {
        Ok(c) => first_capture(APPLICATION_ID_REF_PATTERN, c.as_str()),
        Err(_) => None,
    };
    match ident {
        None => {
            let r = ref_scan(runner, files, i + 1);
            proof {
                lemma_since_prefix(start, mid, runner.calls());
                assert(since(start, runner.calls())[0] == since(start, mid)[0]);
                assert(since(start, runner.calls()).skip(1) =~= since(mid, runner.calls()));
            }
            r
        },
        Some(ident) => {
            let v = resolve_kotlin_string_const(runner, files, ident.as_str());
            let ghost looked = runner.calls();
            proof {
                lemma_since_prefix(start, mid, looked);
                let t = since(start, looked);
                let k = t.len() as int;
                assert(t.subrange(1, k) =~= since(mid, looked));
                assert(t[0] == since(start, mid)[0]);
            }
            if v.is_some() {
                proof {
                    let t = since(start, looked);
                    assert(read_pass(fv, const_pick(ident@), t.subrange(1, t.len() as int), opt_view(v)));
                    assert(ref_lookup(fv, fv.skip(i as int), ident@, t, opt_view(v)));
                }
                return v;
            }
            let r = ref_scan(runner, files, i + 1);
            proof {
                lemma_since_prefix(start, looked, runner.calls());
                let t = since(start, runner.calls());
                let k = since(start, looked).len() as int;
                assert(t.subrange(1, k) =~= since(start, looked).subrange(1, k));
                assert(t[0] == since(start, mid)[0]);
                assert(t.skip(k) =~= since(looked, runner.calls()));
                assert(read_pass(fv, const_pick(ident@), t.subrange(1, k), None));
                assert(ref_lookup(fv, fv.skip(i as int), ident@, t, opt_view(r)));
            }
            r
        },
    }
}

/// What a literal or namespace pass found is an application id of some text.
proof fn lemma_pick_found(fs: Seq<Seq<char>>, literal: bool, t: Seq<Call>, r: Option<Seq<char>>)
    requires
        read_pass(fs, if literal { literal_pick() } else { namespace_pick() }, t, r),
        r is Some,
    ensures
        android_id_found(r->0),
{
    let pick = if literal { literal_pick() } else { namespace_pick() };
    lemma_pass_found(fs, pick, t, r);
    let reply = choose|reply: ReadReply| r == #[trigger] pick(reply);
    let c = reply->Ok_0;
    assert(android_id_in(r->0, c));
}

/// What the constant pass found is an application id of some text.
proof fn lemma_ref_found(all: Seq<Seq<char>>, fs: Seq<Seq<char>>, t: Seq<Call>, r: Option<Seq<char>>)
    requires
        ref_pass(all, fs, t, r),
        r is Some,
    ensures
        android_id_found(r->0),
    decreases fs.len(),
{
    if fs.len() > 0 {
        match read_capture(APPLICATION_ID_REF_PATTERN@, t[0]->ReadFile_reply) {
            None => lemma_ref_found(all, fs.drop_first(), t.skip(1), r),
            Some(ident) => {
                assert(ref_lookup(all, fs, ident, t, r));
                let (k, v) = choose|k: int, v: Option<Seq<char>>|
                    1 <= k <= t.len() && #[trigger] read_pass(all, const_pick(ident), t.subrange(1, k), v) && if v is Some {
                        k == t.len() && r == v
                    } else {
                        fs.len() > 0 && ref_pass(all, fs.drop_first(), t.skip(k), r)
                    };
                if v is Some {
                    lemma_pass_found(all, const_pick(ident), t.subrange(1, k), v);
                    let reply = choose|reply: ReadReply| v == #[trigger] const_pick(ident)(reply);
                    let c = reply->Ok_0;
                    let src = t[0]->ReadFile_reply->Ok_0;
                    assert(Some(ident) == regex_first_capture(APPLICATION_ID_REF_PATTERN@, src));
                    assert(Some(r->0) == regex_first_capture(const_pattern(regex_escaped(ident)), c));
                    assert(android_id_in(r->0, c));
                } else {
                    lemma_ref_found(all, fs.drop_first(), t.skip(k), r);
                }
            },
        }
    }
}

/// The collections under `roots[i..]`, appended to `files`; see
/// `gradle_walks`.
fn collect_roots<R: Runner>(runner: &mut Session<R>, roots: &[String], i: usize, files: &mut Vec<String>)
    requires
        i <= roots@.len(),
    ensures
        reads_only(old(runner).calls(), final(runner).calls()),
        final(files)@.len() >= old(files)@.len(),
        crate::paths::string_views(final(files)@).take(old(files)@.len() as int) == crate::paths::string_views(old(files)@),
        gradle_walks(crate::paths::string_views(roots@).skip(i as int), since(old(runner).calls(), final(runner).calls()),
            crate::paths::string_views(final(files)@).skip(old(files)@.len() as int)),
    decreases roots@.len() - i,
{
    let ghost rv = crate::paths::string_views(roots@);
    let ghost f0 = crate::paths::string_views(files@);
    if i == roots.len() {
        assert(rv.skip(i as int) =~= Seq::<Seq<char>>::empty());
        assert(crate::paths::string_views(files@).skip(f0.len() as int) =~= Seq::<Seq<char>>::empty());
        assert(crate::paths::string_views(files@).take(f0.len() as int) =~= f0);
        return;
    }
    let ghost start = runner.calls();
    collect_gradle_kotlin_files(runner, roots[i].as_str(), 0, files);
    let ghost mid = runner.calls();
    let ghost f1 = crate::paths::string_views(files@);
    proof {
        assert forall|k: int| 0 <= k < f0.len() implies f1[k] == f0[k] by {}
    }
    collect_roots(runner, roots, i + 1, files);
    proof {
        let f2 = crate::paths::string_views(files@);
        lemma_since_prefix(start, mid, runner.calls());
        let t = since(start, runner.calls());
        let j = since(start, mid).len() as int;
        let f = f1.skip(f0.len() as int);
        assert(t.take(j) =~= since(start, mid));
        assert(t.skip(j) =~= since(mid, runner.calls()));
        assert(rv.skip(i as int)[0] == roots@[i as int]@);
        assert(rv.skip(i as int).drop_first() =~= rv.skip(i + 1));
        assert(f2.take(f1.len() as int) == f1);
        let all = f2.skip(f0.len() as int);
        assert(all.take(f.len() as int) =~= f) by {
            assert forall|k: int| 0 <= k < f.len() implies all[k] == f[k] by {
                assert(all[k] == f2[f0.len() + k]);
                assert(f2[f0.len() + k] == f2.take(f1.len() as int)[f0.len() + k]);
            }
        }
        assert(all.skip(f.len() as int) =~= f2.skip(f1.len() as int));
        assert(gradle_walk(rv.skip(i as int)[0], 0, t.take(j), f));
        assert(f2.take(f0.len() as int) =~= f0) by {
            assert forall|k: int| 0 <= k < f0.len() implies f2[k] == f0[k] by {
                assert(f2[k] == f2.take(f1.len() as int)[k]);
            }
        }
    }
}

proof fn lemma_fallback_top(roots: Seq<Seq<char>>, m: Seq<char>, start: Seq<Call>, walked: Seq<Call>, end: Seq<Call>, fv: Seq<Seq<char>>, r: Option<Seq<char>>)
    requires
        extends(start, walked),
        extends(walked, end),
        gradle_walks(roots, since(start, walked), fv),
        fallback_passes(fv, m, since(walked, end), r),
    ensures
        fallback_trace(roots, m, since(start, end), r),
{
    lemma_since_prefix(start, walked, end);
    let t = since(start, end);
    let k = since(start, walked).len() as int;
    assert(t.take(k) == since(start, walked));
    assert(t.skip(k) == since(walked, end));
}

proof fn lemma_passes_found(fv: Seq<Seq<char>>, m: Seq<char>, a: Seq<Call>, b: Seq<Call>, r: Option<Seq<char>>)
    requires
        read_pass(fv, literal_pick(), since(a, b), r),
        r is Some,
    ensures
        fallback_passes(fv, m, since(a, b), r),
{
    let t = since(a, b);
    assert(t.take(t.len() as int) =~= t);
}

proof fn lemma_passes_after(fv: Seq<Seq<char>>, m: Seq<char>, a: Seq<Call>, b: Seq<Call>, c: Seq<Call>, r: Option<Seq<char>>)
    requires
        extends(a, b),
        extends(b, c),
        read_pass(fv, literal_pick(), since(a, b), None),
        fallback_refs(fv, m, since(b, c), r),
    ensures
        fallback_passes(fv, m, since(a, c), r),
{
    lemma_since_prefix(a, b, c);
    let t = since(a, c);
    let k = since(a, b).len() as int;
    assert(t.take(k) == since(a, b));
    assert(t.skip(k) == since(b, c));
    assert(read_pass(fv, literal_pick(), t.take(k), None));
}

proof fn lemma_refs_found(fv: Seq<Seq<char>>, m: Seq<char>, a: Seq<Call>, b: Seq<Call>, r: Option<Seq<char>>)
    requires
        ref_pass(fv, fv.skip(0), since(a, b), r),
        r is Some,
    ensures
        fallback_refs(fv, m, since(a, b), r),
{
    let t = since(a, b);
    assert(fv.skip(0) =~= fv);
    assert(t.take(t.len() as int) =~= t);
    assert(ref_pass(fv, fv, t.take(t.len() as int), r));
}

proof fn lemma_refs_after(fv: Seq<Seq<char>>, m: Seq<char>, a: Seq<Call>, b: Seq<Call>, c: Seq<Call>, r: Option<Seq<char>>)
    requires
        extends(a, b),
        extends(b, c),
        ref_pass(fv, fv.skip(0), since(a, b), None),
        fallback_names(fv, m, since(b, c), r),
    ensures
        fallback_refs(fv, m, since(a, c), r),
{
    lemma_since_prefix(a, b, c);
    let t = since(a, c);
    let k = since(a, b).len() as int;
    assert(fv.skip(0) =~= fv);
    assert(t.take(k) == since(a, b));
    assert(t.skip(k) == since(b, c));
    assert(ref_pass(fv, fv, t.take(k), None));
}

proof fn lemma_names_found(fv: Seq<Seq<char>>, m: Seq<char>, a: Seq<Call>, b: Seq<Call>, r: Option<Seq<char>>)
    requires
        read_pass(fv, namespace_pick(), since(a, b), r),
        r is Some,
    ensures
        fallback_names(fv, m, since(a, b), r),
{
    let t = since(a, b);
    assert(t.take(t.len() as int) =~= t);
}

proof fn lemma_names_after(fv: Seq<Seq<char>>, m: Seq<char>, a: Seq<Call>, b: Seq<Call>, c: Seq<Call>, r: Option<Seq<char>>)
    requires
        extends(a, b),
        extends(b, c),
        read_pass(fv, namespace_pick(), since(a, b), None),
        manifest_step(m, since(b, c), r),
    ensures
        fallback_names(fv, m, since(a, c), r),
{
    lemma_since_prefix(a, b, c);
    let t = since(a, c);
    let k = since(a, b).len() as int;
    assert(t.take(k) == since(a, b));
    assert(t.skip(k) == since(b, c));
    assert(read_pass(fv, namespace_pick(), t.take(k), None));
}

/// Resolves an Android application id when no literal
/// `applicationId = "..."` exists in `app/build.gradle{,.kts}`: a literal
/// anywhere under `scan_roots` (commonly inside a convention plugin), then
/// `applicationId = IDENT` resolved against a `val IDENT = "..."` constant,
/// then an AGP `namespace` literal, then the legacy manifest `package`.
pub fn detect_android_id_fallback<R: Runner>(runner: &mut Session<R>, scan_roots: &[String], manifest: &str) -> (r: Option<String>)
    ensures
        reads_only(old(runner).calls(), final(runner).calls()),
        r matches Some(id) ==> android_id_found(id@),
        fallback_trace(crate::paths::string_views(scan_roots@), manifest@, since(old(runner).calls(), final(runner).calls()), opt_view(r)),
{
    let ghost start = runner.calls();
    let mut files: Vec<String> = Vec::new();
    collect_roots(runner, scan_roots, 0, &mut files);
    let ghost walked = runner.calls();
    let ghost fv = crate::paths::string_views(files@);
    proof {
        assert(crate::paths::string_views(scan_roots@).skip(0) =~= crate::paths::string_views(scan_roots@));
        assert(fv.skip(0) =~= fv);
        assert(fv.take(0) =~= Seq::<Seq<char>>::empty());
        assert(fv.take(fv.len() as int) =~= fv);
    }
    let lit = literal_scan(runner, &files, 0);
    let ghost lit_at = runner.calls();
    proof { lemma_since_prefix(start, walked, lit_at); }
    if lit.is_some() {
        proof {
            lemma_pick_found(fv, true, since(walked, lit_at), opt_view(lit));
            lemma_passes_found(fv, manifest@, walked, lit_at, opt_view(lit));
            lemma_fallback_top(crate::paths::string_views(scan_roots@), manifest@, start, walked, lit_at, fv, opt_view(lit));
        }
        return lit;
    }
    let refd = ref_scan(runner, &files, 0);
    let ghost ref_at = runner.calls();
    if refd.is_some() {
        proof {
            lemma_ref_found(fv, fv.skip(0), since(lit_at, ref_at), opt_view(refd));
            lemma_refs_found(fv, manifest@, lit_at, ref_at, opt_view(refd));
            lemma_passes_after(fv, manifest@, walked, lit_at, ref_at, opt_view(refd));
            lemma_fallback_top(crate::paths::string_views(scan_roots@), manifest@, start, walked, ref_at, fv, opt_view(refd));
        }
        return refd;
    }
    let ns = namespace_scan(runner, &files, 0);
    let ghost ns_at = runner.calls();
    if ns.is_some() {
        proof {
            lemma_pick_found(fv, false, since(ref_at, ns_at), opt_view(ns));
            lemma_names_found(fv, manifest@, ref_at, ns_at, opt_view(ns));
            lemma_refs_after(fv, manifest@, lit_at, ref_at, ns_at, opt_view(ns));
            lemma_passes_after(fv, manifest@, walked, lit_at, ns_at, opt_view(ns));
            lemma_fallback_top(crate::paths::string_views(scan_roots@), manifest@, start, walked, ns_at, fv, opt_view(ns));
        }
        return ns;
    }
    let exists = runner.path_exists(manifest);
    let ghost probed = runner.calls();
    let mut r: Option<String> = None;
    if exists {
        let read = runner.read_file(manifest);
        if let Ok(c) = read {
            r = first_capture(MANIFEST_PACKAGE_PATTERN, c.as_str());
            if let Some(id) = &r {
                assert(android_id_in(id@, c@));
            }
        }
        proof {
            assert(since(ns_at, runner.calls())[0] == probed.last());
            assert(since(ns_at, runner.calls())[1] == runner.calls().last());
        }
    } else {
        proof { assert(since(ns_at, runner.calls())[0] == probed.last()); }
    }
    proof {
        assert(manifest_step(manifest@, since(ns_at, runner.calls()), opt_view(r)));
        lemma_names_after(fv, manifest@, ref_at, ns_at, runner.calls(), opt_view(r));
        lemma_refs_after(fv, manifest@, lit_at, ref_at, runner.calls(), opt_view(r));
        lemma_passes_after(fv, manifest@, walked, lit_at, runner.calls(), opt_view(r));
        lemma_fallback_top(crate::paths::string_views(scan_roots@), manifest@, start, walked, runner.calls(), fv, opt_view(r));
    }
    r
}

/// `root` joined with each of `parts` in turn.
pub open spec fn path_join_all(root: Seq<char>, parts: Seq<Seq<char>>) -> Seq<char>
    decreases parts.len(),
{
    if parts.len() == 0 {
        root
    } else {
        path_join(path_join_all(root, parts.drop_last()), parts.last())
    }
}

/// `root` joined with each of `parts`.
fn join_all_exec(root: &str, parts: &[&str]) -> (r: String)
    ensures
        r@ == path_join_all(root@, parts@.map_values(|s: &str| s@)),
{
    let ghost pv = parts@.map_values(|s: &str| s@);
    let mut p = root.to_owned();
    let mut i: usize = 0;
    while i < parts.len()
        invariant
            i <= parts@.len(),
            pv == parts@.map_values(|s: &str| s@),
            p@ == path_join_all(root@, pv.take(i as int)),
        decreases parts.len() - i,
    {
        assert(pv.take(i + 1).drop_last() =~= pv.take(i as int));
        p = join_path(p.as_str(), parts[i]);
        i = i + 1;
    }
    assert(pv.take(i as int) =~= pv);
    p
}

/// The directories searched for gradle and Kotlin sources under
/// `android_root`: `app` and `build-logic`.
pub open spec fn android_scan_roots(android_root: Seq<char>) -> Seq<Seq<char>> {
    seq![path_join_all(android_root, seq!["app"@]), path_join_all(android_root, seq!["build-logic"@])]
}

/// The app manifest under `android_root`.
pub open spec fn android_manifest(android_root: Seq<char>) -> Seq<char> {
    path_join_all(android_root, seq!["app"@, "src"@, "main"@, "AndroidManifest.xml"@])
}

/// The whole Android id search in `android_root`, recorded as exactly `t`,
/// found `r`: the literal search of `gradle_literal`; without a literal id the
/// search of `fallback_trace` over `app` and `build-logic`.
pub open spec fn android_id_full(android_root: Seq<char>, t: Seq<Call>, r: Option<Seq<char>>) -> bool {
    exists|k: int, lit: Option<Seq<char>>|
        0 <= k <= t.len() && #[trigger] gradle_literal(android_root, t.take(k), lit) && if lit is Some {
            k == t.len() && r == lit
        } else {
            fallback_trace(android_scan_roots(android_root), android_manifest(android_root), t.skip(k), r)
        }
}

/// The Android id search of a Flutter project whose Android part is at
/// `android_root`, recorded as exactly `t`, found `r`: as `android_id_full`,
/// except that without a literal id the app manifest is asked first (its
/// `package`, when it declares one, is the result).
pub open spec fn flutter_android_full(android_root: Seq<char>, t: Seq<Call>, r: Option<Seq<char>>) -> bool {
    exists|k: int, lit: Option<Seq<char>>|
        0 <= k <= t.len() && #[trigger] gradle_literal(android_root, t.take(k), lit) && if lit is Some {
            k == t.len() && r == lit
        } else {
            flutter_after_literal(android_root, t.skip(k), r)
        }
}

/// The part of `flutter_android_full` after the literal search.
pub open spec fn flutter_after_literal(android_root: Seq<char>, t: Seq<Call>, r: Option<Seq<char>>) -> bool {
    let m = android_manifest(android_root);
    let roots = android_scan_roots(android_root);
    &&& t.len() >= 1
    &&& t[0] == (Call::PathExists { path: m, reply: t[0]->PathExists_reply })
    &&& if !t[0]->PathExists_reply {
        fallback_trace(roots, m, t.skip(1), r)
    } else {
        &&& t.len() >= 2
        &&& t[1] is ReadFile
        &&& t[1]->ReadFile_path == m
        &&& if read_capture(MANIFEST_PACKAGE_PATTERN@, t[1]->ReadFile_reply) is Some {
            t.len() == 2 && r == read_capture(MANIFEST_PACKAGE_PATTERN@, t[1]->ReadFile_reply)
        } else {
            fallback_trace(roots, m, t.skip(2), r)
        }
    }
}

/// The application id of a Flutter project: `android/app/build.gradle.kts`,
/// `android/app/build.gradle`, the app manifest, then the indirect ways.
pub fn detect_android_id_in_flutter_project<R: Runner>(runner: &mut Session<R>, root: &str) -> (r: Option<String>)
    ensures
        reads_only(old(runner).calls(), final(runner).calls()),
        r matches Some(id) ==> android_id_found(id@),
        android_id_search(path_join(root@, "android"@), since(old(runner).calls(), final(runner).calls()), opt_view(r)),
        flutter_android_full(path_join(root@, "android"@), since(old(runner).calls(), final(runner).calls()), opt_view(r)),
{
    let ghost start = runner.calls();
    let android_root = join_path(root, "android");
    let lit = literal_android_id(runner, android_root.as_str());
    let ghost mid = runner.calls();
    if lit.is_some() {
        proof {
            assert(since(start, mid).take(since(start, mid).len() as int) =~= since(start, mid));
        }
        return lit;
    }
    let manifest_parts = ["app", "src", "main", "AndroidManifest.xml"];
    assert(manifest_parts@.map_values(|s: &str| s@) =~= seq!["app"@, "src"@, "main"@, "AndroidManifest.xml"@]);
    let manifest_path = join_all_exec(android_root.as_str(), &manifest_parts);
    let mut r: Option<String> = None;
    let manifest_exists = runner.path_exists(manifest_path.as_str());
    let ghost probed = runner.calls();
    let ghost mut before_fallback = probed;
    proof { assert(since(mid, probed)[0] == probed.last()); }
    if manifest_exists {
        r = extract_package_from_manifest(runner, manifest_path.as_str());
        if let Some(id) = &r {
            proof { lemma_manifest_id_found(id@); }
        }
        proof {
            before_fallback = runner.calls();
            lemma_since_prefix(mid, probed, runner.calls());
            assert(since(mid, runner.calls())[0] == since(mid, probed)[0]);
            assert(since(mid, runner.calls())[1] == since(probed, runner.calls())[0]);
        }
    }
    let ghost manifest_done = runner.calls();
    if r.is_none() {
        let app_parts = ["app"];
        assert(app_parts@.map_values(|s: &str| s@) =~= seq!["app"@]);
        let logic_parts = ["build-logic"];
        assert(logic_parts@.map_values(|s: &str| s@) =~= seq!["build-logic"@]);
        let roots = vec![join_all_exec(android_root.as_str(), &app_parts), join_all_exec(android_root.as_str(), &logic_parts)];
        assert(crate::paths::string_views(roots@) =~= android_scan_roots(android_root@));
        r = detect_android_id_fallback(runner, roots.as_slice(), manifest_path.as_str());
    }
    proof {
        lemma_since_prefix(start, mid, runner.calls());
        let k = since(start, mid).len() as int;
        let t = since(start, runner.calls());
        assert(gradle_literal(android_root@, t.take(k), opt_view(lit)));
        lemma_since_prefix(mid, manifest_done, runner.calls());
        let u = since(mid, runner.calls());
        let j = since(mid, manifest_done).len() as int;
        assert(u.skip(j) =~= since(manifest_done, runner.calls()));
        assert(u[0] == since(mid, manifest_done)[0]);
        if manifest_exists {
            assert(u[1] == since(mid, manifest_done)[1]);
        }
        assert(flutter_after_literal(android_root@, u, opt_view(r)));
        assert(t.skip(k) == u);
    }
    r
}

/// The literal application id of `app/build.gradle.kts`, else of
/// `app/build.gradle`, under `android_root`; see `gradle_literal`.
pub fn literal_android_id<R: Runner>(runner: &mut Session<R>, android_root: &str) -> (r: Option<String>)
    ensures
        reads_only(old(runner).calls(), final(runner).calls()),
        r matches Some(id) ==> android_id_found(id@),
        gradle_literal(android_root@, since(old(runner).calls(), final(runner).calls()), opt_view(r)),
{
    let ghost start = runner.calls();
    let kts_parts = ["app", "build.gradle.kts"];
    assert(kts_parts@.map_values(|s: &str| s@) =~= seq!["app"@, "build.gradle.kts"@]);
    let kts_path = join_all_exec(android_root, &kts_parts);
    let groovy_parts = ["app", "build.gradle"];
    assert(groovy_parts@.map_values(|s: &str| s@) =~= seq!["app"@, "build.gradle"@]);
    let groovy_path = join_all_exec(android_root, &groovy_parts);
    let kts_exists = runner.path_exists(kts_path.as_str());
    let ghost probed_kts = runner.calls();
    if kts_exists {
        let first = extract_application_id_from_gradle(runner, kts_path.as_str(), true);
        proof { lemma_step_two(start, probed_kts, runner.calls()); }
        if let Some(id) = first {
            proof { lemma_gradle_id_found(id@, true); }
            return Some(id);
        }
    }
    let ghost after_kts = runner.calls();
    proof {
        assert(gradle_probe(kts_path@, true, since(start, after_kts)).unwrap().0 == since(start, after_kts).len());
    }
    let groovy_exists = runner.path_exists(groovy_path.as_str());
    let ghost probed_groovy = runner.calls();
    let mut second: Option<String> = None;
    if groovy_exists {
        second = extract_application_id_from_gradle(runner, groovy_path.as_str(), false);
        proof { lemma_step_two(after_kts, probed_groovy, runner.calls()); }
        if let Some(id) = &second {
            proof { lemma_gradle_id_found(id@, false); }
        }
    }
    proof {
        lemma_probe_kept(kts_path@, true, start, after_kts, runner.calls());
        lemma_since_prefix(start, after_kts, runner.calls());
        assert(since(start, runner.calls()).skip(since(start, after_kts).len() as int) == since(after_kts, runner.calls()));
    }
    second
}

/// The application id of an Android project: `app/build.gradle.kts`,
/// `app/build.gradle`, then the indirect ways.
pub fn detect_android_id<R: Runner>(runner: &mut Session<R>, android_root: &str) -> (r: Option<String>)
    ensures
        reads_only(old(runner).calls(), final(runner).calls()),
        r matches Some(id) ==> android_id_found(id@),
        android_id_search(android_root@, since(old(runner).calls(), final(runner).calls()), opt_view(r)),
        android_id_full(android_root@, since(old(runner).calls(), final(runner).calls()), opt_view(r)),
{
    let ghost start = runner.calls();
    let lit = literal_android_id(runner, android_root);
    let ghost mid = runner.calls();
    if lit.is_some() {
        proof {
            assert(since(start, mid).take(since(start, mid).len() as int) =~= since(start, mid));
            assert(gradle_literal(android_root@, since(start, mid).take(since(start, mid).len() as int), opt_view(lit)));
        }
        return lit;
    }
    let app_parts = ["app"];
    assert(app_parts@.map_values(|s: &str| s@) =~= seq!["app"@]);
    let logic_parts = ["build-logic"];
    assert(logic_parts@.map_values(|s: &str| s@) =~= seq!["build-logic"@]);
    let roots = vec![join_all_exec(android_root, &app_parts), join_all_exec(android_root, &logic_parts)];
    assert(crate::paths::string_views(roots@) =~= android_scan_roots(android_root@));
    let manifest_parts = ["app", "src", "main", "AndroidManifest.xml"];
    assert(manifest_parts@.map_values(|s: &str| s@) =~= seq!["app"@, "src"@, "main"@, "AndroidManifest.xml"@]);
    let manifest = join_all_exec(android_root, &manifest_parts);
    let r = detect_android_id_fallback(runner, roots.as_slice(), manifest.as_str());
    proof {
        lemma_since_prefix(start, mid, runner.calls());
        let k = since(start, mid).len() as int;
        assert(gradle_literal(android_root@, since(start, runner.calls()).take(k), opt_view(lit)));
        assert(since(start, runner.calls()).skip(k) =~= since(mid, runner.calls()));
    }
    r
}

/// Two requests recorded one after the other: the first is at index 0 and the
/// second at index 1 of what was recorded since `start`.
proof fn lemma_step_two(start: Seq<Call>, mid: Seq<Call>, end: Seq<Call>)
    requires
        mid.len() == start.len() + 1,
        extends(start, mid),
        extends(mid, end),
        end.len() == mid.len() + 1,
    ensures
        since(start, end).len() == 2,
        since(start, end)[0] == since(start, mid)[0],
        since(start, end)[1] == since(mid, end)[0],
{
}

/// A gradle probe recorded between `start` and `mid` stays what it was after
/// more requests.
proof fn lemma_probe_kept(path: Seq<char>, is_kts: bool, start: Seq<Call>, mid: Seq<Call>, end: Seq<Call>)
    requires
        extends(start, mid),
        extends(mid, end),
        gradle_probe(path, is_kts, since(start, mid)) is Some,
    ensures
        gradle_probe(path, is_kts, since(start, end)) == gradle_probe(path, is_kts, since(start, mid)),
        gradle_probe(path, is_kts, since(start, mid)).unwrap().0 <= since(start, mid).len(),
{
    lemma_since_prefix(start, mid, end);
    let a = since(start, mid);
    let b = since(start, end);
    assert(b[0] == a[0]);
    if a.len() >= 2 {
        assert(b[1] == a[1]);
    }
}

/// The scan of the entries `names` of `root` for an Xcode project, recorded
/// as exactly `t`, found `r`: for each entry in order, whether it is a
/// directory; for a directory named `*.xcodeproj`, whether it holds a
/// `project.pbxproj`; for one that does, its read, whose bundle id ends the
/// scan when the read succeeds.
pub open spec fn xcodeproj_scan(root: Seq<char>, names: Seq<Seq<char>>, t: Seq<Call>, r: Option<Seq<char>>) -> bool
    decreases names.len(),
{
    if names.len() == 0 {
        t.len() == 0 && r is None
    } else {
        let dir = path_join(root, names[0]);
        let pbx = path_join(dir, "project.pbxproj"@);
        &&& t.len() >= 1
        &&& t[0] is IsDir
        &&& t[0]->IsDir_path == dir
        &&& if !(t[0]->IsDir_reply && crate::paths::name_extension(names[0]) == Some("xcodeproj"@)) {
            xcodeproj_scan(root, names.drop_first(), t.skip(1), r)
        } else {
            &&& t.len() >= 2
            &&& t[1] == (Call::PathExists { path: pbx, reply: t[1]->PathExists_reply })
            &&& if !t[1]->PathExists_reply {
                xcodeproj_scan(root, names.drop_first(), t.skip(2), r)
            } else {
                &&& t.len() >= 3
                &&& t[2] is ReadFile
                &&& t[2]->ReadFile_path == pbx
                &&& match t[2]->ReadFile_reply {
                    Ok(c) => t.len() == 3 && r == pbx_bundle_id(c),
                    Err(_) => xcodeproj_scan(root, names.drop_first(), t.skip(3), r),
                }
            }
        }
    }
}

/// The bundle id search in `root`, recorded as exactly `t`, found `r`:
/// `ios/Runner.xcodeproj/project.pbxproj` is probed and, when it exists and
/// reads, its bundle id is the result; otherwise the entries of `root` are
/// listed and scanned as `xcodeproj_scan` says (nothing is found when the
/// listing fails).
pub open spec fn ios_id_search(root: Seq<char>, t: Seq<Call>, r: Option<Seq<char>>) -> bool {
    let pref = path_join_all(root, seq!["ios"@, "Runner.xcodeproj"@, "project.pbxproj"@]);
    let e = t[0]->PathExists_reply;
    let k: int = if e { 2 } else { 1 };
    &&& t.len() >= 1
    &&& t[0] == (Call::PathExists { path: pref, reply: e })
    &&& (e ==> t.len() >= 2 && t[1] is ReadFile && t[1]->ReadFile_path == pref)
    &&& if e && t[1]->ReadFile_reply is Ok {
        t.len() == 2 && r == pbx_bundle_id(t[1]->ReadFile_reply->Ok_0)
    } else {
        &&& t.len() >= k + 1
        &&& t[k] is ListDir
        &&& t[k]->ListDir_path == root
        &&& match t[k]->ListDir_reply {
            None => t.len() == k + 1 && r is None,
            Some(names) => xcodeproj_scan(root, names, t.skip(k + 1), r),
        }
    }
}

/// One more entry scanned without a result: the scan of the remaining
/// entries after `step` gives the scan of all of them.
proof fn lemma_scan_step(root: Seq<char>, names: Seq<Seq<char>>, i: int, step: Seq<Call>, tail: Seq<Call>, r: Option<Seq<char>>)
    requires
        0 <= i < names.len(),
        xcodeproj_scan(root, names.skip(i + 1), tail, r),
        ({
            let dir = path_join(root, names[i]);
            let pbx = path_join(dir, "project.pbxproj"@);
            ||| (step.len() == 1 && step[0] is IsDir && step[0]->IsDir_path == dir
                && !(step[0]->IsDir_reply && crate::paths::name_extension(names[i]) == Some("xcodeproj"@)))
            ||| (step.len() == 2 && step[0] == (Call::IsDir { path: dir, reply: true })
                && crate::paths::name_extension(names[i]) == Some("xcodeproj"@)
                && step[1] == (Call::PathExists { path: pbx, reply: false }))
            ||| (step.len() == 3 && step[0] == (Call::IsDir { path: dir, reply: true })
                && crate::paths::name_extension(names[i]) == Some("xcodeproj"@)
                && step[1] == (Call::PathExists { path: pbx, reply: true })
                && step[2] is ReadFile && step[2]->ReadFile_path == pbx && step[2]->ReadFile_reply is Err)
        }),
    ensures
        xcodeproj_scan(root, names.skip(i), step + tail, r),
{
    let ns = names.skip(i);
    assert(ns[0] == names[i]);
    assert(ns.drop_first() =~= names.skip(i + 1));
    let t = step + tail;
    assert(t.skip(step.len() as int) =~= tail);
    assert(t[0] == step[0]);
    if step.len() >= 2 {
        assert(t[1] == step[1]);
    }
    if step.len() >= 3 {
        assert(t[2] == step[2]);
    }
}

/// The entry at `i` ends the scan with the bundle id read.
proof fn lemma_scan_found(root: Seq<char>, names: Seq<Seq<char>>, i: int, step: Seq<Call>, c: Seq<char>)
    requires
        0 <= i < names.len(),
        ({
            let dir = path_join(root, names[i]);
            let pbx = path_join(dir, "project.pbxproj"@);
            step.len() == 3 && step[0] == (Call::IsDir { path: dir, reply: true })
                && crate::paths::name_extension(names[i]) == Some("xcodeproj"@)
                && step[1] == (Call::PathExists { path: pbx, reply: true })
                && step[2] == (Call::ReadFile { path: pbx, reply: Ok(c) })
        }),
    ensures
        xcodeproj_scan(root, names.skip(i), step, pbx_bundle_id(c)),
{
    let ns = names.skip(i);
    assert(ns[0] == names[i]);
}

/// The preferred project file under `root` was probed as `t` and gave
/// nothing: it is missing, or it exists and could not be read.
pub open spec fn pref_missed(root: Seq<char>, t: Seq<Call>) -> bool {
    let pref = path_join_all(root, seq!["ios"@, "Runner.xcodeproj"@, "project.pbxproj"@]);
    ||| t == seq![Call::PathExists { path: pref, reply: false }]
    ||| (t.len() == 2 && t[0] == (Call::PathExists { path: pref, reply: true })
        && t[1] is ReadFile && t[1]->ReadFile_path == pref && t[1]->ReadFile_reply is Err)
}

/// The probe of the preferred project file, the listing of `root` and the
/// scan of its entries make one `ios_id_search`.
proof fn lemma_ios_done(
    root: Seq<char>,
    start: Seq<Call>,
    probed: Seq<Call>,
    listed: Seq<Call>,
    end: Seq<Call>,
    nv: Seq<Seq<char>>,
    r: Option<Seq<char>>,
)
    requires
        extends(start, probed),
        extends(probed, listed),
        extends(listed, end),
        pref_missed(root, since(start, probed)),
        since(probed, listed) == seq![Call::ListDir { path: root, reply: Some(nv) }],
        xcodeproj_scan(root, nv, since(listed, end), r),
    ensures
        ios_id_search(root, since(start, end), r),
{
    lemma_since_prefix(start, probed, listed);
    lemma_since_prefix(start, listed, end);
    let t = since(start, end);
    let k = since(start, probed).len() as int;
    assert(t[0] == since(start, probed)[0]);
    if k == 2 {
        assert(t[1] == since(start, probed)[1]);
    }
    assert(t[k] == since(start, listed)[k]);
    assert(since(start, listed)[k] == since(probed, listed)[0]);
    assert(t.skip(k + 1) =~= since(listed, end));
}

/// The bundle id of an iOS project: `ios/Runner.xcodeproj/project.pbxproj`
/// first, else the first `*.xcodeproj` of `root` holding a `project.pbxproj`.
pub fn detect_ios_bundle_id<R: Runner>(runner: &mut Session<R>, root: &str) -> (r: Option<String>)
    ensures
        reads_only(old(runner).calls(), final(runner).calls()),
        r matches Some(id) ==> exists|content: Seq<char>| Some(id@) == #[trigger] pbx_bundle_id(content),
        ios_id_search(root@, since(old(runner).calls(), final(runner).calls()), opt_view(r)),
{
    let ghost start = runner.calls();
    let pref_parts = ["ios", "Runner.xcodeproj", "project.pbxproj"];
    assert(pref_parts@.map_values(|s: &str| s@) =~= seq!["ios"@, "Runner.xcodeproj"@, "project.pbxproj"@]);
    let preferred = join_all_exec(root, &pref_parts);
    let pref_exists = runner.path_exists(preferred.as_str());
    if pref_exists {
        let read = runner.read_file(preferred.as_str());
        if let Ok(content) = read {
            let r = parse_bundle_id_from_pbxproj(content.as_str());
            proof {
                let t = since(start, runner.calls());
                assert(t.len() == 2);
            }
            return r;
        }
        proof {
            assert(since(start, runner.calls()) =~= seq![
                Call::PathExists { path: preferred@, reply: true },
                Call::ReadFile { path: preferred@, reply: crate::session::read_reply(read) },
            ]);
        }
    } else {
        proof {
            assert(since(start, runner.calls()) =~= seq![Call::PathExists { path: preferred@, reply: false }]);
        }
    }
    let ghost probed = runner.calls();
    let listing = runner.list_dir(root);
    let ghost listed = runner.calls();
    proof {
        lemma_since_prefix(start, probed, listed);
        assert(since(start, probed).len() == (if pref_exists { 2int } else { 1int }));
        assert(pref_missed(root@, since(start, probed)));
        assert(since(probed, listed) =~= seq![Call::ListDir { path: root@, reply: crate::session::opt_names(listing) }]);
    }
    let names = match listing {
        Some(n) => n,
        None => {
            proof {
                let t = since(start, runner.calls());
                let k = since(start, probed).len() as int;
                assert(t[k] == since(probed, listed)[0]);
                assert(t[0] == since(start, probed)[0]);
                if pref_exists {
                    assert(t[1] == since(start, probed)[1]);
                }
            }
            return None;
        },
    };
    let ghost nv = crate::paths::string_views(names@);
    proof {
        assert forall|tail: Seq<Call>, rr: Option<Seq<char>>| #[trigger] xcodeproj_scan(root@, nv.skip(0), tail, rr)
            implies xcodeproj_scan(root@, nv, since(listed, runner.calls()) + tail, rr) by {
            assert(nv.skip(0) =~= nv);
            assert(since(listed, runner.calls()) + tail =~= tail);
        }
    }
    let mut i: usize = 0;
    while i < names.len()
        invariant
            reads_only(old(runner).calls(), runner.calls()),
            start == old(runner).calls(),
            extends(start, probed),
            extends(probed, listed),
            pref_missed(root@, since(start, probed)),
            since(probed, listed) == seq![Call::ListDir { path: root@, reply: Some(nv) }],
            extends(listed, runner.calls()),
            i <= names@.len(),
            nv == crate::paths::string_views(names@),
            nv.len() == names@.len(),
            forall|tail: Seq<Call>, rr: Option<Seq<char>>| #[trigger] xcodeproj_scan(root@, nv.skip(i as int), tail, rr)
                ==> xcodeproj_scan(root@, nv, since(listed, runner.calls()) + tail, rr),
        decreases names.len() - i,
    {
        let ghost before = runner.calls();
        let path = join_path(root, names[i].as_str());
        assert(nv[i as int] == names@[i as int]@);
        let is_dir = runner.is_dir(path.as_str());
        let mut matched = false;
        if is_dir {
            if let Some(ext) = crate::paths::extension_of(names[i].as_str()) {
                if str_eq(ext.as_str(), "xcodeproj") {
                    matched = true;
                }
            }
        }
        if matched {
            let pbxproj = join_path(path.as_str(), "project.pbxproj");
            if runner.path_exists(pbxproj.as_str()) {
                let read = runner.read_file(pbxproj.as_str());
                if let Ok(content) = read {
                    let r = parse_bundle_id_from_pbxproj(content.as_str());
                    proof {
                        let step = since(before, runner.calls());
                        lemma_scan_found(root@, nv, i as int, step, content@);
                        lemma_since_prefix(listed, before, runner.calls());
                        assert(since(listed, runner.calls()) =~= since(listed, before) + step);
                        assert(since(listed, before) + step =~= since(listed, before) + step + Seq::<Call>::empty());
                        assert(xcodeproj_scan(root@, nv.skip(i as int), step, opt_view(r)));
                        assert(xcodeproj_scan(root@, nv, since(listed, before) + step, opt_view(r)));
                    }
                    proof {
                        lemma_ios_done(root@, start, probed, listed, runner.calls(), nv, opt_view(r));
                    }
                    return r;
                }
            }
        }
        proof {
            let step = since(before, runner.calls());
            lemma_since_prefix(listed, before, runner.calls());
            assert(since(listed, runner.calls()) =~= since(listed, before) + step);
            assert forall|tail: Seq<Call>, rr: Option<Seq<char>>| #[trigger] xcodeproj_scan(root@, nv.skip(i + 1), tail, rr)
                implies xcodeproj_scan(root@, nv, since(listed, runner.calls()) + tail, rr) by {
                lemma_scan_step(root@, nv, i as int, step, tail, rr);
                assert(since(listed, before) + (step + tail) =~= since(listed, runner.calls()) + tail);
            }
        }
        i = i + 1;
    }
    proof {
        assert(nv.skip(i as int) =~= Seq::<Seq<char>>::empty());
        assert(xcodeproj_scan(root@, nv.skip(i as int), Seq::<Call>::empty(), None));
        assert(since(listed, runner.calls()) + Seq::<Call>::empty() =~= since(listed, runner.calls()));
        lemma_ios_done(root@, start, probed, listed, runner.calls(), nv, None);
    }
    None
}

/// Each identifier of `info` is one that the project's files declare: the
/// Android id as `android_id_found` says, the bundle id as a
/// `PRODUCT_BUNDLE_IDENTIFIER` of some `project.pbxproj`, and a non-empty
/// Flutter name as the `name` of some `pubspec.yaml`.
pub open spec fn info_sourced(info: AppInfo) -> bool {
    &&& info.android_package_id matches Some(id) ==> android_id_found(id@)
    &&& info.ios_bundle_id matches Some(id) ==> exists|c: Seq<char>| Some(id@) == #[trigger] pbx_bundle_id(c)
    &&& info.flutter_name@.len() > 0 ==> exists|t: Seq<char>| Some(info.flutter_name@) == #[trigger] yaml_name_field(t)
}

/// What a detected `AppInfo` carries for its project type: identifiers only
/// for mobile projects (the Flutter name only for Flutter, no bundle id for
/// Android, no Android id for iOS), each declared by the project's files.
pub open spec fn detected_shape(info: AppInfo) -> bool {
    &&& !(info.project_type is Flutter || info.project_type is Android || info.project_type is Ios)
        ==> info.flutter_name@.len() == 0 && info.android_package_id is None && info.ios_bundle_id is None
    &&& info.project_type is Android ==> info.ios_bundle_id is None && info.flutter_name@.len() == 0
    &&& info.project_type is Ios ==> info.android_package_id is None && info.flutter_name@.len() == 0
    &&& info_sourced(info)
}

/// The Flutter name that a read `name` field gives: the field, or empty.
pub open spec fn name_or_empty(name: Option<Seq<char>>) -> Seq<char> {
    match name {
        Some(n) => n,
        None => Seq::empty(),
    }
}

/// What reading the identifiers of the Flutter project at `root` asked
/// (`t`) and found (`info`): the read of `pubspec.yaml`, the Android id search
/// in `android/` (`flutter_android_full`), then the bundle id search, one
/// after the other.
pub open spec fn flutter_ids(root: Seq<char>, t: Seq<Call>, info: AppInfo) -> bool {
    exists|a: int, b: int, n: Option<Seq<char>>|
        #![trigger pubspec_read(root, t.take(a), n), t.subrange(a, b)]
        0 <= a <= b <= t.len()
        && pubspec_read(root, t.take(a), n)
        && info.flutter_name@ == name_or_empty(n)
        && flutter_android_full(path_join(root, "android"@), t.subrange(a, b), opt_view(info.android_package_id))
        && ios_id_search(root, t.skip(b), opt_view(info.ios_bundle_id))
}

/// What building the `AppInfo` of a project of type `pt` at `root` asked
/// (`t`) and gave (`info`): for Flutter `flutter_ids`; for Android the Android
/// id search in `root` (`android_id_full`); for iOS the bundle id search in `root`; for any other
/// type no request and no identifier.
pub open spec fn app_info_trace(root: Seq<char>, pt: ProjectType, t: Seq<Call>, info: AppInfo) -> bool {
    &&& info.project_type == pt
    &&& match pt {
        ProjectType::Flutter => flutter_ids(root, t, info),
        ProjectType::Android => info.flutter_name@.len() == 0 && info.ios_bundle_id is None
            && android_id_full(root, t, opt_view(info.android_package_id)),
        ProjectType::Ios => info.flutter_name@.len() == 0 && info.android_package_id is None
            && ios_id_search(root, t, opt_view(info.ios_bundle_id)),
        _ => t.len() == 0 && info.flutter_name@.len() == 0 && info.android_package_id is None && info.ios_bundle_id is None,
    }
}

/// A Flutter project's name and app identifiers.
pub fn detect_flutter_project<R: Runner>(runner: &mut Session<R>, root: &str) -> (info: AppInfo)
    ensures
        reads_only(old(runner).calls(), final(runner).calls()),
        info.project_type == ProjectType::Flutter,
        info_sourced(info),
        flutter_ids(root@, since(old(runner).calls(), final(runner).calls()), info),
{
    let ghost start = runner.calls();
    let name = read_flutter_name(runner, root);
    let ghost named = runner.calls();
    let flutter_name = match name {
        Some(n) => n,
        None => String::new(),
    };
    let android_id = detect_android_id_in_flutter_project(runner, root);
    let ghost searched = runner.calls();
    let bundle_id = detect_ios_bundle_id(runner, root);
    let info = AppInfo::new(flutter_name, ProjectType::Flutter, android_id, bundle_id);
    proof {
        lemma_since_prefix(start, named, searched);
        lemma_since_prefix(start, searched, runner.calls());
        let t = since(start, runner.calls());
        let a = since(start, named).len() as int;
        let b = since(start, searched).len() as int;
        assert(t.take(a) =~= since(start, named));
        assert(t.subrange(a, b) =~= since(named, searched));
        assert(t.skip(b) =~= since(searched, runner.calls()));
        assert(info.flutter_name@ == name_or_empty(opt_view(name)));
        assert(pubspec_read(root@, t.take(a), opt_view(name)));
    }
    info
}

/// The `AppInfo` for a detected project root and type: the Flutter name and the
/// app identifiers for mobile projects, nothing else for the others.
pub fn build_app_info<R: Runner>(runner: &mut Session<R>, root: &str, pt: &ProjectType) -> (info: AppInfo)
    ensures
        reads_only(old(runner).calls(), final(runner).calls()),
        info.project_type == *pt,
        !(*pt is Flutter || *pt is Android || *pt is Ios) ==> info.flutter_name@.len() == 0 && info.android_package_id is None && info.ios_bundle_id is None,
        *pt == ProjectType::Android ==> info.ios_bundle_id is None && info.flutter_name@.len() == 0,
        *pt == ProjectType::Ios ==> info.android_package_id is None && info.flutter_name@.len() == 0,
        detected_shape(info),
        app_info_trace(root@, *pt, since(old(runner).calls(), final(runner).calls()), info),
{
    match pt {
        ProjectType::Flutter => detect_flutter_project(runner, root),
        ProjectType::Android => {
            let android_id = detect_android_id(runner, root);
            AppInfo::new(String::new(), ProjectType::Android, android_id, None)
        },
        ProjectType::Ios => {
            let bundle_id = detect_ios_bundle_id(runner, root);
            AppInfo::new(String::new(), ProjectType::Ios, None, bundle_id)
        },
        other => {
            assert(since(old(runner).calls(), runner.calls()) =~= Seq::<Call>::empty());
            AppInfo::new(String::new(), *other, None, None)
        },
    }
}

/// `t` holds, as one contiguous run of requests, a classification of `dir`
/// as `pt`.
pub open spec fn classified_in(t: Seq<Call>, dir: Seq<char>, pt: ProjectType) -> bool {
    exists|i: int, j: int| 0 <= i <= j <= t.len() && #[trigger] classify_trace(dir, t.subrange(i, j), pt)
}

/// The ancestor `l` levels above `start` exists and `t` classified it as no
/// project.
pub open spec fn unknown_at(start: Seq<char>, l: nat, t: Seq<Call>) -> bool {
    crate::commands::keystore::ancestor(start, l) is Some
        && classified_in(t, crate::commands::keystore::ancestor(start, l)->0, ProjectType::Unknown)
}

/// `root` is the ancestor `k` levels above `start`, or that ancestor's parent
/// when `t` classified the ancestor itself as no project.
pub open spec fn root_at(start: Seq<char>, k: nat, root: Seq<char>, t: Seq<Call>) -> bool {
    &&& k < MAX_LEVELS
    &&& crate::commands::keystore::ancestor(start, k) is Some
    &&& (crate::commands::keystore::ancestor(start, k) == Some(root)
        || (crate::paths::path_parent(crate::commands::keystore::ancestor(start, k)->0) == Some(root)
            && unknown_at(start, k, t)))
}

/// Every one of the first `MAX_LEVELS` ancestors of `start` that exists was
/// classified by `t` as no project.
pub open spec fn none_above(start: Seq<char>, t: Seq<Call>) -> bool {
    forall|l: nat| l < MAX_LEVELS && crate::commands::keystore::ancestor(start, l) is Some ==> #[trigger] unknown_at(start, l, t)
}

/// At the top of the file system every remaining ancestor is gone, so the
/// ancestors classified so far are all there are.
proof fn lemma_none_above_at_top(start: Seq<char>, level: nat, t: Seq<Call>)
    requires
        forall|l: nat| l <= level ==> unknown_at(start, l, t),
        crate::commands::keystore::ancestor(start, level + 1) is None,
    ensures
        none_above(start, t),
{
    assert forall|l: nat| l < MAX_LEVELS && crate::commands::keystore::ancestor(start, l) is Some
        implies #[trigger] unknown_at(start, l, t) by {
        if l > level {
            lemma_ancestor_gone(start, level + 1, l);
        }
    }
}

proof fn lemma_ancestor_gone(p: Seq<char>, a: nat, b: nat)
    requires
        a <= b,
        crate::commands::keystore::ancestor(p, a) is None,
    ensures
        crate::commands::keystore::ancestor(p, b) is None,
    decreases b - a,
{
    if a < b {
        lemma_ancestor_gone(p, a, (b - 1) as nat);
    }
}

/// What a detection from `start` that asked `t` and found `info` tells: a
/// project was found above `start` with its type, or nothing was.
pub open spec fn detect_outcome(start: Seq<char>, info: AppInfo, t: Seq<Call>) -> bool {
    &&& detected_shape(info)
    &&& info.project_type != ProjectType::Unknown ==> exists|root: Seq<char>| #[trigger] found_above(start, root, info.project_type, t)
    &&& info.project_type == ProjectType::Unknown ==> none_above(start, t)
}

/// Where `detect_with_root` found the project of type `pt` above `start`,
/// given its requests `t`: at `root`, one of the first `MAX_LEVELS`
/// ancestors of `start` or the parent of one (an `android/` directory), which
/// `t` classifies as `pt`, every nearer ancestor having been classified as no
/// project.
pub open spec fn found_above(start: Seq<char>, root: Seq<char>, pt: ProjectType, t: Seq<Call>) -> bool {
    exists|k: nat|
        #[trigger] root_at(start, k, root, t) && classified_in(t, root, pt) && forall|l: nat| l < k ==> unknown_at(start, l, t)
}

proof fn lemma_classified_here(start: Seq<Call>, before: Seq<Call>, after: Seq<Call>, dir: Seq<char>, pt: ProjectType)
    requires
        extends(start, before),
        extends(before, after),
        classify_trace(dir, since(before, after), pt),
    ensures
        classified_in(since(start, after), dir, pt),
{
    crate::session::lemma_since_prefix(start, before, after);
    let t = since(start, after);
    let i = since(start, before).len() as int;
    assert(t.subrange(i, t.len() as int) =~= since(before, after));
}

proof fn lemma_classified_kept(start: Seq<Call>, mid: Seq<Call>, end: Seq<Call>, dir: Seq<char>, pt: ProjectType)
    requires
        extends(start, mid),
        extends(mid, end),
        classified_in(since(start, mid), dir, pt),
    ensures
        classified_in(since(start, end), dir, pt),
{
    crate::session::lemma_since_prefix(start, mid, end);
    let a = since(start, mid);
    let b = since(start, end);
    let (i, j) = choose|i: int, j: int| 0 <= i <= j <= a.len() && #[trigger] classify_trace(dir, a.subrange(i, j), pt);
    assert(b.subrange(i, j) =~= a.subrange(i, j));
}

proof fn lemma_unknown_kept(s: Seq<char>, l: nat, start: Seq<Call>, mid: Seq<Call>, end: Seq<Call>)
    requires
        extends(start, mid),
        extends(mid, end),
        unknown_at(s, l, since(start, mid)),
    ensures
        unknown_at(s, l, since(start, end)),
{
    lemma_classified_kept(start, mid, end, crate::commands::keystore::ancestor(s, l)->0, ProjectType::Unknown);
}

/// What the walk up from `start` that asked `t` found: `info`, at `root`.
/// With no root nothing was found, every ancestor looked at was classified as
/// no project, and `info` is empty. With a root, the project there is the one
/// `found_above` says, and the requests end with the building of its
/// `AppInfo` (`app_info_trace`), which `info` is.
pub open spec fn detection(start: Seq<char>, t: Seq<Call>, info: AppInfo, root: Option<Seq<char>>) -> bool {
    &&& detected_shape(info)
    &&& (root is None <==> info.project_type == ProjectType::Unknown)
    &&& root is None ==> info.flutter_name@.len() == 0 && info.android_package_id is None && info.ios_bundle_id is None
        && none_above(start, t)
    &&& root matches Some(rt) ==> exists|k: int|
        0 <= k <= t.len() && found_above(start, rt, info.project_type, t.take(k))
            && #[trigger] app_info_trace(rt, info.project_type, t.skip(k), info)
}

/// A project found above `start` by the requests up to `mid`, whose `AppInfo`
/// was then built by the requests up to `end`.
proof fn lemma_build_kept(
    s: Seq<char>,
    root: Seq<char>,
    pt: ProjectType,
    info: AppInfo,
    start: Seq<Call>,
    mid: Seq<Call>,
    end: Seq<Call>,
)
    requires
        extends(start, mid),
        extends(mid, end),
        found_above(s, root, pt, since(start, mid)),
        app_info_trace(root, pt, since(mid, end), info),
    ensures
        exists|k: int| 0 <= k <= since(start, end).len() && found_above(s, root, pt, since(start, end).take(k))
            && #[trigger] app_info_trace(root, info.project_type, since(start, end).skip(k), info),
{
    lemma_since_prefix(start, mid, end);
    let k = since(start, mid).len() as int;
    assert(since(start, end).take(k) == since(start, mid));
    assert(since(start, end).skip(k) == since(mid, end));
}

/// Detects projects from the files on disk, through a runner.
#[derive(Debug, Clone, Copy)]
pub struct AppDetector;

impl AppDetector {
    pub fn new() -> (d: Self) {
        AppDetector
    }

    /// The project that owns `start_dir`; see `detect_with_root`.
    pub fn detect<R: Runner>(&self, runner: &mut Session<R>, start_dir: &str) -> (info: AppInfo)
        ensures
            exists|root: Option<Seq<char>>| #[trigger] detection(start_dir@, since(old(runner).calls(), final(runner).calls()), info, root),
            reads_only(old(runner).calls(), final(runner).calls()),
            detected_shape(info),
            info.project_type != ProjectType::Unknown ==> exists|root: Seq<char>|
                #[trigger] found_above(start_dir@, root, info.project_type, since(old(runner).calls(), final(runner).calls())),
            info.project_type == ProjectType::Unknown ==> none_above(start_dir@, since(old(runner).calls(), final(runner).calls())),
    {
        let (info, root) = self.detect_with_root(runner, start_dir);
        proof {
            if info.project_type != ProjectType::Unknown {
                assert(found_above(start_dir@, root->0@, info.project_type, since(old(runner).calls(), runner.calls())));
            }
        }
        info
    }

    /// Walks up from `start_dir` (at most `MAX_LEVELS` directories) and returns
    /// the first directory that classifies as a project, with its `AppInfo`.
    /// Inside an `android/` directory of a pure-Android project the project
    /// root one level up is taken.
    #[verifier::spinoff_prover]
    #[verifier::rlimit(60)]
    pub fn detect_with_root<R: Runner>(&self, runner: &mut Session<R>, start_dir: &str) -> (r: (AppInfo, Option<String>))
        ensures
            reads_only(old(runner).calls(), final(runner).calls()),
            r.1 is None ==> r.0.project_type == ProjectType::Unknown && r.0.android_package_id is None
                && r.0.ios_bundle_id is None && r.0.flutter_name@.len() == 0,
            r.1 is Some ==> r.0.project_type != ProjectType::Unknown,
            detected_shape(r.0),
            r.1 matches Some(root) ==> found_above(start_dir@, root@, r.0.project_type, since(old(runner).calls(), final(runner).calls())),
            r.1 is None ==> none_above(start_dir@, since(old(runner).calls(), final(runner).calls())),
            detection(start_dir@, since(old(runner).calls(), final(runner).calls()), r.0, opt_view(r.1)),
    {
        let ghost start = runner.calls();
        let mut current: String = start_dir.to_owned();
        let mut level: usize = 0;
        while level < MAX_LEVELS
            invariant
                reads_only(old(runner).calls(), runner.calls()),
                start == old(runner).calls(),
                level <= MAX_LEVELS,
                crate::commands::keystore::ancestor(start_dir@, level as nat) == Some(current@),
                forall|l: nat| l < level ==> unknown_at(start_dir@, l, since(start, runner.calls())),
            ensures
                reads_only(old(runner).calls(), runner.calls()),
                none_above(start_dir@, since(start, runner.calls())),
            decreases MAX_LEVELS - level,
        {
            let ghost before = runner.calls();
            let pt = classify_dir(runner, current.as_str());
            let ghost after = runner.calls();
            proof {
                lemma_classified_here(start, before, after, current@, pt);
                assert forall|l: nat| l < level implies unknown_at(start_dir@, l, since(start, after)) by {
                    lemma_unknown_kept(start_dir@, l, start, before, after);
                }
            }
            if pt != ProjectType::Unknown {
                proof {
                    assert(root_at(start_dir@, level as nat, current@, since(start, after)));
                    assert(found_above(start_dir@, current@, pt, since(start, after)));
                }
                let info = build_app_info(runner, current.as_str(), &pt);
                proof {
                    lemma_build_kept(start_dir@, current@, pt, info, start, after, runner.calls());
                    lemma_classified_kept(start, after, runner.calls(), current@, pt);
                    assert forall|l: nat| l < level implies unknown_at(start_dir@, l, since(start, runner.calls())) by {
                        lemma_unknown_kept(start_dir@, l, start, after, runner.calls());
                    }
                    assert(root_at(start_dir@, level as nat, current@, since(start, runner.calls())));
                }
                return (info, Some(current));
            }
            proof {
                assert(unknown_at(start_dir@, level as nat, since(start, after)));
            }
            let app = join_path(current.as_str(), "app");
            let here_gradle = exists_in(runner, current.as_str(), "build.gradle.kts") || exists_in(runner, current.as_str(), "build.gradle");
            let app_gradle = exists_in(runner, app.as_str(), "build.gradle.kts") || exists_in(runner, app.as_str(), "build.gradle");
            let ghost probed = runner.calls();
            proof {
                assert forall|l: nat| l <= level implies unknown_at(start_dir@, l, since(start, probed)) by {
                    lemma_unknown_kept(start_dir@, l, start, after, probed);
                }
            }
            if here_gradle && !app_gradle {
                if let Some(parent) = crate::paths::parent_of(current.as_str()) {
                    let ppt = classify_dir(runner, parent.as_str());
                    let ghost classified = runner.calls();
                    if ppt != ProjectType::Unknown {
                        proof {
                            lemma_classified_here(start, probed, classified, parent@, ppt);
                            assert forall|l: nat| l <= level implies unknown_at(start_dir@, l, since(start, classified)) by {
                                lemma_unknown_kept(start_dir@, l, start, probed, classified);
                            }
                            assert(root_at(start_dir@, level as nat, parent@, since(start, classified)));
                            assert(found_above(start_dir@, parent@, ppt, since(start, classified)));
                        }
                        let info = build_app_info(runner, parent.as_str(), &ppt);
                        proof {
                            lemma_build_kept(start_dir@, parent@, ppt, info, start, classified, runner.calls());
                            lemma_classified_here(start, probed, classified, parent@, ppt);
                            lemma_classified_kept(start, classified, runner.calls(), parent@, ppt);
                            assert forall|l: nat| l < level + 1 implies unknown_at(start_dir@, l, since(start, runner.calls())) by {
                                lemma_unknown_kept(start_dir@, l, start, probed, runner.calls());
                            }
                            assert(unknown_at(start_dir@, level as nat, since(start, runner.calls())));
                            assert(root_at(start_dir@, level as nat, parent@, since(start, runner.calls())));
                        }
                        return (info, Some(parent));
                    }
                }
            }
            let ghost checked = runner.calls();
            proof {
                assert forall|l: nat| l <= level implies unknown_at(start_dir@, l, since(start, checked)) by {
                    lemma_unknown_kept(start_dir@, l, start, probed, checked);
                }
            }
            match crate::paths::parent_of(current.as_str()) {
                Some(p) => {
                    if str_eq(p.as_str(), current.as_str()) {
                        proof { self::lemma_none_above_at_top(start_dir@, level as nat, since(start, checked)); }
                        break;
                    }
                    current = p;
                },
                None => {
                    proof { self::lemma_none_above_at_top(start_dir@, level as nat, since(start, checked)); }
                    break;
                },
            }
            level = level + 1;
        }
        let none = AppInfo::new(String::new(), ProjectType::Unknown, None, None);
        proof {
            assert(none.flutter_name@ =~= Seq::<char>::empty());
        }
        (none, None)
    }

    /// Recursively discovers every project rooted at or below `start_dir`: the
    /// scan root defers to the projects below it, deeper directories are
    /// recorded when they classify and not descended into further. Bounded by
    /// `MAX_DISCOVERY_DEPTH`; skips hidden, dependency, build and VCS
    /// directories. Results are sorted by path.
    pub fn discover_projects<R: Runner>(&self, runner: &mut Session<R>, start_dir: &str) -> (r: Vec<(AppInfo, String)>)
        ensures
            reads_only(old(runner).calls(), final(runner).calls()),
            forall|i: int, j: int| 0 <= i < j < r@.len() ==> crate::paths::path_le(#[trigger] r@[i].1@, #[trigger] r@[j].1@),
            forall|i: int| 0 <= i < r@.len() ==> (#[trigger] r@[i]).0.project_type != ProjectType::Unknown,
            forall|i: int| 0 <= i < r@.len() ==> entry_classified(since(old(runner).calls(), final(runner).calls()), #[trigger] r@[i]),
            exists|keys: Seq<ProjectKey>|
                #[trigger] disc_trace(start_dir@, 0, true, since(old(runner).calls(), final(runner).calls()), keys)
                && discovered_keys(r@).to_multiset() == keys.to_multiset(),
            (r@.len() == 1 && r@[0].1@ == start_dir@)
                || forall|i: int| 0 <= i < r@.len() ==> found_below(start_dir@, (#[trigger] r@[i]).1@, MAX_DISCOVERY_DEPTH as int),
    {
        let ghost base = runner.calls();
        let mut found: Vec<(AppInfo, String)> = Vec::new();
        discover_recursive(runner, start_dir, 0, &mut found, true, Ghost(base));
        let ghost keys = discovered_keys(found@);
        assert(discovered_keys(found@).skip(0) =~= keys);
        let ghost t = since(base, runner.calls());
        let ghost keep = |e: (AppInfo, String)| e.0.project_type != ProjectType::Unknown && entry_classified(t, e);
        let mut sorted: Vec<(AppInfo, String)> = Vec::new();
        proof {
            broadcast use vstd::multiset::group_multiset_axioms, vstd::seq_lib::group_to_multiset_ensures;
            assert(discovered_keys(sorted@) =~= Seq::<ProjectKey>::empty());
            assert(discovered_keys(sorted@).to_multiset().add(discovered_keys(found@).to_multiset()) =~= keys.to_multiset());
        }
        while found.len() > 0
            invariant
                reads_only(old(runner).calls(), runner.calls()),
                t == since(old(runner).calls(), runner.calls()),
                keep == (|e: (AppInfo, String)| e.0.project_type != ProjectType::Unknown && entry_classified(t, e)),
                forall|i: int, j: int| 0 <= i < j < sorted@.len() ==> crate::paths::path_le(#[trigger] sorted@[i].1@, #[trigger] sorted@[j].1@),
                forall|i: int| 0 <= i < sorted@.len() ==> keep(#[trigger] sorted@[i]),
                forall|i: int| 0 <= i < found@.len() ==> keep(#[trigger] found@[i]),
                discovered_keys(sorted@).to_multiset().add(discovered_keys(found@).to_multiset()) == keys.to_multiset(),
            decreases found@.len(),
        {
            let ghost f0 = found@;
            let item = found.pop().unwrap();
            assert(keep(item));
            proof {
                assert(discovered_keys(f0) =~= discovered_keys(found@).push((item.0.project_type, item.1@)));
                vstd::seq_lib::to_multiset_build(discovered_keys(found@), (item.0.project_type, item.1@));
            }
            insert_by_path(&mut sorted, item, Ghost(keep));
            proof {
                broadcast use vstd::multiset::group_multiset_axioms;
                let a = discovered_keys(sorted@).to_multiset();
                let b = discovered_keys(found@).to_multiset();
                assert(a.add(b) =~= keys.to_multiset());
            }
        }
        proof {
            broadcast use vstd::multiset::group_multiset_axioms, vstd::seq_lib::group_to_multiset_ensures;
            assert(discovered_keys(found@) =~= Seq::<ProjectKey>::empty());
            assert(discovered_keys(sorted@).to_multiset() =~= keys.to_multiset());
        }
        proof {
            assert forall|i: int| 0 <= i < sorted@.len() implies (#[trigger] sorted@[i]).0.project_type != ProjectType::Unknown
                && entry_classified(t, sorted@[i]) by {
                assert(keep(sorted@[i]));
            }
        }
        proof {
            broadcast use vstd::multiset::group_multiset_axioms, vstd::seq_lib::group_to_multiset_ensures;
            lemma_disc_reports(start_dir@, 0, true, t, keys);
            let sk = discovered_keys(sorted@);
            assert forall|i: int| 0 <= i < sk.len() implies keys.contains(#[trigger] sk[i]) by {
                assert(sk.contains(sk[i]));
                assert(sk.to_multiset().count(sk[i]) > 0);
            }
            assert(sk.to_multiset().len() == sk.len());
            assert(keys.to_multiset().len() == keys.len());
            if keys.len() == 1 && keys[0].1 == start_dir@ {
                assert(sk.len() == 1);
                assert(keys.contains(sk[0]));
                assert(sk[0] == keys[0]);
                assert(sorted@[0].1@ == sk[0].1);
            } else {
                assert forall|i: int| 0 <= i < sorted@.len() implies found_below(start_dir@, (#[trigger] sorted@[i]).1@, MAX_DISCOVERY_DEPTH as int) by {
                    assert(keys.contains(sk[i]));
                    let k = choose|k: int| 0 <= k < keys.len() && keys[k] == sk[i];
                    assert(found_below(start_dir@, keys[k].1, MAX_DISCOVERY_DEPTH - 0));
                    assert(sk[i].1 == sorted@[i].1@);
                }
            }
        }
        sorted
    }
}

/// Inserts `item` into the path-ordered `v`.
fn insert_by_path(v: &mut Vec<(AppInfo, String)>, item: (AppInfo, String), Ghost(keep): Ghost<spec_fn((AppInfo, String)) -> bool>)
    requires
        forall|i: int, j: int| 0 <= i < j < old(v)@.len() ==> crate::paths::path_le(#[trigger] old(v)@[i].1@, #[trigger] old(v)@[j].1@),
        forall|i: int| 0 <= i < old(v)@.len() ==> keep(#[trigger] old(v)@[i]),
        keep(item),
    ensures
        forall|i: int, j: int| 0 <= i < j < final(v)@.len() ==> crate::paths::path_le(#[trigger] final(v)@[i].1@, #[trigger] final(v)@[j].1@),
        forall|i: int| 0 <= i < final(v)@.len() ==> keep(#[trigger] final(v)@[i]),
        final(v)@.len() == old(v)@.len() + 1,
        discovered_keys(final(v)@).to_multiset() == discovered_keys(old(v)@).to_multiset().insert((item.0.project_type, item.1@)),
{
    let ghost before = v@;
    let mut p: usize = 0;
    while p < v.len() && crate::paths::path_le_exec(v[p].1.as_str(), item.1.as_str())
        invariant
            p <= v@.len(),
            v@ == before,
            forall|i: int| 0 <= i < p ==> crate::paths::path_le(#[trigger] before[i].1@, item.1@),
        decreases v.len() - p,
    {
        p = p + 1;
    }
    let ghost iv = item.1@;
    proof {
        if p < before.len() {
            crate::paths::lemma_comps_le_total(path_components(before[p as int].1@), path_components(iv));
        }
    }
    let ghost key = (item.0.project_type, item.1@);
    v.insert(p, item);
    proof {
        let after = v@;
        assert(after =~= before.insert(p as int, after[p as int]));
        assert(discovered_keys(after) =~= discovered_keys(before).insert(p as int, key));
        vstd::seq_lib::to_multiset_insert(discovered_keys(before), p as int, key);
        assert forall|i: int, j: int| 0 <= i < j < after.len() implies crate::paths::path_le(#[trigger] after[i].1@, #[trigger] after[j].1@) by {
            if i < p && j < p {
                assert(after[i] == before[i] && after[j] == before[j]);
            } else if i < p && j == p {
                assert(after[i] == before[i]);
            } else if i < p && j > p {
                assert(after[i] == before[i] && after[j] == before[j - 1]);
                if j - 1 > p {
                    crate::paths::lemma_comps_le_transitive(path_components(iv), path_components(before[p as int].1@), path_components(before[j - 1].1@));
                }
                crate::paths::lemma_comps_le_transitive(path_components(before[i].1@), path_components(iv), path_components(before[j - 1].1@));
            } else if i == p {
                assert(after[j] == before[j - 1]);
                if j - 1 > p {
                    crate::paths::lemma_comps_le_transitive(path_components(iv), path_components(before[p as int].1@), path_components(before[j - 1].1@));
                }
            } else {
                assert(after[i] == before[i - 1] && after[j] == before[j - 1]);
            }
        }
        assert forall|i: int| 0 <= i < after.len() implies keep(#[trigger] after[i]) by {
            if i < p {
                assert(after[i] == before[i]);
            } else if i > p {
                assert(after[i] == before[i - 1]);
            }
        }
    }
}

/// The type and root of a discovered project.
pub type ProjectKey = (ProjectType, Seq<char>);

/// The keys of discovered entries.
pub open spec fn discovered_keys(v: Seq<(AppInfo, String)>) -> Seq<ProjectKey> {
    v.map_values(|e: (AppInfo, String)| (e.0.project_type, e.1@))
}

/// What discovery at `dir`, `depth` levels below the scan root, asks (`t`)
/// and records (`out`): `dir` is classified; the scan root goes on to its
/// children; below it a directory that classifies is recorded (its details
/// read by further requests) and not entered, one that does not goes on to
/// its children.
pub open spec fn disc_trace(dir: Seq<char>, depth: int, scan_root: bool, t: Seq<Call>, out: Seq<ProjectKey>) -> bool
    decreases MAX_DISCOVERY_DEPTH + 1 - depth, 2int,
{
    if depth > MAX_DISCOVERY_DEPTH || depth < 0 {
        false
    } else {
        exists|n: int, pt: ProjectType|
            #![trigger classify_trace(dir, t.take(n), pt)]
            0 <= n <= t.len() && classify_trace(dir, t.take(n), pt)
            && if scan_root {
                children_trace(dir, depth, pt, true, t.skip(n), out)
            } else if pt != ProjectType::Unknown {
                out == seq![(pt, dir)]
            } else {
                children_trace(dir, depth, ProjectType::Unknown, false, t.skip(n), out)
            }
    }
}

/// Discovery among the children of `dir` (`t`, recording `out`): at the
/// depth limit none; otherwise `dir` is listed and each listed name is
/// looked at in turn (`child_trace`). A scan root that is a project of type
/// `ppt` is recorded itself only when nothing was found below it.
pub open spec fn children_trace(dir: Seq<char>, depth: int, ppt: ProjectType, scan_root: bool, t: Seq<Call>, out: Seq<ProjectKey>) -> bool
    decreases MAX_DISCOVERY_DEPTH + 1 - depth, 1int,
{
    let own: Seq<ProjectKey> = if scan_root && ppt != ProjectType::Unknown { seq![(ppt, dir)] } else { Seq::empty() };
    if depth > MAX_DISCOVERY_DEPTH || depth < 0 {
        false
    } else if depth == MAX_DISCOVERY_DEPTH {
        out == own
    } else if t.len() == 0 {
        false
    } else {
        match t[0] {
            Call::ListDir { path, reply } => path == dir && match reply {
                None => out == own,
                Some(names) => exists|chunks: Seq<Seq<Call>>, outs: Seq<Seq<ProjectKey>>|
                    #![trigger chunks.flatten(), outs.flatten()]
                    chunks.len() == names.len() && outs.len() == names.len()
                    && 1 + chunks.flatten().len() <= t.len()
                    && t.subrange(1, 1 + chunks.flatten().len() as int) == chunks.flatten()
                    && out == outs.flatten() + (if outs.flatten().len() == 0 { own } else { Seq::empty() })
                    && forall|i: int| 0 <= i < names.len() ==> child_trace(dir, depth, ppt, scan_root, names[i], #[trigger] chunks[i], outs[i]),
            },
            _ => false,
        }
    }
}

/// One listed name of `dir` looked at (`c`, recording `o`): whether it is a
/// directory; a directory that is not hidden, not skipped and (below a
/// Flutter scan root) not a platform directory is discovered one level down.
pub open spec fn child_trace(dir: Seq<char>, depth: int, ppt: ProjectType, scan_root: bool, name: Seq<char>, c: Seq<Call>, o: Seq<ProjectKey>) -> bool
    decreases MAX_DISCOVERY_DEPTH + 1 - depth, 0int,
{
    let path = path_join(dir, name);
    if depth >= MAX_DISCOVERY_DEPTH || depth < 0 || c.len() == 0 {
        false
    } else {
        match c[0] {
            Call::IsDir { path: p, reply: d } => p == path && if d && !(name.len() > 0 && name[0] == '.')
                && !discovery_skip_names().contains(name)
                && !(scan_root && ppt == ProjectType::Flutter && flutter_platform_names().contains(name)) {
                disc_trace(path, depth + 1, false, c.skip(1), o)
            } else {
                c.len() == 1 && o.len() == 0
            },
            _ => false,
        }
    }
}

/// A directory name discovery goes into: not hidden and not skipped.
pub open spec fn discovery_name(n: Seq<char>) -> bool {
    !(n.len() > 0 && n[0] == '.') && !discovery_skip_names().contains(n)
}

/// `p` lies one to `max` levels below `dir` through names discovery goes
/// into.
pub open spec fn found_below(dir: Seq<char>, p: Seq<char>, max: int) -> bool {
    exists|names: Seq<Seq<char>>|
        1 <= names.len() <= max && p == #[trigger] crate::commands::purge::extras::joined_below(dir, names)
            && forall|j: int| 0 <= j < names.len() ==> discovery_name(#[trigger] names[j])
}

/// What discovery at `dir`, `depth` levels down, may record: projects of a
/// known type, either `dir` itself as the one record or each one below `dir`
/// within the depth left.
pub open spec fn disc_reports(dir: Seq<char>, depth: int, out: Seq<ProjectKey>) -> bool {
    &&& forall|i: int| 0 <= i < out.len() ==> (#[trigger] out[i]).0 != ProjectType::Unknown
    &&& (out.len() == 1 && out[0].1 == dir)
        || forall|i: int| 0 <= i < out.len() ==> found_below(dir, (#[trigger] out[i]).1, MAX_DISCOVERY_DEPTH - depth)
}

/// What holds of every record of each part holds of every record of the
/// whole.
proof fn lemma_keys_flatten(xs: Seq<Seq<ProjectKey>>, dir: Seq<char>, max: int)
    requires
        forall|k: int, j: int| 0 <= k < xs.len() && 0 <= j < xs[k].len() ==> (#[trigger] xs[k][j]).0 != ProjectType::Unknown
            && found_below(dir, xs[k][j].1, max),
    ensures
        forall|i: int| 0 <= i < xs.flatten().len() ==> (#[trigger] xs.flatten()[i]).0 != ProjectType::Unknown
            && found_below(dir, xs.flatten()[i].1, max),
    decreases xs.len(),
{
    if xs.len() > 0 {
        let rest = xs.drop_first();
        assert forall|k: int, j: int| 0 <= k < rest.len() && 0 <= j < rest[k].len() implies (#[trigger] rest[k][j]).0 != ProjectType::Unknown
            && found_below(dir, rest[k][j].1, max) by {
            assert(rest[k] == xs[k + 1]);
        }
        lemma_keys_flatten(rest, dir, max);
        let f = xs.flatten();
        assert(f == xs.first() + rest.flatten());
        assert forall|i: int| 0 <= i < f.len() implies (#[trigger] f[i]).0 != ProjectType::Unknown && found_below(dir, f[i].1, max) by {
            if i < xs.first().len() {
                assert(f[i] == xs[0][i]);
            } else {
                assert(f[i] == rest.flatten()[i - xs.first().len()]);
            }
        }
    }
}

/// Discovery records as `disc_reports` says.
pub proof fn lemma_disc_reports(dir: Seq<char>, depth: int, scan_root: bool, t: Seq<Call>, out: Seq<ProjectKey>)
    requires
        disc_trace(dir, depth, scan_root, t, out),
    ensures
        disc_reports(dir, depth, out),
    decreases MAX_DISCOVERY_DEPTH + 1 - depth, 2int,
{
    let (n, pt) = choose|n: int, pt: ProjectType|
        #![trigger classify_trace(dir, t.take(n), pt)]
        0 <= n <= t.len() && classify_trace(dir, t.take(n), pt)
        && if scan_root {
            children_trace(dir, depth, pt, true, t.skip(n), out)
        } else if pt != ProjectType::Unknown {
            out == seq![(pt, dir)]
        } else {
            children_trace(dir, depth, ProjectType::Unknown, false, t.skip(n), out)
        };
    if scan_root {
        lemma_children_reports(dir, depth, pt, true, t.skip(n), out);
    } else if pt == ProjectType::Unknown {
        lemma_children_reports(dir, depth, ProjectType::Unknown, false, t.skip(n), out);
    }
}

proof fn lemma_children_reports(dir: Seq<char>, depth: int, ppt: ProjectType, scan_root: bool, t: Seq<Call>, out: Seq<ProjectKey>)
    requires
        children_trace(dir, depth, ppt, scan_root, t, out),
    ensures
        disc_reports(dir, depth, out),
    decreases MAX_DISCOVERY_DEPTH + 1 - depth, 1int,
{
    let own: Seq<ProjectKey> = if scan_root && ppt != ProjectType::Unknown { seq![(ppt, dir)] } else { Seq::empty() };
    if depth < MAX_DISCOVERY_DEPTH {
        match t[0] {
            Call::ListDir { path, reply } => match reply {
                None => {},
                Some(names) => {
                    let (chunks, outs) = choose|chunks: Seq<Seq<Call>>, outs: Seq<Seq<ProjectKey>>|
                        #![trigger chunks.flatten(), outs.flatten()]
                        chunks.len() == names.len() && outs.len() == names.len()
                        && 1 + chunks.flatten().len() <= t.len()
                        && t.subrange(1, 1 + chunks.flatten().len() as int) == chunks.flatten()
                        && out == outs.flatten() + (if outs.flatten().len() == 0 { own } else { Seq::empty() })
                        && forall|i: int| 0 <= i < names.len() ==> child_trace(dir, depth, ppt, scan_root, names[i], #[trigger] chunks[i], outs[i]);
                    assert forall|k: int, j: int| 0 <= k < outs.len() && 0 <= j < outs[k].len() implies (#[trigger] outs[k][j]).0 != ProjectType::Unknown
                        && found_below(dir, outs[k][j].1, MAX_DISCOVERY_DEPTH - depth) by {
                        assert(child_trace(dir, depth, ppt, scan_root, names[k], chunks[k], outs[k]));
                        lemma_child_reports(dir, depth, ppt, scan_root, names[k], chunks[k], outs[k]);
                    }
                    lemma_keys_flatten(outs, dir, MAX_DISCOVERY_DEPTH - depth);
                    let f = outs.flatten();
                    if f.len() == 0 {
                        assert(out =~= own);
                    } else {
                        assert(out =~= f);
                    }
                },
            },
            _ => {},
        }
    }
}

/// Discovery below one child of `dir` records as `disc_reports` says, within
/// the depth left at `dir`.
proof fn lemma_child_reports(dir: Seq<char>, depth: int, ppt: ProjectType, scan_root: bool, name: Seq<char>, c: Seq<Call>, o: Seq<ProjectKey>)
    requires
        child_trace(dir, depth, ppt, scan_root, name, c, o),
    ensures
        forall|i: int| 0 <= i < o.len() ==> (#[trigger] o[i]).0 != ProjectType::Unknown && found_below(dir, o[i].1, MAX_DISCOVERY_DEPTH - depth),
    decreases MAX_DISCOVERY_DEPTH + 1 - depth, 0int,
{
    let path = path_join(dir, name);
    match c[0] {
        Call::IsDir { path: p, reply: d } => {
            if d && !(name.len() > 0 && name[0] == '.') && !discovery_skip_names().contains(name)
                && !(scan_root && ppt == ProjectType::Flutter && flutter_platform_names().contains(name)) {
                lemma_disc_reports(path, depth + 1, false, c.skip(1), o);
                let one = seq![name];
                assert(one.drop_first() =~= Seq::<Seq<char>>::empty());
                assert(one[0] == name);
                assert(crate::commands::purge::extras::joined_below(path, one.drop_first()) == path);
                assert(crate::commands::purge::extras::joined_below(dir, one) == path);
                assert forall|i: int| 0 <= i < o.len() implies (#[trigger] o[i]).0 != ProjectType::Unknown && found_below(dir, o[i].1, MAX_DISCOVERY_DEPTH - depth) by {
                    if o[i].1 == path {
                        assert(forall|j: int| 0 <= j < one.len() ==> discovery_name(#[trigger] one[j]));
                    } else {
                        assert(found_below(path, o[i].1, MAX_DISCOVERY_DEPTH - depth - 1));
                        let names = choose|names: Seq<Seq<char>>|
                            1 <= names.len() <= MAX_DISCOVERY_DEPTH - depth - 1
                            && o[i].1 == #[trigger] crate::commands::purge::extras::joined_below(path, names)
                            && forall|j: int| 0 <= j < names.len() ==> discovery_name(#[trigger] names[j]);
                        let more = seq![name] + names;
                        assert(more.drop_first() =~= names);
                        assert(more[0] == name);
                        assert(crate::commands::purge::extras::joined_below(dir, more) == crate::commands::purge::extras::joined_below(path, names));
                        assert forall|j: int| 0 <= j < more.len() implies discovery_name(#[trigger] more[j]) by {
                            if j > 0 {
                                assert(more[j] == names[j - 1]);
                            }
                        }
                    }
                }
            }
        },
        _ => {},
    }
}

/// Discovery at `dir`: the scan root always looks at its children first;
/// deeper, a directory that classifies is recorded and not descended into, and
/// one that does not is searched below.
fn discover_recursive<R: Runner>(
    runner: &mut Session<R>,
    dir: &str,
    depth: usize,
    out: &mut Vec<(AppInfo, String)>,
    is_scan_root: bool,
    Ghost(base): Ghost<Seq<Call>>,
)
    requires
        depth <= MAX_DISCOVERY_DEPTH,
        forall|i: int| 0 <= i < old(out)@.len() ==> (#[trigger] old(out)@[i]).0.project_type != ProjectType::Unknown,
        extends(base, old(runner).calls()),
        forall|i: int| 0 <= i < old(out)@.len() ==> entry_classified(since(base, old(runner).calls()), #[trigger] old(out)@[i]),
    ensures
        reads_only(old(runner).calls(), final(runner).calls()),
        final(out)@.len() >= old(out)@.len(),
        forall|i: int| 0 <= i < old(out)@.len() ==> final(out)@[i] == old(out)@[i],
        forall|i: int| 0 <= i < final(out)@.len() ==> (#[trigger] final(out)@[i]).0.project_type != ProjectType::Unknown,
        forall|i: int| 0 <= i < final(out)@.len() ==> entry_classified(since(base, final(runner).calls()), #[trigger] final(out)@[i]),
        disc_trace(dir@, depth as int, is_scan_root, since(old(runner).calls(), final(runner).calls()), discovered_keys(final(out)@).skip(old(out)@.len() as int)),
    decreases MAX_DISCOVERY_DEPTH + 1 - depth, 1usize,
{
    let ghost o0 = out@;
    let ghost c0 = runner.calls();
    let pt = classify_dir(runner, dir);
    let ghost c1 = runner.calls();
    proof {
        lemma_classified_here(base, c0, c1, dir@, pt);
        lemma_entries_kept(base, c0, c1, out@);
    }
    if is_scan_root {
        discover_children(runner, dir, depth, out, &pt, true, Ghost(base));
        proof { lemma_disc_step(dir@, depth as int, true, pt, c0, c1, runner.calls(), discovered_keys(out@).skip(o0.len() as int)); }
        return;
    }
    if pt != ProjectType::Unknown {
        let info = build_app_info(runner, dir, &pt);
        let ghost c2 = runner.calls();
        proof {
            lemma_classified_kept(base, c1, c2, dir@, pt);
            lemma_entries_kept(base, c1, c2, out@);
        }
        let here = dir.to_owned();
        assert(here@ == dir@);
        out.push((info, here));
        proof {
            assert(discovered_keys(out@).skip(o0.len() as int) =~= seq![(pt, dir@)]);
            lemma_disc_step(dir@, depth as int, false, pt, c0, c1, runner.calls(), discovered_keys(out@).skip(o0.len() as int));
        }
        return;
    }
    discover_children(runner, dir, depth, out, &ProjectType::Unknown, false, Ghost(base));
    proof { lemma_disc_step(dir@, depth as int, false, pt, c0, c1, runner.calls(), discovered_keys(out@).skip(o0.len() as int)); }
}

/// The discovery at `dir` from its classification (between `c0` and `c1`)
/// and what followed.
proof fn lemma_disc_step(
    dir: Seq<char>,
    depth: int,
    scan_root: bool,
    pt: ProjectType,
    c0: Seq<Call>,
    c1: Seq<Call>,
    end: Seq<Call>,
    out: Seq<ProjectKey>,
)
    requires
        0 <= depth <= MAX_DISCOVERY_DEPTH,
        extends(c0, c1),
        extends(c1, end),
        classify_trace(dir, since(c0, c1), pt),
        scan_root ==> children_trace(dir, depth, pt, true, since(c1, end), out),
        !scan_root && pt != ProjectType::Unknown ==> out == seq![(pt, dir)],
        !scan_root && pt == ProjectType::Unknown ==> children_trace(dir, depth, ProjectType::Unknown, false, since(c1, end), out),
    ensures
        disc_trace(dir, depth, scan_root, since(c0, end), out),
{
    crate::session::lemma_since_prefix(c0, c1, end);
    let t = since(c0, end);
    let n = since(c0, c1).len() as int;
    assert(t.take(n) == since(c0, c1));
    assert(t.skip(n) == since(c1, end));
    assert(classify_trace(dir, t.take(n), pt));
}

/// `t` classified the directory of the discovered entry `e` as the entry's
/// project type.
pub open spec fn entry_classified(t: Seq<Call>, e: (AppInfo, String)) -> bool {
    classified_in(t, e.1@, e.0.project_type)
}

proof fn lemma_entries_kept(base: Seq<Call>, mid: Seq<Call>, end: Seq<Call>, v: Seq<(AppInfo, String)>)
    requires
        extends(base, mid),
        extends(mid, end),
        forall|i: int| 0 <= i < v.len() ==> entry_classified(since(base, mid), #[trigger] v[i]),
    ensures
        forall|i: int| 0 <= i < v.len() ==> entry_classified(since(base, end), #[trigger] v[i]),
{
    assert forall|i: int| 0 <= i < v.len() implies entry_classified(since(base, end), #[trigger] v[i]) by {
        lemma_classified_kept(base, mid, end, v[i].1@, v[i].0.project_type);
    }
}

/// Discovery among the subdirectories of `dir` (not hidden, not skipped, and
/// for a Flutter scan root not a platform directory). A scan root that is a
/// project itself is recorded only when no project was found below it.
fn discover_children<R: Runner>(
    runner: &mut Session<R>,
    dir: &str,
    depth: usize,
    out: &mut Vec<(AppInfo, String)>,
    parent_pt: &ProjectType,
    is_scan_root: bool,
    Ghost(base): Ghost<Seq<Call>>,
)
    requires
        depth <= MAX_DISCOVERY_DEPTH,
        forall|i: int| 0 <= i < old(out)@.len() ==> (#[trigger] old(out)@[i]).0.project_type != ProjectType::Unknown,
        extends(base, old(runner).calls()),
        forall|i: int| 0 <= i < old(out)@.len() ==> entry_classified(since(base, old(runner).calls()), #[trigger] old(out)@[i]),
        is_scan_root && *parent_pt != ProjectType::Unknown ==> classified_in(since(base, old(runner).calls()), dir@, *parent_pt),
    ensures
        reads_only(old(runner).calls(), final(runner).calls()),
        final(out)@.len() >= old(out)@.len(),
        forall|i: int| 0 <= i < old(out)@.len() ==> final(out)@[i] == old(out)@[i],
        forall|i: int| 0 <= i < final(out)@.len() ==> (#[trigger] final(out)@[i]).0.project_type != ProjectType::Unknown,
        forall|i: int| 0 <= i < final(out)@.len() ==> entry_classified(since(base, final(runner).calls()), #[trigger] final(out)@[i]),
        children_trace(dir@, depth as int, *parent_pt, is_scan_root, since(old(runner).calls(), final(runner).calls()),
            discovered_keys(final(out)@).skip(old(out)@.len() as int)),
    decreases MAX_DISCOVERY_DEPTH + 1 - depth, 0usize,
{
    let ghost start = out@;
    let ghost c0 = runner.calls();
    let ghost own: Seq<ProjectKey> = if is_scan_root && *parent_pt != ProjectType::Unknown { seq![(*parent_pt, dir@)] } else { Seq::empty() };
    if depth >= MAX_DISCOVERY_DEPTH {
        if is_scan_root && *parent_pt != ProjectType::Unknown {
            let info = build_app_info(runner, dir, parent_pt);
            let ghost c1 = runner.calls();
            proof {
                lemma_classified_kept(base, c0, c1, dir@, *parent_pt);
                lemma_entries_kept(base, c0, c1, out@);
            }
            let here = dir.to_owned();
            assert(here@ == dir@);
            out.push((info, here));
        }
        assert(discovered_keys(out@).skip(start.len() as int) =~= own);
        return;
    }
    let listed = runner.list_dir(dir);
    let ghost c1 = runner.calls();
    proof {
        lemma_entries_kept(base, c0, c1, out@);
        if is_scan_root && *parent_pt != ProjectType::Unknown {
            lemma_classified_kept(base, c0, c1, dir@, *parent_pt);
        }
        assert(since(c0, c1)[0] == c1.last());
    }
    let names = match listed {
        Some(n) => n,
        None => {
            if is_scan_root && *parent_pt != ProjectType::Unknown {
                let info = build_app_info(runner, dir, parent_pt);
                let ghost c2 = runner.calls();
                proof {
                    lemma_classified_kept(base, c1, c2, dir@, *parent_pt);
                    lemma_entries_kept(base, c1, c2, out@);
                }
                let here = dir.to_owned();
                assert(here@ == dir@);
                out.push((info, here));
            }
            proof {
                assert(discovered_keys(out@).skip(start.len() as int) =~= own);
                crate::session::lemma_since_prefix(c0, c1, runner.calls());
                assert(since(c0, runner.calls())[0] == since(c0, c1)[0]);
            }
            return;
        },
    };
    let ghost nv = crate::paths::string_views(names@);
    let ghost mut chunks: Seq<Seq<Call>> = Seq::empty();
    let ghost mut outs: Seq<Seq<ProjectKey>> = Seq::empty();
    proof {
        assert(since(c1, runner.calls()) =~= chunks.flatten());
        assert(discovered_keys(out@).skip(start.len() as int) =~= outs.flatten());
    }
    let mut child_found = false;
    let mut i: usize = 0;
    while i < names.len()
        invariant
            reads_only(old(runner).calls(), runner.calls()),
            depth < MAX_DISCOVERY_DEPTH,
            out@.len() >= start.len(),
            forall|k: int| 0 <= k < start.len() ==> out@[k] == start[k],
            forall|k: int| 0 <= k < out@.len() ==> (#[trigger] out@[k]).0.project_type != ProjectType::Unknown,
            extends(base, runner.calls()),
            forall|k: int| 0 <= k < out@.len() ==> entry_classified(since(base, runner.calls()), #[trigger] out@[k]),
            is_scan_root && *parent_pt != ProjectType::Unknown ==> classified_in(since(base, runner.calls()), dir@, *parent_pt),
            start == old(out)@,
            c0 == old(runner).calls(),
            extends(c0, c1),
            extends(c1, runner.calls()),
            since(c0, c1).len() == 1,
            since(c0, c1)[0] == (Call::ListDir { path: dir@, reply: Some(nv) }),
            nv == crate::paths::string_views(names@),
            i <= names@.len(),
            chunks.len() == i,
            outs.len() == i,
            since(c1, runner.calls()) == chunks.flatten(),
            discovered_keys(out@).skip(start.len() as int) == outs.flatten(),
            child_found == (outs.flatten().len() > 0),
            forall|k: int| 0 <= k < i ==> child_trace(dir@, depth as int, *parent_pt, is_scan_root, nv[k], #[trigger] chunks[k], outs[k]),
        decreases names.len() - i,
    {
        let ghost d0 = runner.calls();
        let ghost ob = out@;
        let name = names[i].as_str();
        let path = join_path(dir, name);
        let nvv = chars_of(name);
        let hidden = nvv.len() > 0 && nvv[0] == '.';
        let is_dir = runner.is_dir(path.as_str());
        let ghost d1 = runner.calls();
        proof {
            lemma_entries_kept(base, d0, d1, out@);
            if is_scan_root && *parent_pt != ProjectType::Unknown {
                lemma_classified_kept(base, d0, d1, dir@, *parent_pt);
            }
        }
        if is_dir && !hidden && !is_discovery_skip_dir(name)
            && !(is_scan_root && is_flutter_platform_subdir(parent_pt, name)) {
            let before = out.len();
            discover_recursive(runner, path.as_str(), depth + 1, out, false, Ghost(base));
            let ghost d2 = runner.calls();
            proof {
                if is_scan_root && *parent_pt != ProjectType::Unknown {
                    lemma_classified_kept(base, d1, d2, dir@, *parent_pt);
                }
            }
            if out.len() > before {
                child_found = true;
            }
        }
        proof {
            let c = since(d0, runner.calls());
            let o = discovered_keys(out@).skip(ob.len() as int);
            crate::session::lemma_since_prefix(d0, d1, runner.calls());
            crate::session::lemma_since_prefix(c1, d0, runner.calls());
            assert(c[0] == d1.last());
            assert(nv[i as int] == name@);
            assert(nvv@ == name@);
            assert(discovered_keys(out@).take(ob.len() as int) =~= discovered_keys(ob)) by {
                assert forall|q: int| 0 <= q < ob.len() implies discovered_keys(out@)[q] == discovered_keys(ob)[q] by {}
            }
            assert(discovered_keys(out@).skip(start.len() as int) =~= discovered_keys(ob).skip(start.len() as int) + o);
            assert(child_trace(dir@, depth as int, *parent_pt, is_scan_root, nv[i as int], c, o)) by {
                assert(c.skip(1) == since(d1, runner.calls()));
                if !(is_dir && !hidden && !discovery_skip_names().contains(name@)
                    && !(is_scan_root && *parent_pt == ProjectType::Flutter && flutter_platform_names().contains(name@))) {
                    assert(out@ =~= ob);
                    assert(o =~= Seq::<ProjectKey>::empty());
                }
            }
            chunks.lemma_flatten_push(c);
            outs.lemma_flatten_push(o);
            assert(since(c1, runner.calls()) =~= since(c1, d0) + c);
            chunks = chunks.push(c);
            outs = outs.push(o);
        }
        i = i + 1;
    }
    let ghost looped = runner.calls();
    let ghost found = discovered_keys(out@).skip(start.len() as int);
    if is_scan_root && !child_found && *parent_pt != ProjectType::Unknown {
        let ghost e0 = runner.calls();
        let info = build_app_info(runner, dir, parent_pt);
        let ghost e1 = runner.calls();
        proof {
            lemma_classified_kept(base, e0, e1, dir@, *parent_pt);
            lemma_entries_kept(base, e0, e1, out@);
        }
        let here = dir.to_owned();
        assert(here@ == dir@);
        let ghost before_push = out@;
        out.push((info, here));
        proof {
            assert(discovered_keys(out@).skip(start.len() as int) =~= found + own);
        }
    }
    proof {
        let t = since(c0, runner.calls());
        crate::session::lemma_since_prefix(c0, c1, looped);
        crate::session::lemma_since_prefix(c0, looped, runner.calls());
        assert(t[0] == since(c0, c1)[0]);
        assert(t.subrange(1, 1 + chunks.flatten().len() as int) =~= since(c1, looped));
        if !(is_scan_root && !child_found && *parent_pt != ProjectType::Unknown) {
            assert(discovered_keys(out@).skip(start.len() as int) =~= outs.flatten() + (if outs.flatten().len() == 0 { own } else { Seq::<ProjectKey>::empty() }));
        } else {
            assert(discovered_keys(out@).skip(start.len() as int) =~= outs.flatten() + (if outs.flatten().len() == 0 { own } else { Seq::<ProjectKey>::empty() }));
        }
    }
}

} // verus!
