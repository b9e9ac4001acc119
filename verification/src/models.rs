//! Project, app and device descriptions shared by every command.
use vstd::prelude::*;
use vstd::string::StringSliceAdditionalSpecFns;

verus! {

/// Node.js package manager variant.
#[derive(Debug, Clone, Copy, PartialEq, Eq, Structural)]
pub enum NodePm {
    Npm,
    Pnpm,
    Yarn,
    Bun,
}

/// Python framework variant.
#[derive(Debug, Clone, Copy, PartialEq, Eq, Structural)]
pub enum PyFw {
    Django,
    FastAPI,
    Generic,
}

/// Project type detected from the working directory.
#[derive(Debug, Clone, Copy, PartialEq, Eq, Structural)]
pub enum ProjectType {
    Flutter,
    Android,
    Ios,
    Node { manager: NodePm },
    Rust,
    Go,
    Ruby { rails: bool },
    Python { framework: Option<PyFw> },
    Unknown,
}

impl ProjectType {
    /// True for mobile project types (Flutter, Android, iOS).
    pub fn is_mobile(&self) -> (b: bool)
        ensures
            b == (*self is Flutter || *self is Android || *self is Ios),
    {
        match self {
            ProjectType::Flutter | ProjectType::Android | ProjectType::Ios => true,
            _ => false,
        }
    }

    /// True only for iOS (which requires macOS to clean).
    pub fn needs_macos(&self) -> (b: bool)
        ensures
            b == (*self is Ios),
    {
        match self {
            ProjectType::Ios => true,
            _ => false,
        }
    }

    /// Stable, lowercase label per variant.
    pub fn name(&self) -> (r: &'static str)
        ensures
            r@ == project_type_name(*self),
    {
        match self {
            ProjectType::Flutter => "flutter",
            ProjectType::Android => "android",
            ProjectType::Ios => "ios",
            ProjectType::Node { .. } => "node",
            ProjectType::Rust => "rust",
            ProjectType::Go => "go",
            ProjectType::Ruby { rails: true } => "rails",
            ProjectType::Ruby { rails: false } => "ruby",
            ProjectType::Python { framework: Some(PyFw::Django) } => "django",
            ProjectType::Python { framework: Some(PyFw::FastAPI) } => "fastapi",
            ProjectType::Python { .. } => "python",
            ProjectType::Unknown => "unknown",
        }
    }
}

/// The lowercase label of a project type.
pub open spec fn project_type_name(pt: ProjectType) -> Seq<char> {
    match pt {
        ProjectType::Flutter => "flutter"@,
        ProjectType::Android => "android"@,
        ProjectType::Ios => "ios"@,
        ProjectType::Node { .. } => "node"@,
        ProjectType::Rust => "rust"@,
        ProjectType::Go => "go"@,
        ProjectType::Ruby { rails } => if rails { "rails"@ } else { "ruby"@ },
        ProjectType::Python { framework } => match framework {
            Some(PyFw::Django) => "django"@,
            Some(PyFw::FastAPI) => "fastapi"@,
            _ => "python"@,
        },
        ProjectType::Unknown => "unknown"@,
    }
}

/// The human-readable label of a project type.
pub open spec fn project_type_title(pt: ProjectType) -> Seq<char> {
    match pt {
        ProjectType::Flutter => "Flutter"@,
        ProjectType::Android => "Android"@,
        ProjectType::Ios => "iOS"@,
        ProjectType::Node { manager } => match manager {
            NodePm::Npm => "Node (npm)"@,
            NodePm::Pnpm => "Node (pnpm)"@,
            NodePm::Yarn => "Node (yarn)"@,
            NodePm::Bun => "Node (bun)"@,
        },
        ProjectType::Rust => "Rust"@,
        ProjectType::Go => "Go"@,
        ProjectType::Ruby { rails } => if rails { "Ruby on Rails"@ } else { "Ruby"@ },
        ProjectType::Python { framework } => match framework {
            Some(PyFw::Django) => "Python (Django)"@,
            Some(PyFw::FastAPI) => "Python (FastAPI)"@,
            _ => "Python"@,
        },
        ProjectType::Unknown => "Unknown"@,
    }
}

/// Human-readable label for a `ProjectType`.
pub fn project_type_label(pt: &ProjectType) -> (r: String)
    ensures
        r@ == project_type_title(*pt),
{
    let s: &str = match pt {
        ProjectType::Flutter => "Flutter",
        ProjectType::Android => "Android",
        ProjectType::Ios => "iOS",
        ProjectType::Node { manager } => match manager {
            NodePm::Npm => "Node (npm)",
            NodePm::Pnpm => "Node (pnpm)",
            NodePm::Yarn => "Node (yarn)",
            NodePm::Bun => "Node (bun)",
        },
        ProjectType::Rust => "Rust",
        ProjectType::Go => "Go",
        ProjectType::Ruby { rails: true } => "Ruby on Rails",
        ProjectType::Ruby { rails: false } => "Ruby",
        ProjectType::Python { framework } => match framework {
            Some(PyFw::Django) => "Python (Django)",
            Some(PyFw::FastAPI) => "Python (FastAPI)",
            _ => "Python",
        },
        ProjectType::Unknown => "Unknown",
    };
    s.to_owned()
}

/// Information about the current app project.
#[derive(Debug, Clone, PartialEq)]
pub struct AppInfo {
    pub android_package_id: Option<String>,
    pub ios_bundle_id: Option<String>,
    /// pubspec.yaml `name` field; empty string for non-Flutter projects.
    pub flutter_name: String,
    pub project_type: ProjectType,
}

impl AppInfo {
    pub fn new(
        flutter_name: String,
        project_type: ProjectType,
        android_package_id: Option<String>,
        ios_bundle_id: Option<String>,
    ) -> (r: Self)
        ensures
            r.flutter_name == flutter_name,
            r.project_type == project_type,
            r.android_package_id == android_package_id,
            r.ios_bundle_id == ios_bundle_id,
    {
        AppInfo { android_package_id, ios_bundle_id, flutter_name, project_type }
    }

    /// `AppInfo(type: .., android: .., ios: .., name: ..)`, the ids written as
    /// `{:?}` writes them.
    pub fn description(&self) -> (r: String)
        ensures
            r@ == "AppInfo(type: "@ + project_type_title(self.project_type) + ", android: "@ + debug_opt(
                crate::text::opt_view(self.android_package_id),
            ) + ", ios: "@ + debug_opt(crate::text::opt_view(self.ios_bundle_id)) + ", name: "@ + self.flutter_name@
                + ")"@,
    {
        let t = project_type_label(&self.project_type);
        let a = debug_text(&self.android_package_id);
        let i = debug_text(&self.ios_bundle_id);
        let r = crate::text::concat("AppInfo(type: ", t.as_str());
        let r = crate::text::concat(r.as_str(), ", android: ");
        let r = crate::text::concat(r.as_str(), a.as_str());
        let r = crate::text::concat(r.as_str(), ", ios: ");
        let r = crate::text::concat(r.as_str(), i.as_str());
        let r = crate::text::concat(r.as_str(), ", name: ");
        let r = crate::text::concat(r.as_str(), self.flutter_name.as_str());
        crate::text::concat(r.as_str(), ")")
    }
}

/// An app description as plain values: Flutter name, project type, Android
/// package id, iOS bundle id.
pub type AppInfoView = (Seq<char>, ProjectType, Option<Seq<char>>, Option<Seq<char>>);

impl View for AppInfo {
    type V = AppInfoView;

    open spec fn view(&self) -> AppInfoView {
        (
            self.flutter_name@,
            self.project_type,
            crate::text::opt_view(self.android_package_id),
            crate::text::opt_view(self.ios_bundle_id),
        )
    }
}

/// The digits of `n` (below 256) in lowercase hexadecimal, without leading zeros.
pub open spec fn hex_small(n: nat) -> Seq<char> {
    if n < 16 {
        seq![hex_digit(n)]
    } else {
        seq![hex_digit(n / 16), hex_digit(n % 16)]
    }
}

/// One lowercase hexadecimal digit.
pub open spec fn hex_digit(d: nat) -> char {
    if d < 10 {
        (('0' as nat) + d) as char
    } else {
        (('a' as nat) + d - 10) as char
    }
}

/// How `{:?}` writes character `c` inside a string: quotes, backslashes and
/// the common control characters escaped by name, other ASCII control
/// characters as `\u{..}`, everything else as it is.
pub open spec fn debug_char(c: char) -> Seq<char> {
    if c == '"' {
        seq!['\\', '"']
    } else if c == '\\' {
        seq!['\\', '\\']
    } else if c == '\n' {
        seq!['\\', 'n']
    } else if c == '\r' {
        seq!['\\', 'r']
    } else if c == '\t' {
        seq!['\\', 't']
    } else if c == '\0' {
        seq!['\\', '0']
    } else if (c as nat) < 0x20 || (c as nat) == 0x7f {
        seq!['\\', 'u', '{'] + hex_small(c as nat) + seq!['}']
    } else {
        seq![c]
    }
}

/// How `{:?}` writes the contents of a string; see `debug_char`.
pub open spec fn debug_escaped(s: Seq<char>) -> Seq<char>
    decreases s.len(),
{
    if s.len() == 0 {
        Seq::empty()
    } else {
        debug_escaped(s.drop_last()) + debug_char(s.last())
    }
}

/// How `{:?}` writes an optional string.
pub open spec fn debug_opt(o: Option<Seq<char>>) -> Seq<char> {
    match o {
        Some(s) => "Some(\""@ + debug_escaped(s) + "\")"@,
        None => "None"@,
    }
}

/// One lowercase hexadecimal digit; see `hex_digit`.
fn hex_digit_of(d: u32) -> (c: char)
    requires
        d < 16,
    ensures
        c == hex_digit(d as nat),
{
    if d < 10 {
        let r = ('0' as u32 + d) as u8 as char;
        assert(r == hex_digit(d as nat)) by (nonlinear_arith)
            requires r == (('0' as u32 + d) as u8 as char), d < 10;
        r
    } else {
        let r = ('a' as u32 + d - 10) as u8 as char;
        assert(r == hex_digit(d as nat)) by (nonlinear_arith)
            requires r == (('a' as u32 + d - 10) as u8 as char), 10 <= d < 16;
        r
    }
}

/// Appends how `{:?}` writes `c` inside a string; see `debug_char`.
fn push_debug_char(out: &mut Vec<char>, c: char)
    ensures
        final(out)@ == old(out)@ + debug_char(c),
{
    let ghost before = out@;
    let u = c as u32;
    if c == '"' {
        out.push('\\');
        out.push('"');
    } else if c == '\\' {
        out.push('\\');
        out.push('\\');
    } else if c == '\n' {
        out.push('\\');
        out.push('n');
    } else if c == '\r' {
        out.push('\\');
        out.push('r');
    } else if c == '\t' {
        out.push('\\');
        out.push('t');
    } else if c == '\0' {
        out.push('\\');
        out.push('0');
    } else if u < 0x20 || u == 0x7f {
        out.push('\\');
        out.push('u');
        out.push('{');
        if u < 16 {
            out.push(hex_digit_of(u));
        } else {
            out.push(hex_digit_of(u / 16));
            out.push(hex_digit_of(u % 16));
        }
        out.push('}');
    } else {
        out.push(c);
    }
    assert(out@ =~= before + debug_char(c));
}

/// How `{:?}` writes an optional string; see `debug_opt`.
pub fn debug_text(o: &Option<String>) -> (r: String)
    ensures
        r@ == debug_opt(crate::text::opt_view(*o)),
{
    match o {
        None => "None".to_string(),
        Some(s) => {
            let v = crate::text::chars_of(s.as_str());
            let mut out = crate::text::chars_of("Some(\"");
            let ghost head = out@;
            let mut i: usize = 0;
            while i < v.len()
                invariant
                    i <= v@.len(),
                    out@ == head + debug_escaped(v@.take(i as int)),
                decreases v.len() - i,
            {
                assert(v@.take(i + 1).drop_last() =~= v@.take(i as int));
                push_debug_char(&mut out, v[i]);
                assert(head + debug_escaped(v@.take(i as int)) + debug_char(v@[i as int]) =~= head + (debug_escaped(
                    v@.take(i as int),
                ) + debug_char(v@[i as int])));
                i = i + 1;
            }
            assert(v@.take(v@.len() as int) =~= v@);
            let body = crate::text::string_of(out.as_slice());
            crate::text::concat(body.as_str(), "\")")
        },
    }
}

/// The platform a device runs on.
#[derive(Debug, Clone, Copy, PartialEq, Eq, Structural)]
pub enum DevicePlatform {
    Android,
    Ios,
}

/// The number of occurrences of `c` in `s`.
pub open spec fn count_char(s: Seq<char>, c: char) -> nat
    decreases s.len(),
{
    if s.len() == 0 {
        0
    } else {
        count_char(s.drop_last(), c) + if s.last() == c { 1nat } else { 0nat }
    }
}

/// A device id shaped like a UUID (36 bytes, four dashes) names an iOS device.
pub open spec fn looks_like_ios_id(id: &str) -> bool {
    id.spec_bytes().len() as usize == 36 && count_char(id@, '-') == 4
}

impl DevicePlatform {
    pub fn label(&self) -> (r: &'static str)
        ensures
            r@ == (match *self {
                DevicePlatform::Android => "Android"@,
                DevicePlatform::Ios => "iOS"@,
            }),
    {
        match self {
            DevicePlatform::Android => "Android",
            DevicePlatform::Ios => "iOS",
        }
    }

    pub fn from_device_id(device_id: &str) -> (r: Self)
        ensures
            r == (if looks_like_ios_id(device_id) {
                DevicePlatform::Ios
            } else {
                DevicePlatform::Android
            }),
    {
        let looks_ios = device_id.len() == 36 && count_dashes(device_id) == 4;
        if looks_ios {
            DevicePlatform::Ios
        } else {
            DevicePlatform::Android
        }
    }
}

/// The number of `'-'` characters in `s`.
fn count_dashes(s: &str) -> (n: usize)
    ensures
        n == count_char(s@, '-'),
{
    let v = crate::text::chars_of(s);
    let mut n: usize = 0;
    let mut i: usize = 0;
    while i < v.len()
        invariant
            i <= v@.len(),
            v@ == s@,
            n == count_char(v@.take(i as int), '-'),
            n <= i,
        decreases v.len() - i,
    {
        assert(v@.take(i + 1).drop_last() =~= v@.take(i as int));
        if v[i] == '-' {
            n = n + 1;
        }
        i = i + 1;
    }
    assert(v@.take(v@.len() as int) =~= v@);
    n
}

/// Whether a device is an emulator/simulator or physical hardware.
#[derive(Debug, Clone, Copy, PartialEq, Eq, Structural)]
pub enum DeviceType {
    Emulator,
    Simulator,
    Physical,
}

/// A connected or available device.
#[derive(Debug, Clone, PartialEq)]
pub struct Device {
    pub id: String,
    pub name: String,
    pub platform: DevicePlatform,
    pub device_type: DeviceType,
}

/// A device as plain values: id, name, platform, kind.
pub type DeviceView = (Seq<char>, Seq<char>, DevicePlatform, DeviceType);

impl View for Device {
    type V = DeviceView;

    open spec fn view(&self) -> DeviceView {
        (self.id@, self.name@, self.platform, self.device_type)
    }
}

/// The views of `devices`, in order.
pub open spec fn device_views(devices: Seq<Device>) -> Seq<DeviceView> {
    devices.map_values(|d: Device| d@)
}

impl Device {
    pub fn new(id: String, name: String, platform: DevicePlatform, device_type: DeviceType) -> (r:
        Self)
        ensures
            r.id == id,
            r.name == name,
            r.platform == platform,
            r.device_type == device_type,
    {
        Device { id, name, platform, device_type }
    }

    /// `Device(id: .., name: .., platform: .., type: ..)`, platform and kind
    /// by variant name.
    pub fn description(&self) -> (r: String)
        ensures
            r@ == "Device(id: "@ + self.id@ + ", name: "@ + self.name@ + ", platform: "@ + (match self.platform {
                DevicePlatform::Android => "Android"@,
                DevicePlatform::Ios => "Ios"@,
            }) + ", type: "@ + (match self.device_type {
                DeviceType::Emulator => "Emulator"@,
                DeviceType::Simulator => "Simulator"@,
                DeviceType::Physical => "Physical"@,
            }) + ")"@,
    {
        let p = match self.platform {
            DevicePlatform::Android => "Android",
            DevicePlatform::Ios => "Ios",
        };
        let t = match self.device_type {
            DeviceType::Emulator => "Emulator",
            DeviceType::Simulator => "Simulator",
            DeviceType::Physical => "Physical",
        };
        let r = crate::text::concat("Device(id: ", self.id.as_str());
        let r = crate::text::concat(r.as_str(), ", name: ");
        let r = crate::text::concat(r.as_str(), self.name.as_str());
        let r = crate::text::concat(r.as_str(), ", platform: ");
        let r = crate::text::concat(r.as_str(), p);
        let r = crate::text::concat(r.as_str(), ", type: ");
        let r = crate::text::concat(r.as_str(), t);
        crate::text::concat(r.as_str(), ")")
    }

    /// A copy of this device.
    pub fn clone_device(&self) -> (r: Self)
        ensures
            r@ == self@,
    {
        Device::new(self.id.clone(), self.name.clone(), self.platform, self.device_type)
    }
}

} // verus!
