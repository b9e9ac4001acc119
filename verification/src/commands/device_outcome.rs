//! Classification of `adb` / `simctl` replies.
use vstd::prelude::*;
use crate::runner::RunResult;
use crate::text::{chars_of, contains, contains_chars, lowercase, string_of, to_lowercase, trim, trim_chars};

verus! {

/// Both output streams of `r`, lowercased: `"{stderr}\n{stdout}"`.
pub open spec fn outcome_text(r: RunResult) -> Seq<char> {
    lowercase(r.stderr@ + seq!['\n'] + r.stdout@)
}

/// `outcome_text(r)` as a string.
fn outcome_string(r: &RunResult) -> (s: String)
    ensures
        s@ == outcome_text(*r),
{
    let mut all = chars_of(r.stderr.as_str());
    all.push('\n');
    let mut out = chars_of(r.stdout.as_str());
    all.append(&mut out);
    assert(all@ =~= r.stderr@ + seq!['\n'] + r.stdout@);
    let joined = string_of(all.as_slice());
    to_lowercase(joined.as_str())
}

/// Whether `outcome_text(r)` contains `phrase`.
fn mentions(t: &Vec<char>, phrase: &str) -> (b: bool)
    ensures
        b == contains(t@, phrase@),
{
    let p = chars_of(phrase);
    contains_chars(t.as_slice(), p.as_slice())
}

/// The stream that explains a failure: stderr, or stdout when stderr is empty.
pub fn error_text(r: &RunResult) -> (t: &str)
    ensures
        t@ == (if r.stderr@.len() > 0 { r.stderr@ } else { r.stdout@ }),
{
    if !r.stderr.as_str().is_empty() {
        r.stderr.as_str()
    } else {
        r.stdout.as_str()
    }
}

/// The lowercased output `t` says several devices are attached.
pub open spec fn multi_device_text(t: Seq<char>) -> bool {
    contains(t, "more than one device"@) || contains(t, "more than one emulator"@) || contains(t, "multiple devices"@)
}

pub open spec fn multi_device_error(r: RunResult) -> bool {
    multi_device_text(outcome_text(r))
}

/// Whether the lowercased output `text` says several devices are attached.
pub fn says_multi_device(text: &str) -> (b: bool)
    ensures
        b == multi_device_text(text@),
{
    let t = chars_of(text);
    mentions(&t, "more than one device") || mentions(&t, "more than one emulator") || mentions(&t, "multiple devices")
}

/// Several devices are attached and the command did not pick one.
pub fn is_multi_device_error(r: &RunResult) -> (b: bool)
    ensures
        b == multi_device_error(*r),
{
    let t = outcome_string(r);
    says_multi_device(t.as_str())
}

/// The lowercased output `t` says no device is attached.
pub open spec fn no_devices_text(t: Seq<char>) -> bool {
    contains(t, "no devices/emulators found"@) || contains(t, "no devices found"@) || contains(t, "no emulators found"@)
        || contains(t, "device not found"@) || contains(t, "device offline"@) || contains(t, "device unauthorized"@)
}

pub open spec fn no_devices_error(r: RunResult) -> bool {
    no_devices_text(outcome_text(r))
}

/// Whether the lowercased output `text` says no device is attached.
pub fn says_no_devices(text: &str) -> (b: bool)
    ensures
        b == no_devices_text(text@),
{
    let t = chars_of(text);
    mentions(&t, "no devices/emulators found") || mentions(&t, "no devices found") || mentions(&t, "no emulators found")
        || mentions(&t, "device not found") || mentions(&t, "device offline") || mentions(&t, "device unauthorized")
}

/// No Android device is attached at all (`adb: no devices/emulators found`,
/// `error: device not found`, `device offline`).
pub fn is_no_devices_error(r: &RunResult) -> (b: bool)
    ensures
        b == no_devices_error(*r),
{
    let t = outcome_string(r);
    says_no_devices(t.as_str())
}

/// The command couldn't pick a device on its own: either several are attached
/// or none is. Both cases are resolved by enumerating devices and retrying.
pub fn should_enumerate(r: &RunResult) -> (b: bool)
    ensures
        b == (multi_device_error(*r) || no_devices_error(*r)),
{
    is_multi_device_error(r) || is_no_devices_error(r)
}

/// The lowercased output `t` says the app is not installed.
pub open spec fn not_installed_text(t: Seq<char>) -> bool {
    contains(t, "delete_failed_internal_error"@) || contains(t, "unknown package"@) || contains(
        t,
        "failed to clear application data"@,
    ) || trim(t) == "failed"@
}

pub open spec fn not_installed_error(r: RunResult) -> bool {
    not_installed_text(outcome_text(r))
}

/// The app simply isn't installed on the device — not a real failure for
/// uninstall/clear, which both want the app gone.
pub fn is_not_installed_error(r: &RunResult) -> (b: bool)
    ensures
        b == not_installed_error(*r),
{
    let t = outcome_string(r);
    says_not_installed(t.as_str())
}

/// Whether the lowercased output `text` says the app is not installed.
pub fn says_not_installed(text: &str) -> (b: bool)
    ensures
        b == not_installed_text(text@),
{
    let t = chars_of(text);
    let failed = chars_of("failed");
    let tt = trim_chars(t.as_slice());
    mentions(&t, "delete_failed_internal_error") || mentions(&t, "unknown package") || mentions(
        &t,
        "failed to clear application data",
    ) || crate::text::chars_eq(tt.as_slice(), failed.as_slice())
}

/// The lowercased output `t` says the package is unknown.
pub open spec fn unknown_package_text(t: Seq<char>) -> bool {
    contains(t, "unknown package"@)
}

pub open spec fn unknown_package_error(r: RunResult) -> bool {
    unknown_package_text(outcome_text(r))
}

/// Whether the lowercased output `text` says the package is unknown.
pub fn says_unknown_package(text: &str) -> (b: bool)
    ensures
        b == unknown_package_text(text@),
{
    let t = chars_of(text);
    mentions(&t, "unknown package")
}

/// The package manager does not know the package: nothing to remove or clear.
pub fn is_unknown_package(r: &RunResult) -> (b: bool)
    ensures
        b == unknown_package_error(*r),
{
    let t = outcome_string(r);
    says_unknown_package(t.as_str())
}

pub open spec fn stdout_success(r: RunResult) -> bool {
    r.exit_code == 0 && contains(r.stdout@, "Success"@)
}

/// The package manager exited 0 and reported `Success` on stdout (`adb` can exit
/// 0 while printing `Failure [...]`).
pub fn stdout_is_success(r: &RunResult) -> (b: bool)
    ensures
        b == stdout_success(*r),
{
    if r.exit_code != 0 {
        return false;
    }
    let out = chars_of(r.stdout.as_str());
    mentions(&out, "Success")
}

/// The lowercased output `t` says no simulator is booted or the requested one
/// does not exist.
pub open spec fn no_booted_text(t: Seq<char>) -> bool {
    contains(t, "no devices are booted"@) || contains(t, "unable to find"@) || contains(
        t,
        "no matching"@,
    ) || contains(t, "invalid device"@)
}

pub open spec fn no_booted_error(r: RunResult) -> bool {
    no_booted_text(outcome_text(r))
}

/// No simulator is booted, or the requested one does not exist.
pub fn is_no_booted_error(r: &RunResult) -> (b: bool)
    ensures
        b == no_booted_error(*r),
{
    let t = outcome_string(r);
    says_no_booted(t.as_str())
}

/// Whether the lowercased output `text` says no simulator is booted or the
/// requested one does not exist.
pub fn says_no_booted(text: &str) -> (b: bool)
    ensures
        b == no_booted_text(text@),
{
    let t = chars_of(text);
    mentions(&t, "no devices are booted") || mentions(&t, "unable to find") || mentions(
        &t,
        "no matching",
    ) || mentions(&t, "invalid device")
}

/// The lowercased output `t` says the app was not running.
pub open spec fn not_running_text(t: Seq<char>) -> bool {
    contains(t, "found nothing to terminate"@) || contains(t, "no such process"@) || contains(
        t,
        "not running"@,
    )
}

pub open spec fn not_running_error(r: RunResult) -> bool {
    not_running_text(outcome_text(r))
}

/// The app was not running, so there was nothing to stop.
pub fn is_not_running_error(r: &RunResult) -> (b: bool)
    ensures
        b == not_running_error(*r),
{
    let t = outcome_string(r);
    says_not_running(t.as_str())
}

/// Whether the lowercased output `text` says the app was not running.
pub fn says_not_running(text: &str) -> (b: bool)
    ensures
        b == not_running_text(text@),
{
    let t = chars_of(text);
    mentions(&t, "found nothing to terminate") || mentions(&t, "no such process") || mentions(
        &t,
        "not running",
    )
}

/// Each phrase that `adb` or `simctl` prints for a condition is recognised as
/// that condition, wherever it stands in the (lowercased) output.
pub proof fn lemma_outcome_phrases(t: Seq<char>)
    ensures
        contains(t, "more than one device"@) ==> multi_device_text(t),
        contains(t, "more than one emulator"@) ==> multi_device_text(t),
        contains(t, "multiple devices"@) ==> multi_device_text(t),
        contains(t, "no devices/emulators found"@) ==> no_devices_text(t),
        contains(t, "no devices found"@) ==> no_devices_text(t),
        contains(t, "no emulators found"@) ==> no_devices_text(t),
        contains(t, "device not found"@) ==> no_devices_text(t),
        contains(t, "device offline"@) ==> no_devices_text(t),
        contains(t, "device unauthorized"@) ==> no_devices_text(t),
        contains(t, "delete_failed_internal_error"@) ==> not_installed_text(t),
        contains(t, "unknown package"@) ==> not_installed_text(t) && unknown_package_text(t),
        contains(t, "failed to clear application data"@) ==> not_installed_text(t),
        trim(t) == "failed"@ ==> not_installed_text(t),
        contains(t, "no devices are booted"@) ==> no_booted_text(t),
        contains(t, "unable to find"@) ==> no_booted_text(t),
        contains(t, "no matching"@) ==> no_booted_text(t),
        contains(t, "invalid device"@) ==> no_booted_text(t),
        contains(t, "found nothing to terminate"@) ==> not_running_text(t),
        contains(t, "no such process"@) ==> not_running_text(t),
        contains(t, "not running"@) ==> not_running_text(t),
{
}

/// An install or uninstall succeeded exactly when the tool exited 0 and said
/// `Success` on stdout; a non-zero exit is never a success, whatever it printed.
pub proof fn lemma_stdout_success(r: RunResult)
    ensures
        r.exit_code != 0 ==> !stdout_success(r),
        r.exit_code == 0 && contains(r.stdout@, "Success"@) ==> stdout_success(r),
        !contains(r.stdout@, "Success"@) ==> !stdout_success(r),
{
}

} // verus!
