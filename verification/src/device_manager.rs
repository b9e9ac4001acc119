//! Lists the devices and simulators that are running.
use vstd::prelude::*;
use crate::json::{
    bool_member, bool_member_of, json_get, parse_json, parsed_json, str_member, str_member_of, Json,
};
use crate::models::{device_views, Device, DevicePlatform, DeviceType, DeviceView};
use crate::runner::{HostOs, RunResult, Runner};
use crate::text::{contains, lowercase, str_contains, str_eq, to_lowercase};
use crate::session::{extends, is_run, reply_of, since, strs_view, Call, Session};

verus! {

/// The device that one entry of `flutter devices --machine` describes: Android
/// and iOS targets only (web and desktop are skipped), an entry without a
/// string `id` and `name` is skipped too.
pub open spec fn flutter_device(fields: Seq<(String, Json)>) -> Option<DeviceView> {
    match (str_member(fields, "id"@), str_member(fields, "name"@)) {
        (Some(id), Some(name)) => {
            let tp = lowercase(
                match str_member(fields, "targetPlatform"@) {
                    Some(t) => t,
                    None => ""@,
                },
            );
            let emulator = match bool_member(fields, "emulator"@) {
                Some(b) => b,
                None => false,
            };
            if contains(tp, "android"@) {
                Some(
                    (
                        id,
                        name,
                        DevicePlatform::Android,
                        if emulator { DeviceType::Emulator } else { DeviceType::Physical },
                    ),
                )
            } else if contains(tp, "ios"@) {
                Some(
                    (
                        id,
                        name,
                        DevicePlatform::Ios,
                        if emulator { DeviceType::Simulator } else { DeviceType::Physical },
                    ),
                )
            } else {
                None
            }
        },
        _ => None,
    }
}

/// The devices described by the entries of a `flutter devices --machine` array,
/// in order.
pub open spec fn flutter_devices(items: Seq<Json>) -> Seq<DeviceView>
    decreases items.len(),
{
    if items.len() == 0 {
        Seq::empty()
    } else {
        let prev = flutter_devices(items.drop_last());
        match items.last() {
            Json::Object(f) => match flutter_device(f@) {
                Some(d) => prev.push(d),
                None => prev,
            },
            _ => prev,
        }
    }
}

/// The devices a `flutter devices --machine` reply lists (none when it failed
/// or is not a JSON array).
pub open spec fn flutter_reply_devices(r: RunResult) -> Seq<DeviceView> {
    if r.exit_code == 0 && r.stdout@.len() > 0 {
        match parsed_json(r.stdout@) {
            Some(Json::Array(a)) => flutter_devices(a@),
            _ => Seq::empty(),
        }
    } else {
        Seq::empty()
    }
}

/// The simulator an entry of a `simctl list devices --json` runtime describes,
/// when it is booted and has a udid.
pub open spec fn booted_simulator(item: Json) -> Option<DeviceView> {
    let fields = match item {
        Json::Object(f) => f@,
        _ => Seq::empty(),
    };
    let state = match str_member(fields, "state"@) {
        Some(s) => s,
        None => ""@,
    };
    let udid = match str_member(fields, "udid"@) {
        Some(s) => s,
        None => ""@,
    };
    let name = match str_member(fields, "name"@) {
        Some(s) => s,
        None => ""@,
    };
    if state == "Booted"@ && udid.len() > 0 {
        Some((udid, name, DevicePlatform::Ios, DeviceType::Simulator))
    } else {
        None
    }
}

/// The booted simulators among the entries of one runtime, in order.
pub open spec fn booted_simulators(items: Seq<Json>) -> Seq<DeviceView>
    decreases items.len(),
{
    if items.len() == 0 {
        Seq::empty()
    } else {
        let prev = booted_simulators(items.drop_last());
        match booted_simulator(items.last()) {
            Some(d) => prev.push(d),
            None => prev,
        }
    }
}

/// The booted simulators of the iOS runtimes (keys containing `iOS`), runtime by
/// runtime.
pub open spec fn runtime_simulators(runtimes: Seq<(String, Json)>) -> Seq<DeviceView>
    decreases runtimes.len(),
{
    if runtimes.len() == 0 {
        Seq::empty()
    } else {
        let prev = runtime_simulators(runtimes.drop_last());
        let (key, v) = runtimes.last();
        if !contains(key@, "iOS"@) {
            prev
        } else {
            match v {
                Json::Array(a) => prev + booted_simulators(a@),
                _ => prev,
            }
        }
    }
}

/// The booted iOS simulators a `simctl list devices --json` reply lists.
pub open spec fn simctl_reply_simulators(r: RunResult) -> Seq<DeviceView> {
    if r.exit_code == 0 && r.stdout@.len() > 0 {
        match parsed_json(r.stdout@) {
            Some(j) => match json_get(j, "devices"@) {
                Some(Json::Object(m)) => runtime_simulators(m@),
                _ => Seq::empty(),
            },
            None => Seq::empty(),
        }
    } else {
        Seq::empty()
    }
}

/// Some device of `devs` has id `id`.
pub open spec fn has_device_id(devs: Seq<DeviceView>, id: Seq<char>) -> bool {
    exists|i: int| 0 <= i < devs.len() && (#[trigger] devs[i]).0 == id
}

/// `devs` followed by the simulators of `sims` whose id is not listed yet.
pub open spec fn merge_simulators(devs: Seq<DeviceView>, sims: Seq<DeviceView>) -> Seq<DeviceView>
    decreases sims.len(),
{
    if sims.len() == 0 {
        devs
    } else {
        let prev = merge_simulators(devs, sims.drop_last());
        if has_device_id(prev, sims.last().0) {
            prev
        } else {
            prev.push(sims.last())
        }
    }
}

/// The running devices from the `flutter devices` reply `f` and, on macOS
/// (`mac`), the `simctl list devices` reply `s`.
pub open spec fn running_devices(f: RunResult, s: RunResult, mac: bool) -> Seq<DeviceView> {
    if mac {
        merge_simulators(flutter_reply_devices(f), simctl_reply_simulators(s))
    } else {
        flutter_reply_devices(f)
    }
}

/// Reads one entry of `flutter devices --machine`; see `flutter_device`.
pub fn parse_flutter_device(map: &Vec<(String, Json)>) -> (r: Option<Device>)
    ensures
        match r {
            Some(d) => flutter_device(map@) == Some(d@),
            None => flutter_device(map@) is None,
        },
{
    let id = match str_member_of(map, "id") {
        Some(s) => s,
        None => return None,
    };
    let name = match str_member_of(map, "name") {
        Some(s) => s,
        None => return None,
    };
    let tp_raw: &str = match str_member_of(map, "targetPlatform") {
        Some(t) => t,
        None => "",
    };
    let tp = to_lowercase(tp_raw);
    let is_emulator = match bool_member_of(map, "emulator") {
        Some(b) => b,
        None => false,
    };
    if str_contains(tp.as_str(), "android") {
        let device_type = if is_emulator { DeviceType::Emulator } else { DeviceType::Physical };
        Some(Device::new(id.to_string(), name.to_string(), DevicePlatform::Android, device_type))
    } else if str_contains(tp.as_str(), "ios") {
        let device_type = if is_emulator { DeviceType::Simulator } else { DeviceType::Physical };
        Some(Device::new(id.to_string(), name.to_string(), DevicePlatform::Ios, device_type))
    } else {
        None
    }
}

/// The devices of a parsed `flutter devices --machine` array; see `flutter_devices`.
pub fn devices_from_flutter_json(items: &Vec<Json>) -> (r: Vec<Device>)
    ensures
        device_views(r@) == flutter_devices(items@),
{
    let mut devices: Vec<Device> = Vec::new();
    let mut i: usize = 0;
    while i < items.len()
        invariant
            i <= items@.len(),
            device_views(devices@) == flutter_devices(items@.take(i as int)),
        decreases items.len() - i,
    {
        assert(items@.take(i + 1).drop_last() =~= items@.take(i as int));
        if let Json::Object(map) = &items[i] {
            if let Some(d) = parse_flutter_device(map) {
                let ghost before = devices@;
                devices.push(d);
                assert(device_views(devices@) =~= device_views(before).push(d@));
            }
        }
        i = i + 1;
    }
    assert(items@.take(items@.len() as int) =~= items@);
    devices
}

/// The booted simulator one runtime entry describes; see `booted_simulator`.
fn simulator_of(item: &Json) -> (r: Option<Device>)
    ensures
        match r {
            Some(d) => booted_simulator(*item) == Some(d@),
            None => booted_simulator(*item) is None,
        },
{
    let map = match item {
        Json::Object(f) => f,
        _ => {
            proof {
                reveal_strlit("");
                reveal_strlit("Booted");
            }
            return None;
        },
    };
    let state: &str = match str_member_of(map, "state") {
        Some(s) => s,
        None => "",
    };
    if !str_eq(state, "Booted") {
        return None;
    }
    let udid: &str = match str_member_of(map, "udid") {
        Some(s) => s,
        None => "",
    };
    let name: &str = match str_member_of(map, "name") {
        Some(s) => s,
        None => "",
    };
    if udid.is_empty() {
        return None;
    }
    Some(Device::new(udid.to_string(), name.to_string(), DevicePlatform::Ios, DeviceType::Simulator))
}

/// The booted iOS simulators of a parsed `simctl list devices --json` document;
/// see `simctl_reply_simulators`.
pub fn simulators_from_simctl_json(doc: &Json) -> (r: Vec<Device>)
    ensures
        device_views(r@) == match json_get(*doc, "devices"@) {
            Some(Json::Object(m)) => runtime_simulators(m@),
            _ => Seq::empty(),
        },
{
    let mut sims: Vec<Device> = Vec::new();
    let fields = match doc {
        Json::Object(f) => f,
        _ => return sims,
    };
    let runtimes = match crate::json::find_member(fields, "devices") {
        Some(Json::Object(m)) => m,
        _ => return sims,
    };
    let mut i: usize = 0;
    while i < runtimes.len()
        invariant
            i <= runtimes@.len(),
            device_views(sims@) == runtime_simulators(runtimes@.take(i as int)),
        decreases runtimes.len() - i,
    {
        assert(runtimes@.take(i + 1).drop_last() =~= runtimes@.take(i as int));
        let key = &runtimes[i].0;
        if str_contains(key.as_str(), "iOS") {
            if let Json::Array(items) = &runtimes[i].1 {
                let ghost start = device_views(sims@);
                let mut j: usize = 0;
                while j < items.len()
                    invariant
                        j <= items@.len(),
                        device_views(sims@) == start + booted_simulators(items@.take(j as int)),
                    decreases items.len() - j,
                {
                    assert(items@.take(j + 1).drop_last() =~= items@.take(j as int));
                    if let Some(d) = simulator_of(&items[j]) {
                        let ghost before = sims@;
                        sims.push(d);
                        assert(device_views(sims@) =~= device_views(before).push(d@));
                    }
                    j = j + 1;
                }
                assert(items@.take(items@.len() as int) =~= items@);
            }
        }
        i = i + 1;
    }
    assert(runtimes@.take(runtimes@.len() as int) =~= runtimes@);
    sims
}

/// Appends to `devices` the simulators whose id it does not list yet.
pub fn merge_simulator_list(devices: &mut Vec<Device>, sims: Vec<Device>)
    ensures
        device_views(final(devices)@) == merge_simulators(device_views(old(devices)@), device_views(sims@)),
{
    let ghost start = device_views(devices@);
    let mut k: usize = 0;
    while k < sims.len()
        invariant
            k <= sims@.len(),
            device_views(devices@) == merge_simulators(start, device_views(sims@.take(k as int))),
        decreases sims.len() - k,
    {
        let ghost sv = device_views(sims@.take(k + 1));
        assert(sv.drop_last() =~= device_views(sims@.take(k as int)));
        let mut found = false;
        let mut m: usize = 0;
        while m < devices.len()
            invariant
                m <= devices@.len(),
                k < sims@.len(),
                found == exists|i: int| 0 <= i < m && devices@[i].id@ == sims@[k as int].id@,
            decreases devices.len() - m,
        {
            if str_eq(devices[m].id.as_str(), sims[k].id.as_str()) {
                found = true;
            }
            m = m + 1;
        }
        proof {
            let dv = device_views(devices@);
            if found {
                let i = choose|i: int| 0 <= i < devices@.len() && devices@[i].id@ == sims@[k as int].id@;
                assert(dv[i].0 == sv.last().0);
            } else {
                assert forall|i: int| 0 <= i < dv.len() implies (#[trigger] dv[i]).0 != sv.last().0 by {
                    assert(devices@[i].id@ != sims@[k as int].id@);
                }
            }
        }
        if !found {
            let ghost before = devices@;
            devices.push(sims[k].clone_device());
            assert(device_views(devices@) =~= device_views(before).push(sims@[k as int]@));
        }
        k = k + 1;
    }
    assert(sims@.take(sims@.len() as int) =~= sims@);
}

/// Lists running devices through a runner, keeping the record of what it
/// asked.
pub struct DeviceManager<'a, R: Runner> {
    session: Session<'a, R>,
}

impl<'a, R: Runner> DeviceManager<'a, R> {
    pub fn new(runner: &'a R) -> (m: Self)
        ensures
            m.calls() == Seq::<Call>::empty(),
    {
        DeviceManager { session: Session::new(runner) }
    }

    /// The requests this manager made so far, each with its answer.
    pub closed spec fn calls(&self) -> Seq<Call> {
        self.session.calls()
    }

    /// Devices from `flutter devices --machine`, and on macOS the booted iOS
    /// simulators that Flutter did not list; see `device_listing`.
    pub fn list_running_devices(&mut self) -> (r: Vec<Device>)
        ensures
            extends(old(self).calls(), final(self).calls()),
            device_listing(since(old(self).calls(), final(self).calls()), device_views(r@)),
    {
        list_running_devices_logged(&mut self.session)
    }

    /// The booted iOS simulators `simctl list devices --json` reports.
    pub fn list_ios_simulators(&mut self) -> (r: Vec<Device>)
        ensures
            extends(old(self).calls(), final(self).calls()),
            since(old(self).calls(), final(self).calls()).len() == 1,
            is_run(since(old(self).calls(), final(self).calls())[0], "xcrun"@, simctl_list_args()),
            device_views(r@) == simctl_reply_simulators(reply_of(since(old(self).calls(), final(self).calls())[0])),
    {
        let sargs = ["simctl", "list", "devices", "--json"];
        assert(strs_view(sargs@) =~= simctl_list_args());
        let reply = self.session.run("xcrun", &sargs, None);
        assert(since(old(self).calls(), self.calls())[0] == self.calls().last());
        simulators_of_simctl_reply(&reply)
    }
}

/// The devices a `flutter devices --machine` reply lists.
fn devices_of_flutter_reply(result: &RunResult) -> (r: Vec<Device>)
    ensures
        device_views(r@) == flutter_reply_devices(*result),
{
    let mut devices: Vec<Device> = Vec::new();
    if result.is_success() && !result.stdout.as_str().is_empty() {
        if let Some(Json::Array(items)) = parse_json(result.stdout.as_str()) {
            devices = devices_from_flutter_json(&items);
        }
    }
    devices
}

/// The booted simulators a `simctl list devices --json` reply lists.
fn simulators_of_simctl_reply(result: &RunResult) -> (r: Vec<Device>)
    ensures
        device_views(r@) == simctl_reply_simulators(*result),
{
    if !result.is_success() || result.stdout.as_str().is_empty() {
        return Vec::new();
    }
    match parse_json(result.stdout.as_str()) {
        Some(doc) => simulators_from_simctl_json(&doc),
        None => Vec::new(),
    }
}

/// The arguments of `flutter devices --machine`.
pub open spec fn flutter_devices_args() -> Seq<Seq<char>> {
    seq!["devices"@, "--machine"@]
}

/// The arguments of `xcrun simctl list devices --json`.
pub open spec fn simctl_list_args() -> Seq<Seq<char>> {
    seq!["simctl"@, "list"@, "devices"@, "--json"@]
}

/// The requests `t` of listing the running devices, which found `devices`:
/// `flutter devices --machine`, the host question and, on macOS,
/// `xcrun simctl list devices --json`, the simulators merged in.
pub open spec fn device_listing(t: Seq<Call>, devices: Seq<DeviceView>) -> bool {
    &&& t.len() >= 2
    &&& is_run(t[0], "flutter"@, flutter_devices_args())
    &&& match t[1] {
        Call::Host { reply } => if reply == HostOs::MacOs {
            t.len() == 3 && is_run(t[2], "xcrun"@, simctl_list_args())
                && devices == running_devices(reply_of(t[0]), reply_of(t[2]), true)
        } else {
            t.len() == 2 && devices == running_devices(reply_of(t[0]), reply_of(t[0]), false)
        },
        _ => false,
    }
}

/// Lists the running devices through a session; see `device_listing`.
pub fn list_running_devices_logged<R: Runner>(runner: &mut Session<R>) -> (r: Vec<Device>)
    ensures
        extends(old(runner).calls(), final(runner).calls()),
        device_listing(since(old(runner).calls(), final(runner).calls()), device_views(r@)),
        final(runner).source() == old(runner).source(),
{
    let ghost start = runner.calls();
    let fargs = ["devices", "--machine"];
    assert(strs_view(fargs@) =~= flutter_devices_args());
    let result = runner.run("flutter", &fargs, None);
    let ghost c0 = runner.calls().last();
    let mut devices = devices_of_flutter_reply(&result);
    let host = runner.host_os();
    if host == HostOs::MacOs {
        let sargs = ["simctl", "list", "devices", "--json"];
        assert(strs_view(sargs@) =~= simctl_list_args());
        let sims_reply = runner.run("xcrun", &sargs, None);
        let sims = simulators_of_simctl_reply(&sims_reply);
        merge_simulator_list(&mut devices, sims);
        proof {
            let t = since(start, runner.calls());
            assert(t[0] == c0);
            assert(t[2] == runner.calls().last());
        }
        return devices;
    }
    proof {
        let t = since(start, runner.calls());
        assert(t[0] == c0);
    }
    devices
}

/// An entry of `flutter devices --machine` with a string id and name is an
/// Android device when its target platform mentions `android`, an iOS one
/// when it mentions `ios`, and skipped otherwise (web, desktop); an emulated
/// one is an emulator (Android) or a simulator (iOS), any other physical.
pub proof fn lemma_flutter_device_kinds(fields: Seq<(String, Json)>)
    ensures
        flutter_device(fields) matches Some(d) ==> str_member(fields, "id"@) == Some(d.0) && str_member(fields, "name"@) == Some(d.1),
        flutter_device(fields) matches Some(d) ==> (d.3 == DeviceType::Emulator ==> d.2 == DevicePlatform::Android)
            && (d.3 == DeviceType::Simulator ==> d.2 == DevicePlatform::Ios),
        flutter_device(fields) matches Some(d) ==> (d.3 == DeviceType::Physical) == (bool_member(fields, "emulator"@) != Some(true)),
        str_member(fields, "id"@) is None || str_member(fields, "name"@) is None ==> flutter_device(fields) is None,
{
}

/// Merging the simulators keeps every device already listed, in place, and
/// lists every simulator's id once it is done.
pub proof fn lemma_merge_simulators(devs: Seq<DeviceView>, sims: Seq<DeviceView>)
    ensures
        merge_simulators(devs, sims).len() >= devs.len(),
        merge_simulators(devs, sims).take(devs.len() as int) == devs,
        forall|k: int| 0 <= k < sims.len() ==> has_device_id(merge_simulators(devs, sims), #[trigger] sims[k].0),
        forall|k: int| 0 <= k < devs.len() ==> has_device_id(merge_simulators(devs, sims), #[trigger] devs[k].0),
    decreases sims.len(),
{
    if sims.len() > 0 {
        let prev = sims.drop_last();
        lemma_merge_simulators(devs, prev);
        let p = merge_simulators(devs, prev);
        let r = merge_simulators(devs, sims);
        assert(r.take(p.len() as int) =~= p);
        assert(r.take(devs.len() as int) =~= p.take(devs.len() as int));
        assert forall|k: int| 0 <= k < sims.len() implies has_device_id(r, #[trigger] sims[k].0) by {
            if k < sims.len() - 1 {
                assert(prev[k] == sims[k]);
                assert(has_device_id(p, prev[k].0));
                let i = choose|i: int| 0 <= i < p.len() && (#[trigger] p[i]).0 == prev[k].0;
                assert(r[i] == p[i]);
            } else if !has_device_id(p, sims.last().0) {
                assert(r[r.len() - 1] == sims.last());
            }
        }
        assert forall|k: int| 0 <= k < devs.len() implies has_device_id(r, #[trigger] devs[k].0) by {
            let i = choose|i: int| 0 <= i < p.len() && (#[trigger] p[i]).0 == devs[k].0;
            assert(r[i] == p[i]);
        }
    } else {
        assert(devs.take(devs.len() as int) =~= devs);
        assert forall|k: int| 0 <= k < devs.len() implies has_device_id(devs, #[trigger] devs[k].0) by {}
    }
}

/// Only booted simulators with a udid are listed from `simctl`, each as an iOS
/// simulator.
pub proof fn lemma_booted_simulators(items: Seq<Json>)
    ensures
        forall|i: int| 0 <= i < booted_simulators(items).len() ==> (#[trigger] booted_simulators(items)[i]).2 == DevicePlatform::Ios
            && booted_simulators(items)[i].3 == DeviceType::Simulator && booted_simulators(items)[i].0.len() > 0,
    decreases items.len(),
{
    if items.len() > 0 {
        lemma_booted_simulators(items.drop_last());
    }
}

} // verus!
