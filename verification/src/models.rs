//! Device records: what one discovery run produces per live host, and the
//! status lifecycle an adoption session drives them through.

use vstd::prelude::*;
use crate::oui::{resolved_vendor, OuiTable};
use crate::strutil::str_chars;

verus! {

/// Which settings pane is active.
#[derive(Clone, Copy, Debug, PartialEq, Eq, Structural)]
pub enum SettingsTab {
    General,
    DefaultCredentials,
    AlternativeCredentials,
}

/// The lifecycle of one device record: `Pending` until an adoption starts,
/// `InProgress` while it runs, then exactly one of `Success` or `Error`.
#[derive(Clone, Copy, Debug, PartialEq, Eq, Structural)]
pub enum DeviceStatus {
    Pending,
    InProgress,
    Success,
    Error,
}

/// One discovered device.
#[derive(Debug)]
pub struct Device {
    pub ip: String,
    pub mac: String,
    pub company: String,
    pub selected: bool,
    pub status: DeviceStatus,
    pub logs: String,
    pub has_ssh: bool,
}

/// The hardware address a probe reports, or the sentinel when none was found.
pub open spec fn mac_or_unknown(mac: Option<String>) -> Seq<char> {
    match mac {
        Some(m) => m@,
        None => "Unknown"@,
    }
}

/// The prober's fan-in decision for one candidate address: a host that did
/// not answer the liveness probe produces no record at all; a live host
/// produces a fresh `Pending` record with its vendor resolved.
pub fn device_from_probe(
    ip: String,
    alive: bool,
    has_ssh: bool,
    mac: Option<String>,
    table: &OuiTable,
) -> (r: Option<Device>)
    ensures
        match r {
            Some(d) => alive && d.ip == ip && d.mac@ == mac_or_unknown(mac) && d.company@
                == resolved_vendor(table@, mac_or_unknown(mac)) && !d.selected && d.status
                == DeviceStatus::Pending && d.logs@ == Seq::<char>::empty() && d.has_ssh == has_ssh,
            None => !alive,
        },
{
    if !alive {
        return None;
    }
    let mac_s = match mac {
        Some(m) => m,
        None => "Unknown".to_owned(),
    };
    let company = crate::oui::get_manufacturer(mac_s.as_str(), table);
    Some(
        Device {
            ip,
            mac: mac_s,
            company,
            selected: false,
            status: DeviceStatus::Pending,
            logs: String::new(),
            has_ssh,
        },
    )
}

/// Select or deselect one record.
pub fn set_selected(device: &mut Device, checked: bool)
    ensures
        final(device).selected == checked,
        final(device).ip == old(device).ip,
        final(device).mac == old(device).mac,
        final(device).company == old(device).company,
        final(device).status == old(device).status,
        final(device).logs == old(device).logs,
        final(device).has_ssh == old(device).has_ssh,
{
    device.selected = checked;
}

/// A fresh adoption attempt takes the record to `InProgress` and first
/// clears its transcript.
pub fn begin_adoption(device: &mut Device)
    ensures
        final(device).status == DeviceStatus::InProgress,
        final(device).logs@ == Seq::<char>::empty(),
        final(device).ip == old(device).ip,
        final(device).mac == old(device).mac,
        final(device).company == old(device).company,
        final(device).selected == old(device).selected,
        final(device).has_ssh == old(device).has_ssh,
{
    device.status = DeviceStatus::InProgress;
    device.logs = String::new();
}

/// A finished adoption takes the record to exactly one terminal status and
/// stores the transcript the session returned.
pub fn finish_adoption(device: &mut Device, success: bool, logs: String)
    ensures
        final(device).status == (if success {
            DeviceStatus::Success
        } else {
            DeviceStatus::Error
        }),
        final(device).logs == logs,
        final(device).ip == old(device).ip,
        final(device).mac == old(device).mac,
        final(device).company == old(device).company,
        final(device).selected == old(device).selected,
        final(device).has_ssh == old(device).has_ssh,
{
    if success {
        device.status = DeviceStatus::Success;
    } else {
        device.status = DeviceStatus::Error;
    }
    device.logs = logs;
}

/// Append one progress chunk to a record's transcript.
pub fn append_device_log(device: &mut Device, chunk: &str)
    ensures
        final(device).logs@ == old(device).logs@ + chunk@,
        final(device).ip == old(device).ip,
        final(device).mac == old(device).mac,
        final(device).company == old(device).company,
        final(device).selected == old(device).selected,
        final(device).status == old(device).status,
        final(device).has_ssh == old(device).has_ssh,
{
    device.logs.append(chunk);
}

/// Take every selected record to `InProgress` with a cleared transcript;
/// unselected records are untouched.
pub fn mark_selected_in_progress(devices: &mut Vec<Device>)
    ensures
        final(devices)@.len() == old(devices)@.len(),
        forall|i: int|
            0 <= i < old(devices)@.len() && (#[trigger] old(devices)@[i]).selected ==> {
                &&& final(devices)@[i].status == DeviceStatus::InProgress
                &&& final(devices)@[i].logs@ == Seq::<char>::empty()
                &&& final(devices)@[i].ip == old(devices)@[i].ip
                &&& final(devices)@[i].mac == old(devices)@[i].mac
                &&& final(devices)@[i].company == old(devices)@[i].company
                &&& final(devices)@[i].selected == old(devices)@[i].selected
                &&& final(devices)@[i].has_ssh == old(devices)@[i].has_ssh
            },
        forall|i: int|
            0 <= i < old(devices)@.len() && !(#[trigger] old(devices)@[i]).selected
                ==> final(devices)@[i] == old(devices)@[i],
{
    let n = devices.len();
    let mut i: usize = 0;
    while i < n
        invariant
            n == devices@.len(),
            devices@.len() == old(devices)@.len(),
            i <= n,
            forall|j: int|
                i <= j < old(devices)@.len() ==> #[trigger] devices@[j] == old(devices)@[j],
            forall|j: int|
                0 <= j < i && (#[trigger] old(devices)@[j]).selected ==> {
                    &&& devices@[j].status == DeviceStatus::InProgress
                    &&& devices@[j].logs@ == Seq::<char>::empty()
                    &&& devices@[j].ip == old(devices)@[j].ip
                    &&& devices@[j].mac == old(devices)@[j].mac
                    &&& devices@[j].company == old(devices)@[j].company
                    &&& devices@[j].selected == old(devices)@[j].selected
                    &&& devices@[j].has_ssh == old(devices)@[j].has_ssh
                },
            forall|j: int|
                0 <= j < i && !(#[trigger] old(devices)@[j]).selected ==> devices@[j] == old(
                    devices,
                )@[j],
        decreases n - i,
    {
        if devices[i].selected {
            begin_adoption(&mut devices[i]);
        }
        i += 1;
    }
}

/// The indices and addresses of the selected records, in index order:
/// what a bulk adoption launches one session per entry for.
pub fn selected_addresses(devices: &Vec<Device>) -> (r: Vec<(usize, String)>)
    ensures
        forall|k: int|
            0 <= k < r@.len() ==> (#[trigger] r@[k]).0 < devices@.len() && devices@[r@[k].0 as int].selected
                && r@[k].1@ == devices@[r@[k].0 as int].ip@,
        forall|k1: int, k2: int|
            0 <= k1 < k2 < r@.len() ==> (#[trigger] r@[k1]).0 < (#[trigger] r@[k2]).0,
        forall|i: int|
            0 <= i < devices@.len() && (#[trigger] devices@[i]).selected ==> exists|k: int|
                0 <= k < r@.len() && (#[trigger] r@[k]).0 == i,
{
    let n = devices.len();
    let mut r: Vec<(usize, String)> = Vec::new();
    let mut i: usize = 0;
    while i < n
        invariant
            n == devices@.len(),
            i <= n,
            forall|k: int|
                0 <= k < r@.len() ==> (#[trigger] r@[k]).0 < i && devices@[r@[k].0 as int].selected
                    && r@[k].1@ == devices@[r@[k].0 as int].ip@,
            forall|k1: int, k2: int|
                0 <= k1 < k2 < r@.len() ==> (#[trigger] r@[k1]).0 < (#[trigger] r@[k2]).0,
            forall|j: int|
                0 <= j < i && (#[trigger] devices@[j]).selected ==> exists|k: int|
                    0 <= k < r@.len() && (#[trigger] r@[k]).0 == j,
        decreases n - i,
    {
        if devices[i].selected {
            let ip = devices[i].ip.clone();
            let ghost r_prev = r@;
            r.push((i, ip));
            proof {
                assert forall|j: int|
                    0 <= j <= i as int && (#[trigger] devices@[j]).selected implies exists|k: int|
                    0 <= k < r@.len() && (#[trigger] r@[k]).0 == j by {
                    if j == i as int {
                        assert(r@[r@.len() - 1].0 == j);
                    } else {
                        let k0 = choose|k: int|
                            0 <= k < r_prev.len() && (#[trigger] r_prev[k]).0 == j;
                        assert(r@[k0] == r_prev[k0]);
                    }
                }
            }
        }
        i += 1;
    }
    r
}

/// What one click on a device row decides: a `Pending` record has its
/// selection toggled; any other record toggles whether its transcript is
/// the expanded one. A click outside the list changes nothing.
pub fn apply_row_click(devices: &mut Vec<Device>, expanded: Option<usize>, index: usize) -> (r:
    Option<usize>)
    ensures
        final(devices)@.len() == old(devices)@.len(),
        forall|j: int|
            0 <= j < old(devices)@.len() && j != index ==> final(devices)@[j] == old(devices)@[j],
        index < old(devices)@.len() && old(devices)@[index as int].status == DeviceStatus::Pending
            ==> {
            &&& final(devices)@[index as int].selected == !old(devices)@[index as int].selected
            &&& final(devices)@[index as int].status == old(devices)@[index as int].status
            &&& final(devices)@[index as int].ip == old(devices)@[index as int].ip
            &&& final(devices)@[index as int].mac == old(devices)@[index as int].mac
            &&& final(devices)@[index as int].company == old(devices)@[index as int].company
            &&& final(devices)@[index as int].logs == old(devices)@[index as int].logs
            &&& final(devices)@[index as int].has_ssh == old(devices)@[index as int].has_ssh
            &&& r == expanded
        },
        index < old(devices)@.len() && old(devices)@[index as int].status != DeviceStatus::Pending
            ==> {
            &&& final(devices)@[index as int] == old(devices)@[index as int]
            &&& r == (if expanded == Some(index) {
                Option::<usize>::None
            } else {
                Some(index)
            })
        },
        index >= old(devices)@.len() ==> final(devices)@ == old(devices)@ && r == expanded,
{
    if index >= devices.len() {
        assert(final(devices)@ =~= old(devices)@);
        return expanded;
    }
    if devices[index].status == DeviceStatus::Pending {
        let now = devices[index].selected;
        set_selected(&mut devices[index], !now);
        expanded
    } else {
        if expanded == Some(index) {
            None
        } else {
            Some(index)
        }
    }
}

} // verus!
