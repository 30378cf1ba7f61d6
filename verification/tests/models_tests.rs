use unifi_adopt::models::{
    append_device_log, begin_adoption, device_from_probe, finish_adoption,
    mark_selected_in_progress, selected_addresses, set_selected, Device, DeviceStatus,
};
use unifi_adopt::oui::{load_fallback_database, OuiTable};
use unifi_adopt::range::{enumerate, parse_ip};

fn table() -> OuiTable {
    let mut t = OuiTable::new();
    load_fallback_database(&mut t);
    t
}

fn probe(ip: &str, alive: bool, mac: Option<&str>, t: &OuiTable) -> Option<Device> {
    device_from_probe(ip.to_owned(), alive, false, mac.map(|m| m.to_owned()), t)
}

#[test]
fn dead_host_produces_no_record() {
    let t = table();
    assert!(probe("192.168.1.2", false, None, &t).is_none());
}

#[test]
fn live_host_produces_pending_record() {
    let t = table();
    let d = probe("192.168.1.1", true, Some("00:27:22:aa:bb:cc"), &t).unwrap();
    assert_eq!(d.ip, "192.168.1.1");
    assert_eq!(d.mac, "00:27:22:aa:bb:cc");
    assert_eq!(d.company, "Ubiquiti Networks");
    assert_eq!(d.status, DeviceStatus::Pending);
    assert!(!d.selected);
    assert!(d.logs.is_empty());
}

#[test]
fn missing_mac_uses_sentinel() {
    let t = table();
    let d = probe("192.168.1.1", true, None, &t).unwrap();
    assert_eq!(d.mac, "Unknown");
    assert_eq!(d.company, "Unknown");
}

#[test]
fn scan_scenario_two_of_three_answer() {
    let t = table();
    let start = parse_ip("192.168.1.1").unwrap();
    let end = parse_ip("192.168.1.3").unwrap();
    let addrs = enumerate(start, end);
    assert_eq!(addrs.len(), 3);
    let liveness = [true, false, true];
    let mut records = Vec::new();
    for (addr, alive) in addrs.iter().zip(liveness.iter()) {
        if let Some(d) = device_from_probe(addr.clone(), *alive, false, None, &t) {
            records.push(d);
        }
    }
    assert_eq!(records.len(), 2);
    let mut ips: Vec<&str> = records.iter().map(|d| d.ip.as_str()).collect();
    ips.sort();
    assert_eq!(ips, vec!["192.168.1.1", "192.168.1.3"]);
    for d in &records {
        assert_eq!(d.status, DeviceStatus::Pending);
    }
}

#[test]
fn adoption_lifecycle_pending_to_terminal() {
    let t = table();
    let mut d = probe("192.168.1.1", true, None, &t).unwrap();
    set_selected(&mut d, true);
    assert_eq!(d.status, DeviceStatus::Pending);
    begin_adoption(&mut d);
    assert_eq!(d.status, DeviceStatus::InProgress);
    assert!(d.logs.is_empty());
    append_device_log(&mut d, "chunk one\n");
    finish_adoption(&mut d, true, "chunk one\nfinished\n".to_owned());
    assert_eq!(d.status, DeviceStatus::Success);
    assert!(!d.logs.is_empty());

    begin_adoption(&mut d);
    assert_eq!(d.status, DeviceStatus::InProgress);
    assert!(d.logs.is_empty());
    finish_adoption(&mut d, false, "partial\nerror detail\n".to_owned());
    assert_eq!(d.status, DeviceStatus::Error);
    assert!(!d.logs.is_empty());
}

#[test]
fn bulk_selection_marks_only_selected() {
    let t = table();
    let mut devices = vec![
        probe("10.0.0.1", true, None, &t).unwrap(),
        probe("10.0.0.2", true, None, &t).unwrap(),
        probe("10.0.0.3", true, None, &t).unwrap(),
    ];
    set_selected(&mut devices[0], true);
    set_selected(&mut devices[2], true);
    devices[1].logs = "old".to_owned();
    mark_selected_in_progress(&mut devices);
    assert_eq!(devices[0].status, DeviceStatus::InProgress);
    assert_eq!(devices[1].status, DeviceStatus::Pending);
    assert_eq!(devices[2].status, DeviceStatus::InProgress);
    assert_eq!(devices[1].logs, "old");
}

#[test]
fn selected_addresses_lists_indices_in_order() {
    let t = table();
    let mut devices = vec![
        probe("10.0.0.1", true, None, &t).unwrap(),
        probe("10.0.0.2", true, None, &t).unwrap(),
        probe("10.0.0.3", true, None, &t).unwrap(),
    ];
    set_selected(&mut devices[1], true);
    set_selected(&mut devices[2], true);
    let sel = selected_addresses(&devices);
    assert_eq!(sel.len(), 2);
    assert_eq!(sel[0].0, 1);
    assert_eq!(sel[0].1, "10.0.0.2");
    assert_eq!(sel[1].0, 2);
    assert_eq!(sel[1].1, "10.0.0.3");
}

#[test]
fn row_click_toggles_pending_selection() {
    let t = table();
    let mut devices = vec![probe("10.0.0.1", true, None, &t).unwrap()];
    let expanded = unifi_adopt::models::apply_row_click(&mut devices, None, 0);
    assert!(devices[0].selected);
    assert_eq!(expanded, None);
    let expanded = unifi_adopt::models::apply_row_click(&mut devices, None, 0);
    assert!(!devices[0].selected);
    assert_eq!(expanded, None);
}

#[test]
fn row_click_toggles_expansion_for_finished_device() {
    let t = table();
    let mut devices = vec![probe("10.0.0.1", true, None, &t).unwrap()];
    finish_adoption(&mut devices[0], true, "log".to_owned());
    let expanded = unifi_adopt::models::apply_row_click(&mut devices, None, 0);
    assert_eq!(expanded, Some(0));
    assert!(!devices[0].selected);
    let expanded = unifi_adopt::models::apply_row_click(&mut devices, expanded, 0);
    assert_eq!(expanded, None);
}

#[test]
fn row_click_outside_list_changes_nothing() {
    let t = table();
    let mut devices = vec![probe("10.0.0.1", true, None, &t).unwrap()];
    let expanded = unifi_adopt::models::apply_row_click(&mut devices, Some(0), 5);
    assert_eq!(expanded, Some(0));
    assert_eq!(devices[0].status, DeviceStatus::Pending);
}
