use unifi_adopt::netif::{calculate_network_range, get_default_network, NetworkInterface};
use unifi_adopt::range::parse_ip;

fn iface(name: &str, ip: &str) -> NetworkInterface {
    NetworkInterface {
        name: name.to_owned(),
        ip: ip.to_owned(),
        start_ip: String::new(),
        end_ip: String::new(),
        cidr: String::new(),
    }
}

#[test]
fn slash_24_range() {
    let ip = parse_ip("192.168.1.57").unwrap();
    let mask = parse_ip("255.255.255.0").unwrap();
    let (start, end, cidr) = calculate_network_range(ip, mask);
    assert_eq!(start, "192.168.1.1");
    assert_eq!(end, "192.168.1.254");
    assert_eq!(cidr, "192.168.1.0/24");
}

#[test]
fn slash_16_range() {
    let ip = parse_ip("10.1.2.3").unwrap();
    let mask = parse_ip("255.255.0.0").unwrap();
    let (start, end, cidr) = calculate_network_range(ip, mask);
    assert_eq!(start, "10.1.0.1");
    assert_eq!(end, "10.1.255.254");
    assert_eq!(cidr, "10.1.0.0/16");
}

#[test]
fn home_network_preferred_over_ten_dot() {
    let nets = vec![iface("eth0", "10.0.0.5"), iface("wlan0", "192.168.3.7")];
    let picked = get_default_network(&nets).unwrap();
    assert_eq!(picked.ip, "192.168.3.7");
}

#[test]
fn ten_dot_preferred_over_172() {
    let nets = vec![iface("a", "172.20.0.2"), iface("b", "10.9.8.7")];
    let picked = get_default_network(&nets).unwrap();
    assert_eq!(picked.ip, "10.9.8.7");
}

#[test]
fn private_172_recognized_by_second_octet() {
    let nets = vec![iface("a", "203.0.113.9"), iface("b", "172.31.0.2")];
    let picked = get_default_network(&nets).unwrap();
    assert_eq!(picked.ip, "172.31.0.2");
}

#[test]
fn non_private_172_falls_back_to_first() {
    let nets = vec![iface("a", "172.15.0.2"), iface("b", "172.32.0.2")];
    let picked = get_default_network(&nets).unwrap();
    assert_eq!(picked.ip, "172.15.0.2");
}

#[test]
fn empty_list_yields_none() {
    assert!(get_default_network(&Vec::new()).is_none());
}

#[test]
fn describe_formats_interface() {
    let mut n = iface("eth0", "192.168.1.2");
    n.cidr = "192.168.1.0/24".to_owned();
    assert_eq!(n.describe(), "eth0 - 192.168.1.2 (192.168.1.0/24)");
}
