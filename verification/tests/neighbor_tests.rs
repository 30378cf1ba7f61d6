use unifi_adopt::neighbor::{parse_neighbor_arp, parse_neighbor_lladdr, parse_neighbor_table};

#[test]
fn arp_output_yields_uppercased_fourth_column() {
    let out = "? (192.168.1.5) at 0:11:22:aa:bb:cc on en0 ifscope [ethernet]\n\
               ? (192.168.1.20) at dc:9f:db:12:34:56 on en0 ifscope [ethernet]\n";
    assert_eq!(
        parse_neighbor_arp("192.168.1.20", out).as_deref(),
        Some("DC:9F:DB:12:34:56")
    );
}

#[test]
fn arp_line_without_colon_is_skipped() {
    let out = "? (192.168.1.20) at (incomplete) on en0 ifscope [ethernet]\n";
    assert_eq!(parse_neighbor_arp("192.168.1.20", out), None);
}

#[test]
fn arp_other_address_not_matched() {
    let out = "? (192.168.1.5) at 00:11:22:aa:bb:cc on en0 ifscope [ethernet]\n";
    assert_eq!(parse_neighbor_arp("192.168.1.20", out), None);
}

#[test]
fn lladdr_output_yields_following_token() {
    let out = "192.168.1.7 dev eth0 lladdr aa:bb:cc:dd:ee:ff REACHABLE\n\
               192.168.1.20 dev eth0 lladdr 18:e8:29:01:02:03 STALE\n";
    assert_eq!(
        parse_neighbor_lladdr("192.168.1.20", out).as_deref(),
        Some("18:E8:29:01:02:03")
    );
}

#[test]
fn lladdr_missing_marker_is_skipped() {
    let out = "192.168.1.20 dev eth0  FAILED\n";
    assert_eq!(parse_neighbor_lladdr("192.168.1.20", out), None);
}

#[test]
fn lladdr_marker_without_following_token_is_skipped() {
    let out = "192.168.1.20 dev eth0 lladdr\n";
    assert_eq!(parse_neighbor_lladdr("192.168.1.20", out), None);
}

#[test]
fn table_output_converts_hyphens() {
    let out = "Interface: 192.168.1.10 --- 0x4\n\
               \u{20} Internet Address      Physical Address      Type\n\
               \u{20} 192.168.1.1           b4-fb-e4-11-22-33     dynamic\n\
               \u{20} 192.168.1.20          74-ac-b9-44-55-66     dynamic\n";
    assert_eq!(
        parse_neighbor_table("192.168.1.20", out).as_deref(),
        Some("74:AC:B9:44:55:66")
    );
}

#[test]
fn table_short_or_placeholder_entries_are_skipped() {
    let out = "  192.168.1.20          incomplete     invalid\n";
    assert_eq!(parse_neighbor_table("192.168.1.20", out), None);
    let short = "  192.168.1.20          aa-bb     dynamic\n";
    assert_eq!(parse_neighbor_table("192.168.1.20", short), None);
}
