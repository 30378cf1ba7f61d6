use unifi_adopt::range::{enumerate, format_ip, parse_ip, ParseError};

#[test]
fn parse_rejects_octet_above_255() {
    assert_eq!(parse_ip("256.1.1.1"), Err(ParseError::OutOfRange));
}

#[test]
fn parse_rejects_three_groups() {
    assert_eq!(parse_ip("1.2.3"), Err(ParseError::InvalidFormat));
}

#[test]
fn parse_rejects_five_groups() {
    assert_eq!(parse_ip("1.2.3.4.5"), Err(ParseError::InvalidFormat));
}

#[test]
fn parse_rejects_empty_group() {
    assert_eq!(parse_ip("1..2.3"), Err(ParseError::InvalidFormat));
    assert_eq!(parse_ip(""), Err(ParseError::InvalidFormat));
}

#[test]
fn parse_rejects_non_digits() {
    assert_eq!(parse_ip("1.2.3.x"), Err(ParseError::InvalidFormat));
    assert_eq!(parse_ip("a.b.c.d"), Err(ParseError::InvalidFormat));
}

#[test]
fn parse_format_checked_before_range() {
    assert_eq!(parse_ip("300.1.2"), Err(ParseError::InvalidFormat));
}

#[test]
fn parse_succeeds_and_round_trips() {
    let n = parse_ip("10.0.0.5").unwrap();
    assert_eq!(n, (10u32 << 24) | 5);
    assert_eq!(format_ip(n), "10.0.0.5");
}

#[test]
fn parse_accepts_leading_zeros() {
    assert_eq!(parse_ip("010.0.0.001"), Ok((10u32 << 24) | 1));
}

#[test]
fn parse_rejects_long_group_as_out_of_range() {
    assert_eq!(parse_ip("99999999999999999999.0.0.1"), Err(ParseError::OutOfRange));
}

#[test]
fn format_extremes() {
    assert_eq!(format_ip(0), "0.0.0.0");
    assert_eq!(format_ip(u32::MAX), "255.255.255.255");
    assert_eq!(format_ip((192u32 << 24) | (168 << 16) | (1 << 8) | 254), "192.168.1.254");
}

#[test]
fn enumerate_counts_and_orders() {
    let start = parse_ip("192.168.1.1").unwrap();
    let end = parse_ip("192.168.1.3").unwrap();
    let addrs = enumerate(start, end);
    assert_eq!(addrs.len(), 3);
    assert_eq!(addrs[0], "192.168.1.1");
    assert_eq!(addrs[1], "192.168.1.2");
    assert_eq!(addrs[2], "192.168.1.3");
    let mut prev = None;
    for a in &addrs {
        let v = parse_ip(a).unwrap();
        if let Some(p) = prev {
            assert!(v > p);
        }
        prev = Some(v);
    }
}

#[test]
fn enumerate_crosses_octet_boundary() {
    let start = parse_ip("10.0.0.254").unwrap();
    let end = parse_ip("10.0.1.1").unwrap();
    let addrs = enumerate(start, end);
    assert_eq!(addrs.len(), 4);
    assert_eq!(addrs[0], "10.0.0.254");
    assert_eq!(addrs[1], "10.0.0.255");
    assert_eq!(addrs[2], "10.0.1.0");
    assert_eq!(addrs[3], "10.0.1.1");
}

#[test]
fn enumerate_single_address() {
    let n = parse_ip("172.16.0.1").unwrap();
    let addrs = enumerate(n, n);
    assert_eq!(addrs.len(), 1);
    assert_eq!(addrs[0], "172.16.0.1");
}

#[test]
fn parse_round_trips_extremes() {
    assert_eq!(parse_ip("255.255.255.255"), Ok(u32::MAX));
    assert_eq!(format_ip(parse_ip("255.255.255.255").unwrap()), "255.255.255.255");
    assert_eq!(parse_ip("0.0.0.0"), Ok(0));
    assert_eq!(format_ip(0), "0.0.0.0");
}
