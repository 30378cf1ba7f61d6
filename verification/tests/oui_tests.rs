use unifi_adopt::oui::{
    apply_override_line, apply_override_text, get_manufacturer, load_fallback_database, OuiTable,
};

fn baseline() -> OuiTable {
    let mut t = OuiTable::new();
    load_fallback_database(&mut t);
    t
}

#[test]
fn sentinel_resolves_to_itself() {
    let t = baseline();
    assert_eq!(get_manufacturer("Unknown", &t), "Unknown");
}

#[test]
fn baseline_entries_resolve() {
    let t = baseline();
    assert_eq!(get_manufacturer("00:27:22:AA:BB:CC", &t), "Ubiquiti Networks");
    assert_eq!(get_manufacturer("FC:EC:DA:00:00:00", &t), "Ubiquiti Inc");
    assert_eq!(get_manufacturer("B8:27:EB:01:02:03", &t), "Raspberry Pi Foundation");
    assert_eq!(get_manufacturer("00:0C:29:99:88:77", &t), "VMware");
}

#[test]
fn miss_embeds_original_prefix() {
    let t = baseline();
    assert_eq!(get_manufacturer("12:34:56:78:9a:bc", &t), "Unknown (12:34:56)");
}

#[test]
fn miss_keeps_unpadded_lowercase_prefix() {
    let t = baseline();
    let r = get_manufacturer("a:b:c:d:e:f", &t);
    assert_eq!(r, "Unknown (a:b:c)");
}

#[test]
fn lookup_is_case_insensitive_and_pads_single_digits() {
    let mut t = OuiTable::new();
    t.insert("AA01CC".to_owned(), "Example Vendor".to_owned());
    assert_eq!(get_manufacturer("aa:1:cc:dd:ee:ff", &t), "Example Vendor");
    assert_eq!(get_manufacturer("AA:01:CC:DD:EE:FF", &t), "Example Vendor");
}

#[test]
fn override_base16_line_adds_entry() {
    let mut t = baseline();
    let changed = apply_override_line(&mut t, "AABBCC     (base 16)\t\tExample Corp");
    assert!(changed);
    assert_eq!(get_manufacturer("AA:BB:CC:00:00:00", &t), "Example Corp");
}

#[test]
fn override_hex_line_with_hyphens_adds_entry() {
    let mut t = baseline();
    let changed = apply_override_line(&mut t, "AA-BB-CD   (hex)\t\tOther Co");
    assert!(changed);
    assert_eq!(get_manufacturer("aa:bb:cd:11:22:33", &t), "Other Co");
}

#[test]
fn override_replaces_baseline_entry() {
    let mut t = baseline();
    apply_override_line(&mut t, "002722     (base 16)\t\tRenamed Vendor");
    assert_eq!(get_manufacturer("00:27:22:AA:BB:CC", &t), "Renamed Vendor");
}

#[test]
fn malformed_override_lines_are_ignored() {
    let mut t = baseline();
    assert!(!apply_override_line(&mut t, "no marker on this line"));
    assert!(!apply_override_line(&mut t, "AABBCC (base 16)"));
    assert!(!apply_override_line(&mut t, ""));
    assert_eq!(get_manufacturer("AA:BB:CC:00:00:00", &t), "Unknown (AA:BB:CC)");
}

#[test]
fn override_text_applies_lines_in_order() {
    let mut t = baseline();
    let text = "header line\nAABBCC (base 16) First Name\nAABBCC (base 16) Second Name\n";
    apply_override_text(&mut t, text);
    assert_eq!(get_manufacturer("AA:BB:CC:00:00:00", &t), "Second Name");
}
