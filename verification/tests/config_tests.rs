use unifi_adopt::config::{parse_config, render_config, AppConfig};

#[test]
fn defaults_match_shipped_settings() {
    let c = AppConfig::default();
    assert_eq!(c.controller_url, "http://192.168.1.1:8080");
    assert_eq!(c.ssh_username, "ubnt");
    assert_eq!(c.ssh_password, "ubnt");
    assert_eq!(c.alt_ssh_username, "");
    assert_eq!(c.alt_ssh_password, "");
}

#[test]
fn parse_overrides_named_fields() {
    let c = parse_config(
        "controller_url=http://10.0.0.2:8080\nssh_username = admin\nssh_password=pw\n",
    );
    assert_eq!(c.controller_url, "http://10.0.0.2:8080");
    assert_eq!(c.ssh_username, "admin");
    assert_eq!(c.ssh_password, "pw");
    assert_eq!(c.alt_ssh_username, "");
    assert_eq!(c.alt_ssh_password, "");
}

#[test]
fn parse_ignores_unknown_keys_and_plain_lines() {
    let c = parse_config("junk\nnot_a_key=zzz\n\nssh_username=root\n");
    assert_eq!(c.ssh_username, "root");
    assert_eq!(c.ssh_password, "ubnt");
}

#[test]
fn later_lines_win() {
    let c = parse_config("ssh_username=a\nssh_username=b\n");
    assert_eq!(c.ssh_username, "b");
}

#[test]
fn value_keeps_later_equals_signs() {
    let c = parse_config("controller_url=http://h:8080/a=b\n");
    assert_eq!(c.controller_url, "http://h:8080/a=b");
}

#[test]
fn render_produces_exact_lines() {
    let c = AppConfig::default();
    assert_eq!(
        render_config(&c),
        "controller_url=http://192.168.1.1:8080\nssh_username=ubnt\nssh_password=ubnt\nalt_ssh_username=\nalt_ssh_password=\n"
    );
}

#[test]
fn render_then_parse_round_trips() {
    let mut c = AppConfig::default();
    c.controller_url = "http://controller:9090".to_owned();
    c.alt_ssh_username = "fallback".to_owned();
    c.alt_ssh_password = "secret".to_owned();
    let r = parse_config(&render_config(&c));
    assert_eq!(r.controller_url, c.controller_url);
    assert_eq!(r.ssh_username, c.ssh_username);
    assert_eq!(r.ssh_password, c.ssh_password);
    assert_eq!(r.alt_ssh_username, c.alt_ssh_username);
    assert_eq!(r.alt_ssh_password, c.alt_ssh_password);
}
