use unifi_adopt::session::{inform_command, AdoptErrorKind, AdoptionSession, SessionPhase};

#[test]
fn begin_writes_connection_banner() {
    let s = AdoptionSession::begin("ubnt", "192.168.1.20");
    assert_eq!(s.phase, SessionPhase::Connecting);
    assert_eq!(s.error, None);
    assert_eq!(s.transcript, "ubnt@192.168.1.20\n");
}

#[test]
fn auth_failure_keeps_banner_in_transcript() {
    let mut s = AdoptionSession::begin("ubnt", "10.0.0.9");
    s.connected();
    s.auth_failed("bad credentials");
    assert_eq!(s.phase, SessionPhase::Failed);
    assert_eq!(s.error, Some(AdoptErrorKind::Authentication));
    assert_eq!(s.transcript, "ubnt@10.0.0.9\n\nAuthentication failed: bad credentials");
    assert!(!s.transcript.is_empty());
    assert!(s.transcript.contains("ubnt@10.0.0.9"));
    assert!(s.transcript.contains("Authentication failed"));
}

#[test]
fn silent_auth_rejection_reports_invalid_credentials() {
    let mut s = AdoptionSession::begin("admin", "10.0.0.9");
    s.connected();
    s.auth_rejected();
    assert_eq!(s.error, Some(AdoptErrorKind::Authentication));
    assert_eq!(s.transcript, "admin@10.0.0.9\n\nAuthentication failed: Invalid credentials");
}

#[test]
fn connect_failure_is_a_connection_error() {
    let mut s = AdoptionSession::begin("ubnt", "10.0.0.9");
    s.connect_failed("timed out");
    assert_eq!(s.phase, SessionPhase::Failed);
    assert_eq!(s.error, Some(AdoptErrorKind::Connection));
    assert_eq!(s.transcript, "ubnt@10.0.0.9\n\nConnection failed: timed out");
}

#[test]
fn shell_failures_are_protocol_errors() {
    let mut s = AdoptionSession::begin("ubnt", "10.0.0.9");
    s.connected();
    s.authenticated();
    s.pty_failed("no pty");
    assert_eq!(s.error, Some(AdoptErrorKind::Protocol));
    assert_eq!(s.transcript, "ubnt@10.0.0.9\n\nFailed to request PTY: no pty");
}

#[test]
fn prompt_read_keeps_only_last_prompt_line() {
    let mut s = AdoptionSession::begin("ubnt", "10.0.0.9");
    s.connected();
    s.authenticated();
    s.shell_started();
    let chunk = s.prompt_read("\x1b[0mWelcome to the device\r\nsome motd\r\nUS.v4.3.28#\r\n");
    assert_eq!(chunk.as_deref(), Some("US.v4.3.28#\n"));
    assert_eq!(s.transcript, "ubnt@10.0.0.9\nUS.v4.3.28#\n");
    assert_eq!(s.phase, SessionPhase::AwaitingPrompt);
}

#[test]
fn prompt_read_without_marker_emits_nothing() {
    let mut s = AdoptionSession::begin("ubnt", "10.0.0.9");
    s.connected();
    s.authenticated();
    s.shell_started();
    let chunk = s.prompt_read("banner only, no marker\r\n");
    assert_eq!(chunk, None);
    assert_eq!(s.transcript, "ubnt@10.0.0.9\n");
}

#[test]
fn drain_appends_cleaned_output() {
    let mut s = AdoptionSession::begin("ubnt", "10.0.0.9");
    s.connected();
    s.authenticated();
    s.shell_started();
    s.command_sent();
    let c1 = s.drain_chunk("\x1b[32mAdoption request sent\x1b[0m\r\n");
    assert_eq!(c1, "Adoption request sent\n");
    let c2 = s.drain_chunk("done\r\n");
    assert_eq!(c2, "done\n");
    s.finish();
    assert_eq!(s.phase, SessionPhase::Done);
    assert_eq!(s.transcript, "ubnt@10.0.0.9\nAdoption request sent\ndone\n");
}

#[test]
fn command_write_failure_is_protocol_error() {
    let mut s = AdoptionSession::begin("ubnt", "10.0.0.9");
    s.connected();
    s.authenticated();
    s.shell_started();
    s.command_send_failed("broken pipe");
    assert_eq!(s.error, Some(AdoptErrorKind::Protocol));
    assert_eq!(s.transcript, "ubnt@10.0.0.9\n\nFailed to send command: broken pipe");
}

#[test]
fn inform_command_interpolates_controller() {
    assert_eq!(
        inform_command("http://192.168.1.1:8080"),
        "set-inform http://192.168.1.1:8080/inform\n"
    );
}
