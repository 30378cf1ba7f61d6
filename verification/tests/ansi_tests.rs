use unifi_adopt::ansi::strip_ansi_codes;

#[test]
fn strips_color_codes_and_carriage_returns() {
    assert_eq!(strip_ansi_codes("\x1b[31mHELLO\x1b[0m\r\n"), "HELLO\n");
}

#[test]
fn clean_text_is_unchanged() {
    assert_eq!(strip_ansi_codes("plain text\nsecond line\n"), "plain text\nsecond line\n");
}

#[test]
fn cleaning_is_idempotent_on_samples() {
    let samples = [
        "\x1b[31mred\x1b[0m",
        "a\rb\rc",
        "\x1b[2J\x1b[Hcleared",
        "mixed \x1b[1;32mbold green\x1b[m end\r\n",
    ];
    for s in samples {
        let once = strip_ansi_codes(s);
        let twice = strip_ansi_codes(&once);
        assert_eq!(twice, once);
    }
}

#[test]
fn escape_without_bracket_is_dropped_alone() {
    assert_eq!(strip_ansi_codes("\x1bZabc"), "Zabc");
    assert_eq!(strip_ansi_codes("tail\x1b"), "tail");
}

#[test]
fn unterminated_escape_consumes_rest() {
    assert_eq!(strip_ansi_codes("ab\x1b[123"), "ab");
}

#[test]
fn multibyte_parameters_are_consumed() {
    assert_eq!(strip_ansi_codes("\x1b[38;5;196mX\x1b[0m"), "X");
}
