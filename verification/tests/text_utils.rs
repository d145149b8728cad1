use lazyssh::text::{parse_u16, str_contains_ci, str_eq_ci, str_trim, str_trim_end, u16_to_string};

#[test]
fn case_insensitive_equality() {
    assert!(str_eq_ci("HostName", "hostname"));
    assert!(str_eq_ci("", ""));
    assert!(!str_eq_ci("host", "hostname"));
    assert!(!str_eq_ci("porx", "port"));
    // folding is ASCII-only: non-letters compare exactly
    assert!(str_eq_ci("a-B", "A-b"));
    assert!(!str_eq_ci("a_b", "a-b"));
}

#[test]
fn case_insensitive_substring() {
    assert!(str_contains_ci("Example.COM", "e.com"));
    assert!(str_contains_ci("anything", ""));
    assert!(!str_contains_ci("short", "longer than hay"));
    assert!(str_contains_ci("WebServer", "webs"));
    assert!(!str_contains_ci("WebServer", "webx"));
}

#[test]
fn trimming() {
    assert_eq!(str_trim("  a b \t"), "a b");
    assert_eq!(str_trim(""), "");
    assert_eq!(str_trim(" \t\r "), "");
    assert_eq!(str_trim_end("a  "), "a");
    assert_eq!(str_trim_end("  a"), "  a");
}

#[test]
fn parse_u16_accepts_plain_and_plus() {
    assert_eq!(parse_u16("0"), Some(0));
    assert_eq!(parse_u16("22"), Some(22));
    assert_eq!(parse_u16("65535"), Some(65535));
    assert_eq!(parse_u16("+80"), Some(80));
}

#[test]
fn parse_u16_rejects_bad_input() {
    assert_eq!(parse_u16(""), None);
    assert_eq!(parse_u16("+"), None);
    assert_eq!(parse_u16("-1"), None);
    assert_eq!(parse_u16("65536"), None);
    assert_eq!(parse_u16("99999999999999999999"), None);
    assert_eq!(parse_u16("12a"), None);
    assert_eq!(parse_u16("++1"), None);
    assert_eq!(parse_u16(" 22"), None);
}

#[test]
fn u16_to_string_round_trips() {
    for n in [0u16, 1, 9, 10, 22, 100, 6553, 65535] {
        let s = u16_to_string(n);
        assert_eq!(s, n.to_string());
        assert_eq!(parse_u16(&s), Some(n));
    }
}
