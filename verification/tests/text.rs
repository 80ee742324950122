use holons::decimal::{decimal_string, parse_u16};
use holons::text::{find, find_char, rfind_char, starts_with, str_eq, strip_prefix, trim};

#[test]
fn parse_u16_follows_from_str() {
    for s in ["0", "7", "+5", "-5", "", "+", "65535", "65536", "007", "1_0", " 1", "1 ", "٣", "99999999999"] {
        assert_eq!(parse_u16(s), s.parse::<u16>().ok(), "input {:?}", s);
    }
}

#[test]
fn decimal_string_writes_numbers() {
    assert_eq!(decimal_string(0), "0");
    assert_eq!(decimal_string(9), "9");
    assert_eq!(decimal_string(10), "10");
    assert_eq!(decimal_string(65535), "65535");
    for n in [1u16, 42, 100, 9090, 40000] {
        assert_eq!(decimal_string(n), n.to_string());
        assert_eq!(parse_u16(&decimal_string(n)), Some(n));
    }
}

#[test]
fn trim_follows_str_trim() {
    for s in ["", "  ", " \t a b \n", "\u{3000}x\u{85}", "\u{a0}\u{2009}y\u{200b}", "x"] {
        assert_eq!(trim(s), s.trim(), "input {:?}", s);
    }
}

#[test]
fn search_helpers() {
    assert_eq!(find("ab://c://", "://"), Some(2));
    assert_eq!(find("abc", "://"), None);
    assert_eq!(find("abc", ""), Some(0));
    assert_eq!(find("\u{e9}\u{e9}-", "-"), Some(2));
    assert_eq!(find_char("a/b/c", '/'), Some(1));
    assert_eq!(find_char("abc", '/'), None);
    assert_eq!(rfind_char("a:b:c", ':'), Some(3));
    assert_eq!(rfind_char("abc", ':'), None);
    assert!(str_eq("abc", "abc"));
    assert!(!str_eq("abc", "abd"));
    assert!(!str_eq("abc", "ab"));
    assert!(starts_with("tcp://x", "tcp://"));
    assert!(!starts_with("tc", "tcp"));
    assert_eq!(strip_prefix("tcp://x", "tcp://"), Some("x"));
    assert_eq!(strip_prefix("tcp:/x", "tcp://"), None);
}
