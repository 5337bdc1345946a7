use lineup_cards::models::{default_dh_mode, default_slot_kind};
use lineup_cards::text::{
    after_last, contains_char, hex_encode, i64_to_string, join, replace_char, split_char,
    str_eq, strip_prefix, trim,
};

#[test]
fn trim_removes_unicode_whitespace() {
    assert_eq!(trim("  a b \t\n"), "a b");
    assert_eq!(trim("\u{3000}x\u{a0}"), "x");
    assert_eq!(trim("   "), "");
    assert_eq!(trim(""), "");
}

#[test]
fn split_matches_std() {
    for s in ["", ";", "a;b", ";a;;b;", "abc"] {
        let ours = split_char(s, ';');
        let std: Vec<String> = s.split(';').map(|p| p.to_string()).collect();
        assert_eq!(ours, std);
    }
    assert_eq!(after_last("/uploads/x.png", '/'), "x.png");
    assert_eq!(after_last("x.png", '/'), "x.png");
}

#[test]
fn decimal_and_hex() {
    assert_eq!(i64_to_string(0), "0");
    assert_eq!(i64_to_string(-120), "-120");
    assert_eq!(i64_to_string(i64::MIN), i64::MIN.to_string());
    assert_eq!(i64_to_string(i64::MAX), i64::MAX.to_string());
    assert_eq!(hex_encode(&[0x00, 0xff, 0x1a]), "00ff1a");
    assert_eq!(hex_encode(&[]), "");
}

#[test]
fn small_string_helpers() {
    assert!(contains_char("a@b", '@'));
    assert!(!contains_char("ab", '@'));
    assert!(str_eq("DEF", "DEF"));
    assert!(!str_eq("DEF", "DE"));
    assert_eq!(strip_prefix("session=abc", "session="), Some("abc"));
    assert_eq!(strip_prefix("sess", "session="), None);
    assert_eq!(replace_char("Red Sox B", ' ', '_'), "Red_Sox_B");
    assert_eq!(join(&vec!["a".to_string(), "b".to_string()], ", "), "a, b");
    assert_eq!(join(&vec![], ", "), "");
}

#[test]
fn payload_defaults() {
    assert_eq!(default_slot_kind(), "BAT");
    assert_eq!(default_dh_mode(), "straight9");
}

#[test]
fn distinct_bytes_give_distinct_hex() {
    assert_ne!(hex_encode(&[1, 2]), hex_encode(&[1, 3]));
    assert_ne!(hex_encode(&[0x10]), hex_encode(&[0x01]));
    assert_eq!(hex_encode(&[0xab, 0xcd]), "abcd");
}
