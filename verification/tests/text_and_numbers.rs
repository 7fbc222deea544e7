use bbrr_companion::number::{i64_text, parse_i32, parse_i64, parse_u32, u64_text};
use bbrr_companion::text::{
    contains_text, ends_with, find_char, opt_is, same_text, split_on, split_once_char,
    split_once_gap, starts_with, strip_start, trim_end_char, trimmed,
    trimmed_start, word_two,
};

#[test]
fn texts_are_compared_by_characters() {
    assert!(same_text("Käse", "Käse"));
    assert!(!same_text("Käse", "Kase"));
    assert!(!same_text("ab", "abc"));
    assert!(opt_is(&Some("a".to_string()), "a"));
    assert!(!opt_is(&None, ""));
}

#[test]
fn positions_count_characters() {
    assert_eq!(find_char("äöü", 'ü'), Some(2));
    assert_eq!(find_char("abc", 'x'), None);
    assert_eq!(find_char("", 'x'), None);
}

#[test]
fn splitting_keeps_empty_pieces() {
    assert_eq!(split_on("a,,b", ','), vec!["a", "", "b"]);
    assert_eq!(split_on("", ','), vec![""]);
    assert_eq!(split_on(",", ','), vec!["", ""]);
    assert_eq!(split_on("ä,ö", ','), vec!["ä", "ö"]);
}

#[test]
fn splitting_once_stops_at_the_first() {
    assert_eq!(split_once_char("a=b=c", '='), Some(("a", "b=c")));
    assert_eq!(split_once_char("abc", '='), None);
    assert_eq!(split_once_gap("a   b"), Some(("a", " b")));
    assert_eq!(split_once_gap("a b"), None);
}

#[test]
fn trimming() {
    assert_eq!(trimmed(" \t a b \r\n"), "a b");
    assert_eq!(trimmed("\u{2003}x\u{a0}"), "x");
    assert_eq!(trimmed("   "), "");
    assert_eq!(trimmed_start("  a "), "a ");
    assert_eq!(trim_end_char("line\r\r", '\r'), "line");
    assert_eq!(trim_end_char("https://x//", '/'), "https://x");
}

#[test]
fn words_and_prefixes() {
    assert_eq!(word_two("GET /x HTTP/1.1"), Some("/x"));
    assert_eq!(word_two("  GET"), None);
    assert_eq!(word_two(""), None);
    assert!(starts_with("WoWCombatLog.txt", "WoWCombatLog"));
    assert!(ends_with("WoWCombatLog.txt", ".txt"));
    assert!(!ends_with("txt", ".txt"));
    assert_eq!(strip_start("event: x", "event:"), Some(" x"));
    assert_eq!(strip_start("data: x", "event:"), None);
    assert!(contains_text("xxENCOUNTER_END", "ENCOUNTER_"));
    assert!(!contains_text("ENCOUNTER", "ENCOUNTER_"));
}

#[test]
fn numbers_are_read() {
    assert_eq!(parse_i64("-42"), Some(-42));
    assert_eq!(parse_i64("+7"), Some(7));
    assert_eq!(parse_i64("9223372036854775807"), Some(i64::MAX));
    assert_eq!(parse_i64("9223372036854775808"), None);
    assert_eq!(parse_i64("-9223372036854775808"), Some(i64::MIN));
    assert_eq!(parse_i64(""), None);
    assert_eq!(parse_i64("-"), None);
    assert_eq!(parse_i64("1x"), None);
    assert_eq!(parse_u32("4294967295"), Some(u32::MAX));
    assert_eq!(parse_u32("4294967296"), None);
    assert_eq!(parse_u32("-1"), None);
    assert_eq!(parse_u32("+1"), Some(1));
    assert_eq!(parse_i32("-2147483648"), Some(i32::MIN));
    assert_eq!(parse_i32("2147483648"), None);
}

#[test]
fn numbers_are_written_and_read_back() {
    for n in [0i64, 7, -7, 10, i64::MAX, i64::MIN] {
        assert_eq!(i64_text(n), n.to_string());
        assert_eq!(parse_i64(&i64_text(n)), Some(n));
    }
    assert_eq!(u64_text(u64::MAX), "18446744073709551615");
}
