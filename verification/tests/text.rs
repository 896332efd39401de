use bum::text::{find_char, parse_i64, parse_u32, same_text, to_decimal};

fn number_texts() -> Vec<&'static str> {
    vec![
        "", "+", "-", "0", "7", "007", "+5", "-5", "-0", "+0", "12a", "a12", " 1", "1 ", "1.5",
        "4294967295", "4294967296", "+4294967295", "99999999999999999999999999", "0000000000000000000000001",
        "9223372036854775807", "9223372036854775808", "-9223372036854775808", "-9223372036854775809",
        "18446744073709551615", "18446744073709551616", "--1", "+-1", "1+", "\u{661}\u{662}", "1_000",
        "2016", "3/12", "0x10",
    ]
}

#[test]
fn parse_u32_reads_what_std_reads() {
    for text in number_texts() {
        assert_eq!(parse_u32(text), text.parse::<u32>().ok(), "{:?}", text);
    }
}

#[test]
fn parse_u32_exact_values() {
    assert_eq!(parse_u32("2016"), Some(2016));
    assert_eq!(parse_u32("+17"), Some(17));
    assert_eq!(parse_u32("4294967295"), Some(u32::MAX));
    assert_eq!(parse_u32("4294967296"), None);
    assert_eq!(parse_u32("-1"), None);
    assert_eq!(parse_u32(""), None);
}

#[test]
fn parse_i64_reads_what_std_reads() {
    for text in number_texts() {
        assert_eq!(parse_i64(text), text.parse::<i64>().ok(), "{:?}", text);
    }
}

#[test]
fn parse_i64_exact_values() {
    assert_eq!(parse_i64("-9223372036854775808"), Some(i64::MIN));
    assert_eq!(parse_i64("9223372036854775807"), Some(i64::MAX));
    assert_eq!(parse_i64("9223372036854775808"), None);
    assert_eq!(parse_i64("-2"), Some(-2));
}

#[test]
fn to_decimal_writes_what_std_writes() {
    for n in [0u64, 1, 9, 10, 11, 99, 100, 2016, 4294967295, 4294967296, u64::MAX - 1, u64::MAX] {
        assert_eq!(to_decimal(n), n.to_string());
    }
}

#[test]
fn find_char_gives_the_first_place_or_the_length() {
    assert_eq!(find_char("a:b:c", ':', 0), 1);
    assert_eq!(find_char("a:b:c", ':', 2), 3);
    assert_eq!(find_char("a:b:c", ':', 4), 5);
    assert_eq!(find_char("abc", ':', 0), 3);
    assert_eq!(find_char("", ':', 0), 0);
    assert_eq!(find_char("a:b", ':', 7), 3);
    assert_eq!(find_char("\u{e9}t\u{e9}:x", ':', 0), 3);
}

#[test]
fn same_text_compares_whole_texts() {
    assert!(same_text("mp3", "mp3"));
    assert!(same_text("", ""));
    assert!(!same_text("mp3", "mp4"));
    assert!(!same_text("mp3", "mp"));
    assert!(!same_text("MP3", "mp3"));
}
