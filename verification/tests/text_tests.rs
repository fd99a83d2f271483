use twitch_commands::text::has_prefix;
use twitch_commands::text::parse_i32;
use twitch_commands::text::parse_u16;
use twitch_commands::text::parse_u64;
use twitch_commands::text::split_char;
use twitch_commands::text::u64_to_dec_string;
use twitch_commands::text::string_eq;

#[test]
fn parse_u64_reads_plain_and_signed_decimals() {
    assert_eq!(parse_u64("0"), Some(0));
    assert_eq!(parse_u64("1500"), Some(1500));
    assert_eq!(parse_u64("+42"), Some(42));
    assert_eq!(parse_u64("18446744073709551615"), Some(u64::MAX));
}

#[test]
fn parse_u64_rejects_what_str_parse_rejects() {
    assert_eq!(parse_u64(""), None);
    assert_eq!(parse_u64("+"), None);
    assert_eq!(parse_u64("-1"), None);
    assert_eq!(parse_u64("12a"), None);
    assert_eq!(parse_u64(" 12"), None);
    assert_eq!(parse_u64("18446744073709551616"), None);
}

#[test]
fn parse_u16_respects_the_sixteen_bit_range() {
    assert_eq!(parse_u16("65535"), Some(65535));
    assert_eq!(parse_u16("65536"), None);
    assert_eq!(parse_u16("100"), Some(100));
}

#[test]
fn parse_i32_reads_signs_and_respects_the_range() {
    assert_eq!(parse_i32("100"), Some(100));
    assert_eq!(parse_i32("-5"), Some(-5));
    assert_eq!(parse_i32("+7"), Some(7));
    assert_eq!(parse_i32("2147483647"), Some(i32::MAX));
    assert_eq!(parse_i32("-2147483648"), Some(i32::MIN));
    assert_eq!(parse_i32("2147483648"), None);
    assert_eq!(parse_i32("-2147483649"), None);
    assert_eq!(parse_i32("-"), None);
    assert_eq!(parse_i32(""), None);
}

#[test]
fn split_char_behaves_like_str_split() {
    assert_eq!(split_char("100x110", 'x'), vec!["100", "110"]);
    assert_eq!(split_char("", 'x'), vec![""]);
    assert_eq!(split_char("x", 'x'), vec!["", ""]);
    assert_eq!(split_char("~a~b", '~'), vec!["", "a", "b"]);
    assert_eq!(split_char("a~", '~'), vec!["a", ""]);
    assert_eq!(split_char("plain", '~'), vec!["plain"]);
    let reference: Vec<&str> = "1-2-3".split('-').collect();
    assert_eq!(split_char("1-2-3", '-'), reference);
}

#[test]
fn has_prefix_checks_the_leading_characters() {
    assert!(has_prefix("kd40", "kd"));
    assert!(has_prefix("kd", "kd"));
    assert!(!has_prefix("k", "kd"));
    assert!(!has_prefix("ku40", "kd"));
    assert!(has_prefix("anything", ""));
}

#[test]
fn string_eq_compares_contents() {
    assert!(string_eq(&"abc".to_string(), &"abc".to_string()));
    assert!(!string_eq(&"abc".to_string(), &"abd".to_string()));
    assert!(!string_eq(&"abc".to_string(), &"ab".to_string()));
}

#[test]
fn u64_to_dec_string_matches_display() {
    assert_eq!(u64_to_dec_string(0), "0");
    assert_eq!(u64_to_dec_string(7), "7");
    assert_eq!(u64_to_dec_string(1500), "1500");
    assert_eq!(u64_to_dec_string(u64::MAX), u64::MAX.to_string());
}

#[test]
fn dec_string_round_trips_through_parse() {
    for v in [0u64, 9, 10, 12345, u64::MAX] {
        assert_eq!(parse_u64(&u64_to_dec_string(v)), Some(v));
    }
}
