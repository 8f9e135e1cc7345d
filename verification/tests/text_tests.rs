use imdbdownloader::text::{
    trim, parse_usize, parse_i32, push_decimal, starts_with, find_char, rfind_char, str_eq,
    truncate_bytes, can_cut, byte_length, push_repeat, is_space_char, digit_to_char, push_signed_decimal,
};

#[test]
fn trim_drops_unicode_whitespace_at_both_ends() {
    assert_eq!(trim("  hi there \n\t"), "hi there");
    assert_eq!(trim("\u{3000}x\u{a0}"), "x");
    assert_eq!(trim("   "), "");
    assert_eq!(trim(""), "");
    assert_eq!(trim("a b"), "a b");
}

#[test]
fn trimming_twice_is_trimming_once() {
    let once = trim(" \u{2003} a \u{85}");
    assert_eq!(trim(once), once);
}

#[test]
fn parse_usize_follows_std() {
    for s in ["0", "+42", "007", "18446744073709551615", "", "+", "-1", "1a", " 1", "18446744073709551616", "99999999999999999999999"] {
        assert_eq!(parse_usize(s), s.parse::<usize>().ok(), "input {:?}", s);
    }
}

#[test]
fn parse_i32_follows_std() {
    for s in ["0", "-0", "+7", "-2147483648", "2147483647", "2147483648", "-2147483649", "-", "+", "", "12x", "--1", "00012"] {
        assert_eq!(parse_i32(s), s.parse::<i32>().ok(), "input {:?}", s);
    }
}

#[test]
fn decimal_writing_round_trips() {
    for n in [0usize, 7, 10, 120, 99999, usize::MAX] {
        let mut s = String::new();
        push_decimal(&mut s, n);
        assert_eq!(s, n.to_string());
        assert_eq!(parse_usize(&s), Some(n));
    }
}

#[test]
fn searches_and_prefixes() {
    assert!(starts_with("https://a", "http"));
    assert!(!starts_with("htt", "http"));
    assert_eq!(find_char("a?b?c", '?'), Some(1));
    assert_eq!(rfind_char("a.b.c", '.'), Some(3));
    assert_eq!(rfind_char("héllo.txt", '.'), Some(5));
    assert_eq!(find_char("abc", 'z'), None);
    assert!(str_eq("héllo", "héllo"));
    assert!(!str_eq("hello", "hellO"));
}

#[test]
fn byte_cuts_respect_characters() {
    assert_eq!(byte_length("héllo"), 6);
    assert!(!can_cut("héllo", 2));
    assert!(can_cut("héllo", 3));
    assert_eq!(truncate_bytes("héllo", 3), "hé");
    assert_eq!(truncate_bytes("short", 10), "short");
    assert!(can_cut("short", 10));
}

#[test]
fn small_helpers() {
    let mut s = String::from("x");
    push_repeat(&mut s, '-', 3);
    assert_eq!(s, "x---");
    assert!(is_space_char('\u{2028}'));
    assert!(!is_space_char('\u{200b}'));
    assert_eq!(digit_to_char(7), '7');
}

#[test]
fn signed_decimals() {
    for v in [0i32, 5, -5, i32::MAX, i32::MIN] {
        let mut s = String::new();
        push_signed_decimal(&mut s, v);
        assert_eq!(s, v.to_string());
    }
}
