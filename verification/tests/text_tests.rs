use ocode::text::cut_fits;
use ocode::text::{
    byte_len, char_len_utf8, chars_of, decimal_string, digits_of, find_in, fit_prefix_len,
    is_whitespace, join_chars, lines_of, matches_at, push_all, push_str, rfind_in, slice_sub,
    starts_with, string_of, trim_bounds, trimmed, utf8_len_of,
};

fn cs(s: &str) -> Vec<char> {
    s.chars().collect()
}

#[test]
fn byte_lengths() {
    assert_eq!(byte_len(""), 0);
    assert_eq!(byte_len("abc"), 3);
    assert_eq!(byte_len("héllo€😀"), 1 + 2 + 3 + 3 + 4);
    assert_eq!(char_len_utf8('a'), 1);
    assert_eq!(char_len_utf8('é'), 2);
    assert_eq!(char_len_utf8('€'), 3);
    assert_eq!(char_len_utf8('😀'), 4);
    assert_eq!(utf8_len_of(&cs("a€")), 4);
}

#[test]
fn fitting_prefixes() {
    let s = cs("aé€b");
    assert_eq!(fit_prefix_len(&s, 0), 0);
    assert_eq!(fit_prefix_len(&s, 2), 1);
    assert_eq!(fit_prefix_len(&s, 3), 2);
    assert_eq!(fit_prefix_len(&s, 5), 2);
    assert_eq!(fit_prefix_len(&s, 6), 3);
    assert_eq!(fit_prefix_len(&s, 100), 4);
}

#[test]
fn chars_and_strings() {
    assert_eq!(chars_of("añb"), vec!['a', 'ñ', 'b']);
    assert_eq!(string_of(&['x', 'ÿ']), "xÿ");
    let mut v = cs("ab");
    push_str(&mut v, "cd");
    push_all(&mut v, &['e']);
    assert_eq!(string_of(&v), "abcde");
    assert_eq!(slice_sub(&cs("hello"), 1, 3), cs("el"));
}

#[test]
fn searching() {
    let h = cs("abcabc");
    assert!(matches_at(&h, 3, &cs("abc")));
    assert!(!matches_at(&h, 4, &cs("bcx")));
    assert!(!matches_at(&h, 7, &cs("")));
    assert_eq!(find_in(&h, &cs("bc"), 0), Some(1));
    assert_eq!(find_in(&h, &cs("bc"), 2), Some(4));
    assert_eq!(find_in(&h, &cs("bc"), 5), None);
    assert_eq!(find_in(&h, &cs(""), 2), Some(2));
    assert_eq!(find_in(&h, &cs("z"), 0), None);
    assert_eq!(rfind_in(&h, 'a'), Some(3));
    assert_eq!(rfind_in(&h, 'z'), None);
    assert!(starts_with(&h, &cs("abca")));
    assert!(!starts_with(&cs("ab"), &cs("abc")));
}

#[test]
fn whitespace_and_trimming() {
    assert!(is_whitespace(' ') && is_whitespace('\t') && is_whitespace('\u{3000}'));
    assert!(!is_whitespace('x'));
    assert_eq!(trimmed("  \t hi there \r\n"), "hi there");
    assert_eq!(trimmed("   "), "");
    assert_eq!(trim_bounds(&cs(" ab ")), (1, 3));
    assert_eq!(trim_bounds(&cs("   ")), (3, 3));
}

#[test]
fn lines_like_str_lines() {
    let text = "a\r\nb\n\nc\n";
    let got: Vec<String> = lines_of(&cs(text)).iter().map(|l| string_of(l)).collect();
    let want: Vec<String> = text.lines().map(|l| l.to_string()).collect();
    assert_eq!(got, want);
    assert!(lines_of(&cs("")).is_empty());
}

#[test]
fn joining() {
    let parts = vec![cs("a"), cs(""), cs("b")];
    assert_eq!(string_of(&join_chars(&parts, &cs(", "))), "a, , b");
    assert!(join_chars(&Vec::new(), &cs(",")).is_empty());
}

#[test]
fn digits_and_decimals() {
    assert_eq!(decimal_string(0), "0");
    assert_eq!(decimal_string(1234567890), "1234567890");
    assert_eq!(decimal_string(u64::MAX), u64::MAX.to_string());
    assert_eq!(string_of(&digits_of(255, 16)), "FF");
    assert_eq!(string_of(&digits_of(5, 2)), "101");
}

#[test]
fn cuts_on_character_boundaries() {
    assert!(cut_fits("short", 10));
    assert!(cut_fits("héllo", 3));
    assert!(!cut_fits("héllo", 2));
    assert!(cut_fits("héllo", 0));
}
