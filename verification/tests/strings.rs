use uncap::strings::{
    chars_of, contains, i64_to_decimal, is_whitespace, parse_i64, replace, split_whitespace, string_of, trim,
};

fn s(v: &[char]) -> String {
    v.iter().collect()
}

#[test]
fn trim_matches_std() {
    for text in ["  a b  ", "\t\n x\u{3000}", "", "   ", "abc", "\u{85}q\u{a0}"] {
        let c = chars_of(text);
        assert_eq!(s(&trim(&c)), text.trim());
    }
}

#[test]
fn whitespace_matches_std() {
    for c in [' ', '\t', '\n', '\u{b}', '\u{c}', '\r', '\u{85}', '\u{a0}', '\u{1680}', '\u{2000}', '\u{200a}', '\u{2028}', '\u{2029}', '\u{202f}', '\u{205f}', '\u{3000}', 'a', '0', '\u{200b}', '\u{180e}'] {
        assert_eq!(is_whitespace(c), c.is_whitespace(), "char {:?}", c);
    }
}

#[test]
fn split_whitespace_matches_std() {
    for text in ["3 + 7", "  12   -4 ", "", "one", "a\tb\nc"] {
        let c = chars_of(text);
        let words: Vec<String> = split_whitespace(&c).iter().map(|w| s(w)).collect();
        let expected: Vec<String> = text.split_whitespace().map(|w| w.to_string()).collect();
        assert_eq!(words, expected);
    }
}

#[test]
fn replace_chars() {
    let c = chars_of("3+7=?");
    assert_eq!(s(&replace(&c, '=', ' ')), "3+7 ?");
}

#[test]
fn parse_i64_matches_std() {
    for text in ["0", "42", "-42", "+42", "", "-", "+", "4a", "9223372036854775807", "9223372036854775808", "-9223372036854775808", "-9223372036854775809", "00017", "٣"] {
        let c = chars_of(text);
        assert_eq!(parse_i64(&c), text.parse::<i64>().ok(), "text {:?}", text);
    }
}

#[test]
fn decimal_matches_display() {
    for n in [0i64, 7, 10, -1, 1234567890, i64::MAX, i64::MIN] {
        assert_eq!(s(&i64_to_decimal(n)), n.to_string());
    }
}

#[test]
fn string_roundtrip() {
    let c = chars_of("héllo");
    assert_eq!(c.len(), 5);
    assert_eq!(string_of(&c), "héllo");
}

#[test]
fn contains_matches_std() {
    for (s, t) in [("text/html; x", "text/html"), ("abc", ""), ("", "a"), ("aab", "ab"), ("héllo", "llo"), ("ab", "abc")] {
        assert_eq!(contains(s, t), s.contains(t), "{:?} {:?}", s, t);
    }
}
