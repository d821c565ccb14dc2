use ddns_ipv6::number::parse_u64;
use ddns_ipv6::text::{
    concat2, concat3, find_char, from_chars, push_chars, same_text, split_chars, strip_prefix,
    to_chars,
};

#[test]
fn characters_make_strings() {
    let chars = to_chars("a\u{e9}b");
    assert_eq!(chars, vec!['a', '\u{e9}', 'b']);
    assert_eq!(from_chars(&chars), "a\u{e9}b");
    let mut s = "x".to_string();
    push_chars(&mut s, &chars);
    assert_eq!(s, "xa\u{e9}b");
    assert_eq!(concat2("a", "b"), "ab");
    assert_eq!(concat3("a", "", "c"), "ac");
    assert!(same_text("ab", "ab") && !same_text("ab", "abc"));
}

#[test]
fn texts_are_searched_and_split() {
    assert_eq!(find_char(&to_chars("a.b.c"), '.'), 1);
    assert_eq!(find_char(&to_chars("abc"), '.'), 3);
    assert_eq!(strip_prefix("env:A", "env:"), Some("A".to_string()));
    assert_eq!(strip_prefix("en", "env:"), None);
    let parts = split_chars(&to_chars("a::b"), ':');
    assert_eq!(parts, vec![vec!['a'], vec![], vec!['b']]);
    assert_eq!(split_chars(&[], ':'), vec![Vec::<char>::new()]);
}

#[test]
fn numbers_are_read() {
    assert_eq!(parse_u64("300"), Some(300));
    assert_eq!(parse_u64("+1"), Some(1));
    assert_eq!(parse_u64("++1"), None);
    assert_eq!(parse_u64("1a"), None);
    assert_eq!(parse_u64("99999999999999999999"), None);
}
