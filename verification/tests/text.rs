use nettfiske::text::{
    chars_of, contains, contains_chars, matches_at, same_text, split, starts_with,
    trim_trailing_dots,
};

#[test]
fn chars_are_listed_in_order() {
    assert_eq!(chars_of("abc"), vec!['a', 'b', 'c']);
    assert_eq!(chars_of("pаy"), vec!['p', '\u{430}', 'y']);
    assert!(chars_of("").is_empty());
}

#[test]
fn split_cuts_at_every_full_stop() {
    assert_eq!(split("a.b.c"), vec!["a", "b", "c"]);
    assert_eq!(split("paypal"), vec!["paypal"]);
    assert_eq!(split(""), vec![""]);
    assert_eq!(split("."), vec!["", ""]);
    assert_eq!(split("a..b"), vec!["a", "", "b"]);
    assert_eq!(split(".a."), vec!["", "a", ""]);
    assert_eq!(split("中国.cn"), vec!["中国", "cn"]);
}

#[test]
fn split_agrees_with_joining() {
    for name in ["a.b.c", "", ".", "x..y.", "www.paypal.com"] {
        assert_eq!(split(name).join("."), name);
    }
}

#[test]
fn contains_finds_a_run_of_characters() {
    assert!(contains("secure-paypal", "paypal"));
    assert!(contains("paypal", "paypal"));
    assert!(contains("paypal", "l"));
    assert!(contains("paypal", ""));
    assert!(contains("", ""));
    assert!(!contains("paypa", "paypal"));
    assert!(!contains("pay-pal", "paypal"));
    assert!(contains("aab", "ab"));
    assert!(contains("日本語", "本語"));
    assert!(contains_chars(&vec!['a', 'b', 'c'], &vec!['b', 'c']));
    assert!(!contains_chars(&vec!['a', 'b', 'c'], &vec!['c', 'b']));
}

#[test]
fn matches_at_compares_in_place() {
    let hay = vec!['a', 'b', 'c', 'd'];
    assert!(matches_at(&hay, &vec!['b', 'c'], 1));
    assert!(!matches_at(&hay, &vec!['b', 'c'], 0));
    assert!(matches_at(&hay, &Vec::new(), 4));
}

#[test]
fn prefixes() {
    assert!(starts_with("xn--abc", "xn--"));
    assert!(starts_with("xn--", "xn--"));
    assert!(!starts_with("xn-", "xn--"));
    assert!(!starts_with("axn--", "xn--"));
    assert!(starts_with("abc", ""));
}

#[test]
fn same_text_is_equality() {
    assert!(same_text("com", "com"));
    assert!(!same_text("com", "con"));
    assert!(!same_text("com", "comm"));
    assert!(!same_text("comm", "com"));
    assert!(same_text("", ""));
}

#[test]
fn trailing_full_stops_are_trimmed() {
    assert_eq!(trim_trailing_dots("paypal.com."), "paypal.com");
    assert_eq!(trim_trailing_dots("paypal.com..."), "paypal.com");
    assert_eq!(trim_trailing_dots("paypal.com"), "paypal.com");
    assert_eq!(trim_trailing_dots(".paypal"), ".paypal");
    assert_eq!(trim_trailing_dots("..."), "");
    assert_eq!(trim_trailing_dots(""), "");
}
