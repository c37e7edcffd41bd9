use nettfiske::resolver::{is_resolvable, resolve};
use publicsuffix::List;

fn list() -> List {
    List::from_str("// BEGIN ICANN DOMAINS\ncom\norg\nuk\nco.uk\n*.ck\n!www.ck\n").unwrap()
}

#[test]
fn root_is_the_suffix_and_one_label() {
    let list = list();
    assert_eq!(resolve(&list, "www.paypal.com"), Some("paypal.com".to_string()));
    assert_eq!(resolve(&list, "paypal.com"), Some("paypal.com".to_string()));
    assert_eq!(resolve(&list, "a.b.example.co.uk"), Some("example.co.uk".to_string()));
    assert_eq!(resolve(&list, "a.b.c.ck"), Some("b.c.ck".to_string()));
    assert_eq!(resolve(&list, "www.ck"), Some("www.ck".to_string()));
}

#[test]
fn names_without_a_root() {
    let list = list();
    assert_eq!(resolve(&list, "com"), None);
    assert_eq!(resolve(&list, "co.uk"), None);
    assert_eq!(resolve(&list, ""), None);
    assert_eq!(resolve(&list, ".paypal.com"), None);
    assert_eq!(resolve(&list, "a..com"), None);
    assert_eq!(resolve(&list, "under_score.com"), None);
    assert_eq!(resolve(&List::empty(), "www.paypal.com"), None);
}

#[test]
fn root_comes_in_lower_case() {
    assert_eq!(resolve(&list(), "WWW.PayPal.COM"), Some("paypal.com".to_string()));
}

#[test]
fn names_of_another_script_resolve() {
    assert_eq!(
        resolve(&list(), "www.\u{4e2d}\u{56fd}.com"),
        Some("\u{4e2d}\u{56fd}.com".to_string())
    );
}

#[test]
fn wide_full_stops_are_not_resolved() {
    let list = list();
    assert!(is_resolvable("www.paypal.com"));
    assert!(is_resolvable(""));
    assert!(!is_resolvable("paypal\u{3002}com"));
    assert!(!is_resolvable("paypal\u{ff0e}com"));
    assert!(!is_resolvable("paypal\u{ff61}com"));
    assert_eq!(resolve(&list, "paypal\u{3002}com"), None);
    assert_eq!(resolve(&list, "a\u{ff0e}paypal.com"), None);
    assert_eq!(resolve(&list, "www.paypal\u{ff61}com"), None);
}

#[test]
fn long_names_are_not_resolved() {
    let list = list();
    let longest = format!("{}.com", "a".repeat(3851));
    assert!(is_resolvable(&longest));
    assert_eq!(resolve(&list, &longest), None);
    let too_long = format!("{}.com", "a".repeat(3852));
    assert!(!is_resolvable(&too_long));
    assert_eq!(resolve(&list, &too_long), None);
    let long_label = format!("{}.paypal.com", "a".repeat(63));
    assert_eq!(resolve(&list, &long_label), Some("paypal.com".to_string()));
}

#[test]
fn other_scripts_count_for_more() {
    let list = list();
    let fits = format!("{}.com", "\u{4e2d}".repeat(53));
    assert!(is_resolvable(&fits));
    let over = format!("{}.com", "\u{4e2d}".repeat(54));
    assert!(!is_resolvable(&over));
    assert_eq!(resolve(&list, &over), None);
    assert_eq!(
        resolve(&list, "www.\u{4e2d}\u{56fd}\u{94f6}\u{884c}.com"),
        Some("\u{4e2d}\u{56fd}\u{94f6}\u{884c}.com".to_string())
    );
}
