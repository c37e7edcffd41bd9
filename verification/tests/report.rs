use nettfiske::report::{report, Severity};

#[test]
fn threshold_boundaries() {
    let below = report(55, "a.example.com", "a.example.com", false);
    assert!(below.alert.is_none());
    assert!(below.log_entry.is_none());

    let lowest = report(56, "a.example.com", "a.example.com", false);
    let alert = lowest.alert.unwrap();
    assert_eq!(alert.severity, Severity::Low);
    assert_eq!(alert.domain, "a.example.com");
    assert_eq!(lowest.log_entry, Some("a.example.com".to_string()));

    let homoglyph = report(90, "xn--pypal-4ve.com", "paypal.com", true);
    let alert = homoglyph.alert.unwrap();
    assert_eq!(alert.severity, Severity::Homoglyph);
    assert_eq!(alert.domain, "paypal.com");
    assert_eq!(
        homoglyph.log_entry,
        Some("paypal.com - (Punycode: xn--pypal-4ve.com)".to_string())
    );
}

#[test]
fn tiers_by_score() {
    assert!(report(0, "o", "n", true).alert.is_none());
    assert!(report(55, "o", "n", true).alert.is_none());
    assert_eq!(report(56, "o", "n", true).alert.unwrap().severity, Severity::Low);
    assert_eq!(report(69, "o", "n", false).alert.unwrap().severity, Severity::Low);
    assert_eq!(report(70, "o", "n", false).alert.unwrap().severity, Severity::Medium);
    assert_eq!(report(89, "o", "n", true).alert.unwrap().severity, Severity::Medium);
    assert_eq!(report(90, "o", "n", false).alert.unwrap().severity, Severity::High);
    assert_eq!(report(90, "o", "n", true).alert.unwrap().severity, Severity::Homoglyph);
    assert_eq!(report(usize::MAX, "o", "n", false).alert.unwrap().severity, Severity::High);
}

#[test]
fn lowest_tier_shows_the_original_name() {
    assert_eq!(report(56, "o", "n", true).alert.unwrap().domain, "o");
    assert_eq!(report(69, "o", "n", false).alert.unwrap().domain, "o");
    assert_eq!(report(70, "o", "n", true).alert.unwrap().domain, "n");
    assert_eq!(report(90, "o", "n", false).alert.unwrap().domain, "n");
    assert_eq!(report(90, "o", "n", true).alert.unwrap().domain, "n");
}

#[test]
fn log_record_names_the_original_under_punycode() {
    assert_eq!(report(55, "o", "n", true).log_entry, None);
    assert_eq!(report(56, "o", "n", true).log_entry, Some("n - (Punycode: o)".to_string()));
    assert_eq!(report(56, "o", "n", false).log_entry, Some("n".to_string()));
    assert_eq!(report(100, "o", "n", false).log_entry, Some("n".to_string()));
}
