use nettfiske::data::{
    CertString, Certificate, ChainObjects, Config, Data, LeafCert, Subject, WebsiteIdentity,
};
use nettfiske::nettfiske::{
    analyse_domain, announces_certificate, is_allow_listed, organization, without_wildcard,
    Nettfiske,
};
use nettfiske::report::{report, Severity};
use publicsuffix::List;

fn list() -> List {
    List::from_str("// BEGIN ICANN DOMAINS\ncom\norg\nco.uk\n").unwrap()
}

fn identity(name: &str) -> WebsiteIdentity {
    WebsiteIdentity { common_name: name.to_string(), certificate: None }
}

fn known(name: &str, issued_to: &str, issued_by: &str) -> WebsiteIdentity {
    WebsiteIdentity {
        common_name: name.to_string(),
        certificate: Some(Certificate {
            issued_to: issued_to.to_string(),
            issued_by: issued_by.to_string(),
        }),
    }
}

fn entry(organization: Option<&str>) -> ChainObjects {
    ChainObjects {
        subject: Subject {
            organization: organization.map(|o| o.to_string()),
            organizational_unit: None,
            common_name: None,
        },
    }
}

fn chain(issued_to: &str, issued_by: &str) -> Vec<ChainObjects> {
    vec![entry(Some(issued_to)), entry(Some(issued_by))]
}

fn paypal() -> Config {
    Config { identities: vec![identity("paypal")] }
}

fn score(domain: &str, config: &Config) -> usize {
    analyse_domain(domain, &list(), config, &chain("Someone", "Some CA")).unwrap().score
}

#[test]
fn unrelated_short_name_scores_nothing() {
    assert_eq!(score("example.com", &paypal()), 0);
    assert_eq!(score("example.org", &paypal()), 0);
    assert_eq!(score("localhost", &paypal()), 0);
    assert_eq!(score("", &paypal()), 0);
}

#[test]
fn keyword_in_the_root_label() {
    assert_eq!(score("paypal.com", &paypal()), 40);
    assert_eq!(score("secure-paypal.com", &paypal()), 40);
    assert_eq!(score("paypa1.com", &paypal()), 48);
}

#[test]
fn keyword_in_the_subdomain() {
    assert_eq!(score("paypal.example.com", &paypal()), 50 + 9);
    assert_eq!(score("paypa1.example.com", &paypal()), 32 + 9);
    assert_eq!(score("paypal.paypa1.com", &paypal()), 48 + 50 + 9);
    assert_eq!(score("a.paypal.b.example.co.uk", &paypal()), 50 + 18);
}

#[test]
fn every_identity_counts() {
    let config = Config { identities: vec![identity("paypal"), identity("pay"), identity("x")] };
    assert_eq!(score("paypal.com", &config), 40 + 40);
    assert_eq!(score("pay.paypal.com", &config), 40 + 40 + 50 + 9);
    assert_eq!(score("paypal.com", &Config { identities: Vec::new() }), 0);
}

#[test]
fn tld_in_the_subdomain() {
    assert_eq!(score("com.example.org", &paypal()), 40 + 9);
    assert_eq!(score("paypal-com.example.org", &paypal()), 50 + 40 + 9);
    assert_eq!(score("www.com.example.org", &paypal()), 12);
}

#[test]
fn nesting_counts_without_a_root() {
    assert_eq!(score("a.b.c.d.e", &paypal()), 15);
    assert_eq!(score("paypal.paypal.pay_pal.com", &paypal()), 12);
    assert_eq!(score("paypal..com", &paypal()), 9);
    assert_eq!(score("paypal", &paypal()), 0);
}

#[test]
fn unlisted_suffix_counts_as_a_suffix() {
    assert_eq!(score("paypal.paypal.paypal.unknown", &paypal()), 40 + 50 + 50 + 12);
}

#[test]
fn wildcard_prefix_is_stripped_once() {
    assert_eq!(without_wildcard("*.paypal.com"), "paypal.com");
    assert_eq!(without_wildcard("paypal.com"), "paypal.com");
    assert_eq!(without_wildcard("*.*.paypal.com"), "*.paypal.com");
    assert_eq!(without_wildcard("a*.paypal.com"), "a*.paypal.com");
    assert_eq!(without_wildcard("*."), "");
    let result =
        analyse_domain("*.paypal.com", &list(), &paypal(), &chain("Someone", "Some CA")).unwrap();
    assert_eq!(result.score, 40);
    assert_eq!(result.domain_original, "paypal.com");
    assert_eq!(result.domain_normalized, "paypal.com");
    assert!(!result.punycode_detected);
}

#[test]
fn homoglyph_of_a_keyword() {
    let result = analyse_domain(
        "xn--pypal-4ve.com",
        &list(),
        &paypal(),
        &chain("Someone", "Some CA"),
    )
    .unwrap();
    assert_eq!(result.domain_original, "xn--pypal-4ve.com");
    assert_eq!(result.domain_normalized, "paypal.com");
    assert!(result.punycode_detected);
    assert_eq!(result.score, 40 + 90);
    let shown = report(
        result.score,
        &result.domain_original,
        &result.domain_normalized,
        result.punycode_detected,
    );
    assert_eq!(shown.alert.unwrap().severity, Severity::Homoglyph);
    assert_eq!(shown.log_entry.unwrap(), "paypal.com - (Punycode: xn--pypal-4ve.com)");
}

#[test]
fn malformed_punycode_earns_depth_only() {
    let deep = analyse_domain(
        "paypal.xn--a!.paypal.com",
        &list(),
        &paypal(),
        &chain("Someone", "Some CA"),
    )
    .unwrap();
    assert_eq!(deep.score, 12);
    assert_eq!(deep.domain_normalized, "paypal.xn--a!.paypal.com");
    assert!(!deep.punycode_detected);
    assert_eq!(score("xn--a!.paypal.com", &paypal()), 9);
}

#[test]
fn known_certificate_ends_scoring() {
    let config = Config {
        identities: vec![identity("apple"), known("paypal", "PayPal, Inc.", "DigiCert Inc")],
    };
    let own = chain("PayPal, Inc.", "DigiCert Inc");
    for domain in ["paypal.com", "www.paypal.com", "a.b.c.paypal.apple.com", "xn--pypal-4ve.com"] {
        let result = analyse_domain(domain, &list(), &config, &own).unwrap();
        assert_eq!(result.score, 0);
    }
    let other = chain("PayPal, Inc.", "Some CA");
    assert_eq!(analyse_domain("paypal.com", &list(), &config, &other).unwrap().score, 40);
    let swapped = chain("DigiCert Inc", "PayPal, Inc.");
    assert_eq!(analyse_domain("paypal.com", &list(), &config, &swapped).unwrap().score, 40);
}

#[test]
fn missing_chain_entries_count_as_empty() {
    assert_eq!(organization(&chain("A", "B"), 0), "A");
    assert_eq!(organization(&chain("A", "B"), 1), "B");
    assert_eq!(organization(&chain("A", "B"), 2), "");
    assert_eq!(organization(&vec![entry(None)], 0), "");
    assert_eq!(organization(&Vec::new(), 0), "");
    let config = Config { identities: vec![known("paypal", "", "")] };
    assert_eq!(analyse_domain("paypal.com", &list(), &config, &Vec::new()).unwrap().score, 0);
    assert_eq!(
        analyse_domain("paypal.com", &list(), &config, &vec![entry(None), entry(None)])
            .unwrap()
            .score,
        0
    );
    assert_eq!(analyse_domain("paypal.com", &list(), &paypal(), &Vec::new()).unwrap().score, 40);
}

#[test]
fn allow_list_takes_both_organizations() {
    let config = Config { identities: vec![identity("a"), known("b", "X", "Y")] };
    assert!(is_allow_listed(&config, "X", "Y"));
    assert!(!is_allow_listed(&config, "X", ""));
    assert!(!is_allow_listed(&config, "Y", "X"));
    assert!(!is_allow_listed(&config, "", ""));
    assert!(!is_allow_listed(&Config { identities: Vec::new() }, "", ""));
}

#[test]
fn scenario_secure_paypa1() {
    let result = analyse_domain(
        "secure-paypa1.com",
        &list(),
        &paypal(),
        &chain("Someone", "Some CA"),
    )
    .unwrap();
    assert!(!result.punycode_detected);
    assert_eq!(result.domain_normalized, "secure-paypa1.com");
    // The whole root label is eight edits away from the keyword and does not
    // hold it, and the name has two labels: nothing is earned.
    assert_eq!(result.score, 0);
    let shown = report(
        result.score,
        &result.domain_original,
        &result.domain_normalized,
        result.punycode_detected,
    );
    assert!(shown.alert.is_none());
    assert!(shown.log_entry.is_none());
}

#[test]
fn scenario_typo_under_a_deep_name() {
    let result = analyse_domain(
        "secure.login.paypa1.com",
        &list(),
        &paypal(),
        &chain("Someone", "Some CA"),
    )
    .unwrap();
    assert_eq!(result.score, 48 + 12);
    let shown = report(
        result.score,
        &result.domain_original,
        &result.domain_normalized,
        result.punycode_detected,
    );
    let alert = shown.alert.unwrap();
    assert_eq!(alert.severity, Severity::Low);
    assert_eq!(alert.domain, "secure.login.paypa1.com");
    assert_eq!(shown.log_entry.unwrap(), "secure.login.paypa1.com");
}

#[test]
fn engine_scores_every_name_of_a_certificate_update() {
    let engine = Nettfiske::new(paypal(), list());
    let event = CertString {
        message_type: "certificate_update".to_string(),
        data: Data {
            leaf_cert: LeafCert {
                subject: Subject {
                    organization: None,
                    organizational_unit: None,
                    common_name: Some("paypal.com".to_string()),
                },
                all_domains: vec![
                    "paypal.com".to_string(),
                    "*.paypa1.com".to_string(),
                    "example.org".to_string(),
                ],
            },
            chain: chain("Someone", "Some CA"),
        },
    };
    let results = engine.analyse_event(&event);
    let scores: Vec<usize> = results.iter().map(|r| r.as_ref().unwrap().score).collect();
    assert_eq!(scores, vec![40, 48, 0]);
    assert_eq!(results[1].as_ref().unwrap().domain_original, "paypa1.com");
    assert_eq!(
        engine.analyse_domain("paypal.com", &event.data.chain).unwrap().score,
        40
    );
}

#[test]
fn subdomain_of_a_name_in_upper_case_is_scored() {
    assert_eq!(score("paypal.EVIL.com", &paypal()), 50 + 9);
    assert_eq!(score("paypal.evil.com", &paypal()), 50 + 9);
    assert_eq!(score("paypal.evil.com.", &paypal()), 50 + 12);
    assert_eq!(score("www.PAYPAL.com", &paypal()), 40 + 9);
}

#[test]
fn upper_case_punycode_prefix_is_no_punycode() {
    let result = analyse_domain(
        "XN--PYPAL-4VE.com",
        &list(),
        &paypal(),
        &chain("Someone", "Some CA"),
    )
    .unwrap();
    assert_eq!(result.domain_normalized, "XN--PYPAL-4VE.com");
    assert!(!result.punycode_detected);
}

#[test]
fn certificate_updates_are_told_by_their_type() {
    assert!(announces_certificate("certificate_update"));
    assert!(announces_certificate("x-certificate_update"));
    assert!(!announces_certificate("heartbeat"));
    assert!(!announces_certificate("certificate-update"));
    assert!(!announces_certificate(""));
}

#[test]
fn engine_passes_over_other_messages() {
    let engine = Nettfiske::new(paypal(), list());
    let mut event = CertString {
        message_type: "heartbeat".to_string(),
        data: Data {
            leaf_cert: LeafCert {
                subject: Subject {
                    organization: None,
                    organizational_unit: None,
                    common_name: None,
                },
                all_domains: vec!["paypal.com".to_string()],
            },
            chain: Vec::new(),
        },
    };
    assert!(engine.analyse_event(&event).is_empty());
    event.message_type = "x-certificate_update-y".to_string();
    assert_eq!(engine.analyse_event(&event).len(), 1);
    event.data.leaf_cert.all_domains.clear();
    assert!(engine.analyse_event(&event).is_empty());
}
