//! The reporter's decisions: which alert a score calls for, which form of
//! the name the alert shows, and what goes to the log.

use vstd::prelude::*;

verus! {

/// Scores from here on are reported and logged.
pub const REPORT_THRESHOLD: usize = 56;

/// Scores from here on are reported at medium severity.
pub const MEDIUM_THRESHOLD: usize = 70;

/// Scores from here on are reported at the highest severity.
pub const HIGH_THRESHOLD: usize = 90;

/// How an alert is presented.
#[derive(Debug, Clone, Copy, PartialEq, Eq, Structural)]
pub enum Severity {
    /// A punycode name that scores in the highest tier.
    Homoglyph,
    /// Suspicious, highest tier.
    High,
    /// Suspicious, medium tier.
    Medium,
    /// Suspicious, lowest tier.
    Low,
}

/// An alert for the console.
#[derive(Debug)]
pub struct Alert {
    pub severity: Severity,
    /// The name the alert shows.
    pub domain: String,
}

/// What is to be done about a scored name.
#[derive(Debug)]
pub struct Report {
    /// The alert to show, if any.
    pub alert: Option<Alert>,
    /// The record to append to the log, if any.
    pub log_entry: Option<String>,
}

/// The severity a score calls for, highest tier first; none below the
/// report threshold.
pub open spec fn severity_of(score: nat, punycode_detected: bool) -> Option<Severity> {
    if score >= 90 && punycode_detected {
        Some(Severity::Homoglyph)
    } else if score >= 90 {
        Some(Severity::High)
    } else if score >= 70 {
        Some(Severity::Medium)
    } else if score >= 56 {
        Some(Severity::Low)
    } else {
        None
    }
}

/// The name an alert shows: the original in the lowest tier, the normalized
/// name in every other.
pub open spec fn shown_name(severity: Severity, original: Seq<char>, normalized: Seq<char>) -> Seq<
    char,
> {
    match severity {
        Severity::Low => original,
        _ => normalized,
    }
}

/// The log record of a name: the normalized name, followed by the original
/// where the two differ by punycode. Nothing is logged below the report
/// threshold.
pub open spec fn log_text(
    score: nat,
    original: Seq<char>,
    normalized: Seq<char>,
    punycode_detected: bool,
) -> Option<Seq<char>> {
    if score < 56 {
        None
    } else if punycode_detected {
        Some(normalized + " - (Punycode: "@ + original + ")"@)
    } else {
        Some(normalized)
    }
}

impl Alert {
    /// The severity and the characters of the name shown.
    pub open spec fn shows(&self) -> (Severity, Seq<char>) {
        (self.severity, self.domain@)
    }
}

impl Report {
    /// The severity and name of the alert, if there is one.
    pub open spec fn alert_shown(&self) -> Option<(Severity, Seq<char>)> {
        match self.alert {
            Some(alert) => Some(alert.shows()),
            None => None,
        }
    }

    /// The characters of the log record, if there is one.
    pub open spec fn logged(&self) -> Option<Seq<char>> {
        match self.log_entry {
            Some(entry) => Some(entry@),
            None => None,
        }
    }
}

/// Decides the alert and the log record for a scored name.
pub fn report(score: usize, domain_original: &str, domain: &str, punycode_detected: bool) -> (r:
    Report)
    ensures
        r.alert_shown() == match severity_of(score as nat, punycode_detected) {
            Some(severity) => Some((severity, shown_name(severity, domain_original@, domain@))),
            None => None,
        },
        r.logged() == log_text(score as nat, domain_original@, domain@, punycode_detected),
{
    let alert = if score >= HIGH_THRESHOLD && punycode_detected {
        Some(Alert { severity: Severity::Homoglyph, domain: domain.to_owned() })
    } else if score >= HIGH_THRESHOLD {
        Some(Alert { severity: Severity::High, domain: domain.to_owned() })
    } else if score >= MEDIUM_THRESHOLD {
        Some(Alert { severity: Severity::Medium, domain: domain.to_owned() })
    } else if score >= REPORT_THRESHOLD {
        Some(Alert { severity: Severity::Low, domain: domain_original.to_owned() })
    } else {
        None
    };
    let log_entry = if score >= REPORT_THRESHOLD {
        let mut entry = domain.to_owned();
        if punycode_detected {
            entry.append(" - (Punycode: ");
            entry.append(domain_original);
            entry.append(")");
        }
        Some(entry)
    } else {
        None
    };
    Report { alert, log_entry }
}

} // verus!
