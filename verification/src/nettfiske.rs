//! The engine: takes a name from a certificate and the chain the
//! certificate came with, and gives the name its score.

use crate::data::{
    allow_listed, keywords, observed_identity, organization_at, organizations, CertString,
    ChainObjects, Config, IdentityModel, ObservedIdentity,
};
use crate::normalize::{normalize, normalized_domain, punycode_found};
use crate::resolver::{registrable_root, registrable_roots, resolve};
use crate::scoring::{
    damerau_levenshtein_distance, domain_points, fits_limits, law_unrelated_name_scores_nothing,
    root_label_of, score_domain, sub_labels_of, tld_confusion_points, within_limits,
};
use crate::text::{contains, is_substring, label_count, same_text, split_labels, starts_with};
use publicsuffix::List;
use vstd::prelude::*;

verus! {

/// The outcome of scoring one name.
#[derive(Debug, Clone)]
pub struct ScoreResult {
    pub score: usize,
    pub domain_original: String,
    pub domain_normalized: String,
    pub punycode_detected: bool,
}

/// The outcome of scoring one name, as the rules state it.
pub struct ScoreModel {
    pub score: nat,
    pub domain_original: Seq<char>,
    pub domain_normalized: Seq<char>,
    pub punycode_detected: bool,
}

impl View for ScoreResult {
    type V = ScoreModel;

    open spec fn view(&self) -> ScoreModel {
        ScoreModel {
            score: self.score as nat,
            domain_original: self.domain_original@,
            domain_normalized: self.domain_normalized@,
            punycode_detected: self.punycode_detected,
        }
    }
}

/// The model of an optional outcome.
pub open spec fn outcome_of(result: Option<ScoreResult>) -> Option<ScoreModel> {
    match result {
        Some(result) => Some(result@),
        None => None,
    }
}

/// The prefix that marks a name as a wildcard.
pub open spec fn wildcard_prefix() -> Seq<char> {
    seq!['*', '.']
}

/// The name without a leading wildcard.
pub open spec fn strip_wildcard(domain: Seq<char>) -> Seq<char> {
    if wildcard_prefix().is_prefix_of(domain) {
        domain.skip(2)
    } else {
        domain
    }
}

/// The name that is scored in place of `original`: its normal form, or the
/// name itself where it has none.
pub open spec fn scored_name(original: Seq<char>) -> Seq<char> {
    match normalized_domain(original) {
        Some(normalized) => normalized,
        None => original,
    }
}

/// The registrable root that is used in scoring `original`: that of its
/// normal form, and none where it has no normal form.
pub open spec fn scored_root(roots: Map<Seq<char>, Seq<char>>, original: Seq<char>) -> Option<
    Seq<char>,
> {
    if normalized_domain(original) is Some {
        registrable_root(roots, scored_name(original))
    } else {
        None
    }
}

/// What scoring a name from a certificate gives.
///
/// The wildcard is stripped and the rest normalized. A chain that presents
/// the known certificate of a protected identity ends the matter with score
/// 0, whatever the name holds. Otherwise the normalized name is scored with
/// its registrable root. A name with a label that does not decode is scored
/// as it stands and without a root, so that it earns the points for its depth
/// only. There is no outcome for a name that exceeds what machine arithmetic
/// can score.
pub open spec fn analysis(
    identities: Seq<IdentityModel>,
    roots: Map<Seq<char>, Seq<char>>,
    domain: Seq<char>,
    chain: Seq<Option<Seq<char>>>,
) -> Option<ScoreModel> {
    let original = strip_wildcard(domain);
    let normalized = scored_name(original);
    let punycode_detected = punycode_found(original);
    let root = scored_root(roots, original);
    if allow_listed(identities, observed_identity(chain)) {
        Some(
            ScoreModel {
                score: 0,
                domain_original: original,
                domain_normalized: normalized,
                punycode_detected,
            },
        )
    } else if within_limits(keywords(identities), normalized, root) {
        Some(
            ScoreModel {
                score: domain_points(keywords(identities), normalized, root, punycode_detected),
                domain_original: original,
                domain_normalized: normalized,
                punycode_detected,
            },
        )
    } else {
        None
    }
}

/// A name from a certificate scores nothing where, once normalized, it has
/// fewer than three labels, none of its labels nor the first label of its
/// registrable root holds a keyword or is within one edit of one, and its
/// subdomain, if it has one, does not begin with a label that reads like a
/// top-level domain.
pub proof fn law_unrelated_name_is_not_scored(
    identities: Seq<IdentityModel>,
    roots: Map<Seq<char>, Seq<char>>,
    domain: Seq<char>,
    chain: Seq<Option<Seq<char>>>,
)
    requires
        label_count(scored_name(strip_wildcard(domain))) < 3,
        forall|i: int, j: int|
            0 <= i < split_labels(scored_name(strip_wildcard(domain))).len() && 0 <= j
                < identities.len() ==> !is_substring(
                (#[trigger] identities[j]).common_name,
                #[trigger] split_labels(scored_name(strip_wildcard(domain)))[i],
            ) && damerau_levenshtein_distance(
                split_labels(scored_name(strip_wildcard(domain)))[i],
                identities[j].common_name,
            ) > 1,
        scored_root(roots, strip_wildcard(domain)) matches Some(root) ==> forall|j: int|
            0 <= j < identities.len() ==> !is_substring(
                (#[trigger] identities[j]).common_name,
                root_label_of(root),
            ) && damerau_levenshtein_distance(root_label_of(root), identities[j].common_name)
                > 1,
        scored_root(roots, strip_wildcard(domain)) matches Some(root) ==> tld_confusion_points(
            sub_labels_of(scored_name(strip_wildcard(domain)), root),
        ) == 0,
    ensures
        analysis(identities, roots, domain, chain) matches Some(outcome) ==> outcome.score == 0,
{
    let original = strip_wildcard(domain);
    let keys = keywords(identities);
    assert forall|j: int| 0 <= j < keys.len() implies #[trigger] keys[j]
        == identities[j].common_name by {}
    law_unrelated_name_scores_nothing(
        keys,
        scored_name(original),
        scored_root(roots, original),
        punycode_found(original),
    );
}

/// The name without a leading wildcard.
pub fn without_wildcard<'a>(domain: &'a str) -> (original: &'a str)
    ensures
        original@ == strip_wildcard(domain@),
{
    proof {
        reveal_strlit("*.");
        assert("*."@ == wildcard_prefix());
    }
    if starts_with(domain, "*.") {
        domain.substring_char(2, domain.unicode_len())
    } else {
        domain
    }
}

/// The organization of entry `i` of the chain, or the empty string.
pub fn organization(chain: &Vec<ChainObjects>, i: usize) -> (name: &str)
    ensures
        name@ == organization_at(organizations(chain@), i as int),
{
    proof {
        reveal_strlit("");
    }
    if i < chain.len() {
        match &chain[i].subject.organization {
            Some(name) => name.as_str(),
            None => "",
        }
    } else {
        ""
    }
}

/// Whether some identity's known certificate names exactly these two
/// organizations.
pub fn is_allow_listed(config: &Config, issued_to: &str, issued_by: &str) -> (listed: bool)
    ensures
        listed == allow_listed(
            config@,
            ObservedIdentity { issued_to: issued_to@, issued_by: issued_by@ },
        ),
{
    let ghost observed = ObservedIdentity { issued_to: issued_to@, issued_by: issued_by@ };
    let mut i: usize = 0;
    while i < config.identities.len()
        invariant
            i <= config.identities@.len(),
            observed == (ObservedIdentity { issued_to: issued_to@, issued_by: issued_by@ }),
            forall|j: int| 0 <= j < i ==> (#[trigger] config@[j]).certificate != Some(observed),
        decreases config.identities@.len() - i,
    {
        if let Some(certificate) = &config.identities[i].certificate {
            if same_text(certificate.issued_to.as_str(), issued_to) && same_text(
                certificate.issued_by.as_str(),
                issued_by,
            ) {
                assert(config@[i as int].certificate == Some(observed));
                return true;
            }
        }
        i += 1;
    }
    false
}

/// Scores one name of a certificate against the identities of `config`.
/// `chain` is the certificate's chain, leaf first.
pub fn analyse_domain(
    original_domain: &str,
    list: &List,
    config: &Config,
    chain: &Vec<ChainObjects>,
) -> (result: Option<ScoreResult>)
    ensures
        outcome_of(result) == analysis(
            config@,
            registrable_roots(*list),
            original_domain@,
            organizations(chain@),
        ),
        allow_listed(config@, observed_identity(organizations(chain@))) ==> result is Some
            && result->0.score == 0,
{
    let original = without_wildcard(original_domain);
    let (normalized, punycode_detected, decoded) = match normalize(original) {
        Some(found) => (found.domain, found.punycode_detected, true),
        None => (original.to_owned(), false, false),
    };
    let issued_to = organization(chain, 0);
    let issued_by = organization(chain, 1);
    if is_allow_listed(config, issued_to, issued_by) {
        return Some(
            ScoreResult {
                score: 0,
                domain_original: original.to_owned(),
                domain_normalized: normalized,
                punycode_detected,
            },
        );
    }
    let root = if decoded {
        resolve(list, normalized.as_str())
    } else {
        None
    };
    if !fits_limits(config, normalized.as_str(), &root) {
        return None;
    }
    let score = score_domain(config, normalized.as_str(), &root, punycode_detected);
    Some(
        ScoreResult {
            score,
            domain_original: original.to_owned(),
            domain_normalized: normalized,
            punycode_detected,
        },
    )
}

/// A message of the certificate stream announces a certificate where its
/// type holds `certificate_update`.
pub open spec fn is_certificate_update(message_type: Seq<char>) -> bool {
    is_substring("certificate_update"@, message_type)
}

/// Whether a message of this type announces a certificate.
pub fn announces_certificate(message_type: &str) -> (announces: bool)
    ensures
        announces == is_certificate_update(message_type@),
{
    contains(message_type, "certificate_update")
}

/// The scoring engine: a public suffix list and the identities to protect,
/// both fixed once the engine is made.
pub struct Nettfiske {
    list: List,
    config: Config,
}

impl Nettfiske {
    /// The identities the engine protects.
    pub closed spec fn identities(&self) -> Seq<IdentityModel> {
        self.config@
    }

    /// The registrable roots under the engine's list.
    pub closed spec fn roots(&self) -> Map<Seq<char>, Seq<char>> {
        registrable_roots(self.list)
    }

    /// An engine for the identities of `config`, resolving names in `list`.
    pub fn new(config: Config, list: List) -> (engine: Self)
        ensures
            engine.identities() == config@,
            engine.roots() == registrable_roots(list),
    {
        Nettfiske { list, config }
    }

    /// Scores one name of a certificate. `chain` is the certificate's chain,
    /// leaf first.
    pub fn analyse_domain(&self, original_domain: &str, chain: &Vec<ChainObjects>) -> (result:
        Option<ScoreResult>)
        ensures
            outcome_of(result) == analysis(
                self.identities(),
                self.roots(),
                original_domain@,
                organizations(chain@),
            ),
            allow_listed(self.identities(), observed_identity(organizations(chain@)))
                ==> result is Some && result->0.score == 0,
    {
        analyse_domain(original_domain, &self.list, &self.config, chain)
    }

    /// Scores every name of the certificate that a message announces, in the
    /// order the certificate lists them, each with the whole chain. A message
    /// of another type gives no outcomes.
    pub fn analyse_event(&self, event: &CertString) -> (results: Vec<Option<ScoreResult>>)
        ensures
            results@.len() == if is_certificate_update(event.message_type@) {
                event.data.leaf_cert.all_domains@.len()
            } else {
                0
            },
            forall|i: int|
                0 <= i < results@.len() ==> outcome_of(#[trigger] results@[i]) == analysis(
                    self.identities(),
                    self.roots(),
                    event.data.leaf_cert.all_domains@[i]@,
                    organizations(event.data.chain@),
                ),
            allow_listed(self.identities(), observed_identity(organizations(event.data.chain@)))
                ==> forall|i: int|
                0 <= i < results@.len() ==> (#[trigger] results@[i]) is Some
                    && results@[i]->0.score == 0,
    {
        let mut results: Vec<Option<ScoreResult>> = Vec::new();
        if !announces_certificate(event.message_type.as_str()) {
            return results;
        }
        let domains = &event.data.leaf_cert.all_domains;
        let mut i: usize = 0;
        while i < domains.len()
            invariant
                i <= domains@.len(),
                domains == &event.data.leaf_cert.all_domains,
                results@.len() == i,
                forall|j: int|
                    0 <= j < i ==> outcome_of(#[trigger] results@[j]) == analysis(
                        self.identities(),
                        self.roots(),
                        domains@[j]@,
                        organizations(event.data.chain@),
                    ),
                allow_listed(
                    self.identities(),
                    observed_identity(organizations(event.data.chain@)),
                ) ==> forall|j: int|
                    0 <= j < i ==> (#[trigger] results@[j]) is Some && results@[j]->0.score == 0,
            decreases domains@.len() - i,
        {
            let result = self.analyse_domain(domains[i].as_str(), &event.data.chain);
            results.push(result);
            i += 1;
        }
        results
    }
}

} // verus!
