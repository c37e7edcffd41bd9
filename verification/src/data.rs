//! The records the engine works on: the protected identities it is
//! configured with and the certificate events it is handed.

use vstd::prelude::*;

verus! {

/// The subject and issuer organizations of a certificate that is known to
/// belong to a protected identity.
#[derive(Debug, Clone)]
pub struct Certificate {
    pub issued_to: String,
    pub issued_by: String,
}

/// A protected identity: the brand keyword that look-alike names are held
/// against, and optionally the certificate identity it legitimately uses.
#[derive(Debug, Clone)]
pub struct WebsiteIdentity {
    pub common_name: String,
    pub certificate: Option<Certificate>,
}

/// The identities to protect. Built once and only read afterwards.
#[derive(Debug, Clone)]
pub struct Config {
    pub identities: Vec<WebsiteIdentity>,
}

/// The part of a certificate subject that is consumed.
#[derive(Debug, Clone)]
pub struct Subject {
    pub organization: Option<String>,
    pub organizational_unit: Option<String>,
    pub common_name: Option<String>,
}

/// One entry of a certificate chain. Entry 0 of a chain is the leaf, entry 1
/// its immediate issuer.
#[derive(Debug)]
pub struct ChainObjects {
    pub subject: Subject,
}

/// The leaf certificate of an event, with every domain name it was issued
/// for.
#[derive(Debug)]
pub struct LeafCert {
    pub subject: Subject,
    pub all_domains: Vec<String>,
}

/// The payload of a certificate event.
#[derive(Debug)]
pub struct Data {
    pub leaf_cert: LeafCert,
    pub chain: Vec<ChainObjects>,
}

/// One message of the certificate stream.
#[derive(Debug)]
pub struct CertString {
    pub message_type: String,
    pub data: Data,
}

/// What a certificate chain says about who the certificate was issued to and
/// by whom.
pub struct ObservedIdentity {
    pub issued_to: Seq<char>,
    pub issued_by: Seq<char>,
}

/// A protected identity as the scoring rules see it.
pub struct IdentityModel {
    pub common_name: Seq<char>,
    pub certificate: Option<ObservedIdentity>,
}

/// The characters of an optional string.
pub open spec fn text_of(s: Option<String>) -> Option<Seq<char>> {
    match s {
        Some(s) => Some(s@),
        None => None,
    }
}

impl View for Certificate {
    type V = ObservedIdentity;

    open spec fn view(&self) -> ObservedIdentity {
        ObservedIdentity { issued_to: self.issued_to@, issued_by: self.issued_by@ }
    }
}

impl View for WebsiteIdentity {
    type V = IdentityModel;

    open spec fn view(&self) -> IdentityModel {
        IdentityModel {
            common_name: self.common_name@,
            certificate: match self.certificate {
                Some(c) => Some(c@),
                None => None,
            },
        }
    }
}

impl View for Config {
    type V = Seq<IdentityModel>;

    open spec fn view(&self) -> Seq<IdentityModel> {
        Seq::new(self.identities@.len(), |i: int| self.identities@[i]@)
    }
}

impl View for ChainObjects {
    type V = Option<Seq<char>>;

    /// A chain entry counts for its subject's organization alone.
    open spec fn view(&self) -> Option<Seq<char>> {
        text_of(self.subject.organization)
    }
}

/// The organizations of a chain, entry by entry.
pub open spec fn organizations(chain: Seq<ChainObjects>) -> Seq<Option<Seq<char>>> {
    Seq::new(chain.len(), |i: int| chain[i]@)
}

/// The brand keywords of a set of identities, in order.
pub open spec fn keywords(identities: Seq<IdentityModel>) -> Seq<Seq<char>> {
    Seq::new(identities.len(), |i: int| identities[i].common_name)
}

/// The organization of entry `i` of a chain; the empty string where the chain
/// has no such entry or the entry names no organization.
pub open spec fn organization_at(chain: Seq<Option<Seq<char>>>, i: int) -> Seq<char> {
    if 0 <= i < chain.len() {
        match chain[i] {
            Some(o) => o,
            None => Seq::empty(),
        }
    } else {
        Seq::empty()
    }
}

/// The identity a chain presents: the leaf's organization and that of its
/// immediate issuer.
pub open spec fn observed_identity(chain: Seq<Option<Seq<char>>>) -> ObservedIdentity {
    ObservedIdentity { issued_to: organization_at(chain, 0), issued_by: organization_at(chain, 1) }
}

/// Some identity's known certificate is exactly the observed one.
pub open spec fn allow_listed(identities: Seq<IdentityModel>, observed: ObservedIdentity) -> bool {
    exists|i: int|
        0 <= i < identities.len() && (#[trigger] identities[i]).certificate == Some(observed)
}

} // verus!
