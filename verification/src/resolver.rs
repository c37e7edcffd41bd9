//! The suffix resolver: finds the registrable root of a name in a public
//! suffix list. The list and the search are `publicsuffix`'s; this module
//! states what the engine relies on and keeps the search to the names it is
//! defined on.

use crate::data::text_of;
use crate::text::chars_of;
use publicsuffix::List;
use vstd::prelude::*;

verus! {

#[verifier::external_type_specification]
#[verifier::external_body]
pub struct ExList(publicsuffix::List);

/// A public suffix list, seen as the map it induces: from each name that
/// `List::parse_domain` accepts and finds a registrable root for, to that
/// root.
pub uninterp spec fn registrable_roots(list: List) -> Map<Seq<char>, Seq<char>>;

/// The three characters besides the full stop that name processing turns
/// into a full stop: the ideographic, the fullwidth and the halfwidth
/// ideographic full stop.
pub open spec fn is_wide_full_stop(c: char) -> bool {
    c == '\u{3002}' || c == '\u{ff0e}' || c == '\u{ff61}'
}

/// The longest label that the punycode coder of name processing takes
/// without overflowing its 32-bit counters, whatever the label holds: the
/// counters grow by up to the whole code space for each character.
pub const LABEL_LIMIT: usize = 3855;

/// How many characters name processing can make of one: an ASCII character
/// stays one character; any other is mapped to at most 18, each of which
/// decomposes into at most 4.
pub open spec fn processed_weight(c: char) -> nat {
    if c <= '\u{7f}' {
        1
    } else {
        72
    }
}

/// An upper bound of the length of a name after name processing.
pub open spec fn processed_length(domain: Seq<char>) -> nat
    decreases domain.len(),
{
    if domain.len() == 0 {
        0
    } else {
        processed_length(domain.drop_last()) + processed_weight(domain.last())
    }
}

/// No character of the name is a wide full stop.
pub open spec fn narrow_stops(domain: Seq<char>) -> bool {
    forall|i: int| 0 <= i < domain.len() ==> !is_wide_full_stop(#[trigger] domain[i])
}

/// The name can be handed to the list: it holds no wide full stop, so that
/// it has as many labels before and after name processing, and it stays
/// within the label limit after name processing.
pub open spec fn resolvable(domain: Seq<char>) -> bool {
    narrow_stops(domain) && processed_length(domain) <= LABEL_LIMIT
}

/// The registrable root of a name under a list: the root the list finds for
/// it, and none for a name that is not `resolvable`.
pub open spec fn registrable_root(roots: Map<Seq<char>, Seq<char>>, domain: Seq<char>) -> Option<
    Seq<char>,
> {
    if resolvable(domain) && roots.contains_key(domain) {
        Some(roots[domain])
    } else {
        None
    }
}

/// Calls `List::parse_domain` and takes the `root` of the outcome. Trusted:
/// the result is the root the list induces for the name, and there is none
/// where the name is refused or has no root. Two things in `parse_domain`
/// fail on some names, and the precondition keeps those names out. It cuts
/// the root out of the name as given by counting the labels of the processed
/// name, which are more where a wide full stop was turned into a full stop.
/// And it runs the punycode decoder and encoder of `idna` on the labels of
/// the processed name, whose 32-bit counters overflow on long labels.
#[verifier::external_body]
fn parse_root(list: &List, domain: &str) -> (root: Option<String>)
    requires
        resolvable(domain@),
    ensures
        text_of(root) == (if registrable_roots(*list).contains_key(domain@) {
            Some(registrable_roots(*list)[domain@])
        } else {
            None
        }),
{
    match list.parse_domain(domain) {
        Ok(parsed) => match parsed.root() {
            Some(root) => Some(root.to_string()),
            None => None,
        },
        Err(_) => None,
    }
}

/// The processed length only grows with the name.
pub proof fn lemma_processed_length_grows(domain: Seq<char>, n: int)
    requires
        0 <= n <= domain.len(),
    ensures
        processed_length(domain.take(n)) <= processed_length(domain),
    decreases domain.len() - n,
{
    if n < domain.len() {
        lemma_processed_length_grows(domain.drop_last(), n);
        assert(domain.drop_last().take(n) == domain.take(n));
    } else {
        assert(domain.take(n) == domain);
    }
}

/// Whether the name is `resolvable`.
pub fn is_resolvable(domain: &str) -> (ok: bool)
    ensures
        ok == resolvable(domain@),
{
    let chars = chars_of(domain);
    let mut length: usize = 0;
    let mut i: usize = 0;
    while i < chars.len()
        invariant
            i <= chars@.len(),
            chars@ == domain@,
            narrow_stops(domain@.take(i as int)),
            length == processed_length(domain@.take(i as int)),
            length <= LABEL_LIMIT,
        decreases chars@.len() - i,
    {
        let c = chars[i];
        proof {
            assert(domain@.take(i + 1).drop_last() == domain@.take(i as int));
            assert(domain@.take(i + 1).last() == c);
        }
        if c == '\u{3002}' || c == '\u{ff0e}' || c == '\u{ff61}' {
            assert(is_wide_full_stop(domain@[i as int]));
            return false;
        }
        length += if c <= '\u{7f}' {
            1
        } else {
            72
        };
        if length > LABEL_LIMIT {
            proof {
                lemma_processed_length_grows(domain@, i + 1);
            }
            return false;
        }
        proof {
            assert forall|j: int| 0 <= j < i + 1 implies !is_wide_full_stop(
                #[trigger] domain@.take(i + 1)[j],
            ) by {
                if j < i {
                    assert(domain@.take(i as int)[j] == domain@.take(i + 1)[j]);
                }
            }
        }
        i += 1;
    }
    assert(domain@.take(i as int) == domain@);
    true
}

/// The registrable root of `domain` under `list`, if it has one.
pub fn resolve(list: &List, domain: &str) -> (root: Option<String>)
    ensures
        text_of(root) == registrable_root(registrable_roots(*list), domain@),
{
    if is_resolvable(domain) {
        parse_root(list, domain)
    } else {
        None
    }
}

} // verus!
