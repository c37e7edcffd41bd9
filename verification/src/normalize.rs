//! The normalizer: undoes the punycode encoding of each label of a name and
//! maps the decoded characters to the common characters they can be taken
//! for, so that a look-alike spelled in another script compares equal to the
//! plain keyword it imitates.

use crate::data::text_of;
use crate::text::{
    dot_free, join_labels, lemma_first_dot, lemma_join_split, same_text, split, split_labels,
    starts_with, views,
};
use unicode_skeleton::UnicodeSkeleton;
use vstd::prelude::*;

verus! {

/// What `idna::punycode::decode` makes of an encoded label: the decoded
/// characters, or nothing where the input is malformed or overflows the
/// decoder. It is only ever applied to a label that is `decodable`: on a
/// longer one the decoder does not return.
pub uninterp spec fn punycode_decoded(encoded: Seq<char>) -> Option<Seq<char>>;

/// The skeleton that `unicode_skeleton` gives a text: the text decomposed,
/// with each character replaced by the prototype of the characters it can be
/// confused with.
pub uninterp spec fn skeleton_of(text: Seq<char>) -> Seq<char>;

/// The prefix that marks a label as punycode.
pub open spec fn punycode_prefix() -> Seq<char> {
    seq!['x', 'n', '-', '-']
}

/// The decoder counts in 32 bits: it takes an encoded label only while the
/// label's bytes stay below that.
pub open spec fn decodable(encoded: Seq<char>) -> bool {
    vstd::utf8::encode_utf8(encoded).len() < u32::MAX
}

/// A label after normalization. A label that begins with the punycode prefix
/// is decoded without it and replaced by the skeleton of what it decodes to;
/// there is no result where it does not decode or is too long for the
/// decoder. Any other label stays as it is.
pub open spec fn normalized_label(label: Seq<char>) -> Option<Seq<char>> {
    if punycode_prefix().is_prefix_of(label) {
        let encoded = label.skip(4);
        if decodable(encoded) && punycode_decoded(encoded) is Some {
            Some(skeleton_of(punycode_decoded(encoded)->0))
        } else {
            None
        }
    } else {
        Some(label)
    }
}

/// Every label has a normal form.
pub open spec fn all_normalize(labels: Seq<Seq<char>>) -> bool {
    forall|i: int| 0 <= i < labels.len() ==> (#[trigger] normalized_label(labels[i])) is Some
}

/// The labels, each in its normal form.
pub open spec fn normalized_labels(labels: Seq<Seq<char>>) -> Seq<Seq<char>> {
    Seq::new(labels.len(), |i: int| normalized_label(labels[i])->0)
}

/// A name after normalization: its labels, each normalized, joined again.
/// There is no result where one of the labels does not decode.
pub open spec fn normalized_domain(domain: Seq<char>) -> Option<Seq<char>> {
    let labels = split_labels(domain);
    if all_normalize(labels) {
        Some(join_labels(normalized_labels(labels)))
    } else {
        None
    }
}

/// Punycode was found in a name: the name has a normal form, and it is not
/// the name itself.
pub open spec fn punycode_found(domain: Seq<char>) -> bool {
    normalized_domain(domain) is Some && normalized_domain(domain)->0 != domain
}

/// A normalized name, with the mark of whether normalizing changed it.
#[derive(Debug, Clone)]
pub struct NormalizedDomain {
    pub domain: String,
    pub punycode_detected: bool,
}

/// Calls `idna::punycode::decode` and collects the characters it returns.
/// Trusted: the result is what the decoder makes of the input. The decoder's
/// 32-bit counters cannot overflow on an input below 4 GiB, which is what the
/// precondition keeps it to.
#[verifier::external_body]
fn decode_punycode(encoded: &str) -> (decoded: Option<String>)
    requires
        decodable(encoded@),
    ensures
        text_of(decoded) == punycode_decoded(encoded@),
{
    match idna::punycode::decode(encoded) {
        Some(chars) => Some(chars.into_iter().collect()),
        None => None,
    }
}

/// Calls `skeleton_chars` of `unicode_skeleton` and collects the characters
/// it yields. Trusted: the result is the skeleton of the input.
#[verifier::external_body]
fn skeleton(text: &str) -> (s: String)
    ensures
        s@ == skeleton_of(text@),
{
    text.skeleton_chars().collect()
}

/// Appending a label to a list extends the joined text by a full stop and
/// that label, or by the label alone where the list was empty.
pub proof fn lemma_join_push(labels: Seq<Seq<char>>, last: Seq<char>)
    ensures
        join_labels(labels.push(last)) == if labels.len() == 0 {
            last
        } else {
            join_labels(labels) + seq!['.'] + last
        },
    decreases labels.len(),
{
    let all = labels.push(last);
    if labels.len() == 0 {
    } else {
        let rest = labels.drop_first();
        assert(all.drop_first() == rest.push(last));
        lemma_join_push(rest, last);
        if rest.len() == 0 {
            assert(join_labels(labels) == labels[0]);
        } else {
            assert(join_labels(all) == labels[0] + seq!['.'] + (join_labels(rest) + seq!['.']
                + last));
            assert(join_labels(all) == (labels[0] + seq!['.'] + join_labels(rest)) + seq!['.']
                + last);
        }
    }
}

/// A name of one label that is punycode for a text normalizes to the
/// skeleton of that text, and punycode is found in it unless that skeleton
/// is the label itself.
pub proof fn law_punycode_label_gives_skeleton(encoded: Seq<char>, decoded: Seq<char>)
    requires
        dot_free(encoded),
        decodable(encoded),
        punycode_decoded(encoded) == Some(decoded),
    ensures
        normalized_label(punycode_prefix() + encoded) == Some(skeleton_of(decoded)),
        normalized_domain(punycode_prefix() + encoded) == Some(skeleton_of(decoded)),
        punycode_found(punycode_prefix() + encoded) == (skeleton_of(decoded) != punycode_prefix()
            + encoded),
{
    let label = punycode_prefix() + encoded;
    assert(label.subrange(0, 4) == punycode_prefix());
    assert(label.skip(4) == encoded);
    lemma_first_dot(label, label.len() as int);
    assert(split_labels(label) == seq![label]);
    assert(normalized_labels(seq![label]) == seq![skeleton_of(decoded)]);
}

/// The labels of a name with each punycode label replaced by the skeleton of
/// the text given for it, and every other label left as it is.
pub open spec fn skeleton_labels(labels: Seq<Seq<char>>, decoded: Seq<Seq<char>>) -> Seq<
    Seq<char>,
> {
    Seq::new(
        labels.len(),
        |i: int|
            if punycode_prefix().is_prefix_of(labels[i]) {
                skeleton_of(decoded[i])
            } else {
                labels[i]
            },
    )
}

/// Label by label: where each label of a name that begins with the punycode
/// prefix decodes to the text given for it, the normal form of the name is
/// its labels joined again, each punycode label replaced by the skeleton of
/// its text and every other label left as it is.
pub proof fn law_normal_form_label_by_label(domain: Seq<char>, decoded: Seq<Seq<char>>)
    requires
        decoded.len() == split_labels(domain).len(),
        forall|i: int|
            0 <= i < split_labels(domain).len() && punycode_prefix().is_prefix_of(
                #[trigger] split_labels(domain)[i],
            ) ==> decodable(split_labels(domain)[i].skip(4)) && punycode_decoded(
                split_labels(domain)[i].skip(4),
            ) == Some(decoded[i]),
    ensures
        normalized_domain(domain) == Some(
            join_labels(skeleton_labels(split_labels(domain), decoded)),
        ),
{
    let labels = split_labels(domain);
    assert forall|i: int| 0 <= i < labels.len() implies (#[trigger] normalized_label(
        labels[i],
    )) is Some by {}
    assert(normalized_labels(labels) =~= skeleton_labels(labels, decoded));
}

/// A name none of whose labels begins with the punycode prefix is its own
/// normal form, and no punycode is found in it.
pub proof fn law_plain_name_is_unchanged(domain: Seq<char>)
    requires
        forall|i: int|
            0 <= i < split_labels(domain).len() ==> !punycode_prefix().is_prefix_of(
                #[trigger] split_labels(domain)[i],
            ),
    ensures
        normalized_domain(domain) == Some(domain),
        !punycode_found(domain),
{
    let labels = split_labels(domain);
    assert(normalized_labels(labels) == labels);
    lemma_join_split(domain);
}

/// The normal form of one label.
pub fn normalize_label(label: &str) -> (normalized: Option<String>)
    ensures
        text_of(normalized) == normalized_label(label@),
{
    proof {
        reveal_strlit("xn--");
        assert("xn--"@ == punycode_prefix());
    }
    if starts_with(label, "xn--") {
        let encoded = label.substring_char(4, label.unicode_len());
        assert(encoded@ == label@.skip(4));
        if encoded.as_bytes().len() >= u32::MAX as usize {
            return None;
        }
        match decode_punycode(encoded) {
            Some(decoded) => Some(skeleton(decoded.as_str())),
            None => None,
        }
    } else {
        Some(label.to_owned())
    }
}

/// Normalizes a name label by label. Nothing is returned exactly where a
/// label that claims to be punycode does not decode.
pub fn punycode(domain: &str) -> (normalized: Option<String>)
    ensures
        text_of(normalized) == normalized_domain(domain@),
{
    let labels = split(domain);
    let ghost parts = split_labels(domain@);
    let mut joined = String::new();
    let mut i: usize = 0;
    while i < labels.len()
        invariant
            i <= labels@.len(),
            views(labels@) == parts,
            parts == split_labels(domain@),
            all_normalize(parts.take(i as int)),
            joined@ == join_labels(normalized_labels(parts.take(i as int))),
        decreases labels@.len() - i,
    {
        assert(labels@[i as int]@ == parts[i as int]);
        let label = match normalize_label(labels[i]) {
            Some(label) => label,
            None => {
                return None;
            },
        };
        proof {
            let before = parts.take(i as int);
            let after = parts.take(i + 1);
            assert(after == before.push(parts[i as int]));
            assert(normalized_labels(after) == normalized_labels(before).push(label@));
            lemma_join_push(normalized_labels(before), label@);
            reveal_strlit(".");
            assert("."@ == seq!['.']);
        }
        if i > 0 {
            joined.append(".");
        }
        joined.append(label.as_str());
        i += 1;
    }
    assert(parts.take(i as int) == parts);
    Some(joined)
}

/// Normalizes a name and marks whether that changed it.
pub fn normalize(domain: &str) -> (normalized: Option<NormalizedDomain>)
    ensures
        match normalized {
            Some(n) => normalized_domain(domain@) == Some(n.domain@) && n.punycode_detected
                == punycode_found(domain@),
            None => normalized_domain(domain@) is None,
        },
{
    match punycode(domain) {
        Some(normalized) => {
            let punycode_detected = !same_text(normalized.as_str(), domain);
            Some(NormalizedDomain { domain: normalized, punycode_detected })
        },
        None => None,
    }
}

} // verus!
