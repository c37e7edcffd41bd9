//! The scoring rules, one function each: what a single label earns against
//! a single keyword, what a name earns for its shape, and how these add up
//! over the labels of a name and the identities to protect.

use crate::data::{keywords, text_of, Config};
use crate::text::{
    contains, is_substring, label_count, lemma_label_count_bounds, lemma_label_lengths,
    lemma_trimmed_labels, same_text, split, split_labels, trim_trailing_dots, views,
    without_trailing_dots,
};
use vstd::prelude::*;

verus! {

/// The Damerau-Levenshtein distance that `strsim` finds between two texts:
/// the least number of insertions, deletions, substitutions and swaps of
/// neighbours that turns one into the other.
pub uninterp spec fn damerau_levenshtein_distance(a: Seq<char>, b: Seq<char>) -> nat;

/// The distance is computed in a table with a machine word for each pair of
/// positions, two more than characters either way. The table must be one
/// that can be allocated: it may not take more than half the address space.
pub open spec fn measurable(a: Seq<char>, b: Seq<char>) -> bool {
    (a.len() + 2) * (b.len() + 2) <= usize::MAX / 16
}

/// What a name earns for holding a keyword: 10 where `key` occurs in
/// `name`.
pub open spec fn keyword_points(name: Seq<char>, key: Seq<char>) -> nat {
    if is_substring(key, name) {
        10
    } else {
        0
    }
}

/// What a name earns for being a keyword: 10 where the two are equal.
pub open spec fn exact_match_points(name: Seq<char>, key: Seq<char>) -> nat {
    if name == key {
        10
    } else {
        0
    }
}

/// What an edit distance earns. At distance 0 or 1 under punycode the name
/// is a homoglyph spelling of the keyword, or one slip away from one, and
/// earns 15 times the weight. At distance 1 without punycode it is a plain
/// typo and earns 8 times the weight. Anything else earns nothing.
pub open spec fn edit_distance_points(distance: nat, weight: nat, punycode_detected: bool) -> nat {
    if (distance == 1 || distance == 0) && punycode_detected {
        15 * weight
    } else if distance == 1 {
        8 * weight
    } else {
        0
    }
}

/// What a name earns for its distance from a keyword.
pub open spec fn near_miss_points(
    name: Seq<char>,
    key: Seq<char>,
    weight: nat,
    punycode_detected: bool,
) -> nat {
    edit_distance_points(damerau_levenshtein_distance(name, key), weight, punycode_detected)
}

/// The label reads like a top-level domain set in front of the real one: it
/// is `com` or `net`, or holds one of them next to a hyphen or a slash.
pub open spec fn is_tld_like(label: Seq<char>) -> bool {
    ||| label == "com"@
    ||| label == "net"@
    ||| is_substring("-net"@, label)
    ||| is_substring("-com"@, label)
    ||| is_substring("net-"@, label)
    ||| is_substring("com-"@, label)
    ||| is_substring("com/"@, label)
    ||| is_substring("net/"@, label)
}

/// What the labels of a subdomain earn for looking like a top-level domain:
/// 40 where the first of them does. Only the first label is looked at.
pub open spec fn tld_confusion_points(sub_labels: Seq<Seq<char>>) -> nat {
    if sub_labels.len() > 0 && is_tld_like(sub_labels[0]) {
        40
    } else {
        0
    }
}

/// What a name earns for its depth: 3 for each label where it has three or
/// more.
pub open spec fn nesting_points(domain: Seq<char>) -> nat {
    if label_count(domain) >= 3 {
        label_count(domain) * 3
    } else {
        0
    }
}

/// What the root label of a name earns against one keyword: four times the
/// keyword points, and the near-miss points at weight 6.
pub open spec fn root_points(root_label: Seq<char>, key: Seq<char>, punycode_detected: bool) -> nat {
    keyword_points(root_label, key) * 4 + near_miss_points(root_label, key, 6, punycode_detected)
}

/// Labels that name a mail or cloud service are too close to too many
/// keywords by chance: they are not measured for distance.
pub open spec fn skips_near_miss(label: Seq<char>) -> bool {
    is_substring("mail"@, label) || is_substring("cloud"@, label)
}

/// What one label of the subdomain earns against one keyword: five times the
/// keyword points, and the near-miss points at weight 4 unless the label is
/// exempt.
pub open spec fn sub_label_points(label: Seq<char>, key: Seq<char>, punycode_detected: bool) -> nat {
    keyword_points(label, key) * 5 + if skips_near_miss(label) {
        0
    } else {
        near_miss_points(label, key, 4, punycode_detected)
    }
}

/// What the labels of the subdomain earn together against one keyword.
pub open spec fn sub_labels_points(
    labels: Seq<Seq<char>>,
    key: Seq<char>,
    punycode_detected: bool,
) -> nat
    decreases labels.len(),
{
    if labels.len() == 0 {
        0
    } else {
        sub_labels_points(labels.drop_last(), key, punycode_detected) + sub_label_points(
            labels.last(),
            key,
            punycode_detected,
        )
    }
}

/// What a name earns against one keyword.
pub open spec fn identity_points(
    root_label: Seq<char>,
    sub_labels: Seq<Seq<char>>,
    key: Seq<char>,
    punycode_detected: bool,
) -> nat {
    root_points(root_label, key, punycode_detected) + sub_labels_points(
        sub_labels,
        key,
        punycode_detected,
    )
}

/// What a name earns against all keywords together.
pub open spec fn identities_points(
    keys: Seq<Seq<char>>,
    root_label: Seq<char>,
    sub_labels: Seq<Seq<char>>,
    punycode_detected: bool,
) -> nat
    decreases keys.len(),
{
    if keys.len() == 0 {
        0
    } else {
        identities_points(keys.drop_last(), root_label, sub_labels, punycode_detected)
            + identity_points(root_label, sub_labels, keys.last(), punycode_detected)
    }
}

/// The labels of the subdomain of a name under its registrable root: the
/// labels of the name that stand before its last labels, as many as the root
/// has. The root is not compared with them, so that it may differ from them
/// in letter case, and full stops at the end of the name are set aside.
/// There are none where the name has no more labels than the root, or where
/// all that stands before is one empty label.
pub open spec fn sub_labels_of(normalized: Seq<char>, root: Seq<char>) -> Seq<Seq<char>> {
    let labels = split_labels(without_trailing_dots(normalized));
    let kept = labels.len() - label_count(root);
    if kept <= 0 || (kept == 1 && labels[0].len() == 0) {
        Seq::empty()
    } else {
        labels.take(kept)
    }
}

/// The first label of the registrable root: the name that was registered.
pub open spec fn root_label_of(root: Seq<char>) -> Seq<char> {
    split_labels(root)[0]
}

/// What a name with a registrable root earns for its labels: the points
/// against every keyword, and the points for a subdomain that reads like a
/// top-level domain.
pub open spec fn resolved_points(
    keys: Seq<Seq<char>>,
    normalized: Seq<char>,
    root: Seq<char>,
    punycode_detected: bool,
) -> nat {
    identities_points(
        keys,
        root_label_of(root),
        sub_labels_of(normalized, root),
        punycode_detected,
    ) + tld_confusion_points(sub_labels_of(normalized, root))
}

/// The score of a normalized name. A name without a registrable root earns
/// nothing for its labels; every name earns the points for its depth.
pub open spec fn domain_points(
    keys: Seq<Seq<char>>,
    normalized: Seq<char>,
    root: Option<Seq<char>>,
    punycode_detected: bool,
) -> nat {
    (match root {
        Some(root) => resolved_points(keys, normalized, root, punycode_detected),
        None => 0,
    }) + nesting_points(normalized)
}

/// An upper bound of the score of a name with `n_labels` labels against
/// `n_keys` keywords.
pub open spec fn score_limit(n_keys: nat, n_labels: nat) -> nat {
    n_keys * (20 + 110 * n_labels) + 40 + 3 * n_labels
}

/// The name can be scored in machine arithmetic: its highest possible score
/// fits a machine word, and the distance between it, or its root, and each
/// keyword can be measured.
pub open spec fn within_limits(
    keys: Seq<Seq<char>>,
    normalized: Seq<char>,
    root: Option<Seq<char>>,
) -> bool {
    &&& score_limit(keys.len(), label_count(normalized)) <= usize::MAX
    &&& forall|i: int| 0 <= i < keys.len() ==> measurable(normalized, #[trigger] keys[i])
    &&& root matches Some(root) ==> forall|i: int|
        0 <= i < keys.len() ==> measurable(root, #[trigger] keys[i])
}

/// Calls `strsim::damerau_levenshtein`. Trusted: the result is the distance
/// between the two texts. `strsim` multiplies the two lengths, each plus two,
/// and allocates a vector of that many words; the precondition keeps both
/// from overflowing.
#[verifier::external_body]
fn edit_distance(a: &str, b: &str) -> (distance: usize)
    requires
        measurable(a@, b@),
    ensures
        distance == damerau_levenshtein_distance(a@, b@),
{
    strsim::damerau_levenshtein(a, b)
}

/// 10 where `key` occurs in `name`, else 0.
pub fn domain_keywords(name: &str, key: &str) -> (points: usize)
    ensures
        points == keyword_points(name@, key@),
{
    if contains(name, key) {
        return 10;
    }
    0
}

/// 10 where `name` is `key`, else 0.
pub fn domain_keywords_exact_match(name: &str, key: &str) -> (points: usize)
    ensures
        points == exact_match_points(name@, key@),
{
    if same_text(name, key) {
        return 10;
    }
    0
}

/// The points for a distance that has been measured.
pub fn edit_distance_score(distance: usize, weight: usize, punycode_detected: bool) -> (points:
    usize)
    requires
        15 * weight <= usize::MAX,
    ensures
        points == edit_distance_points(distance as nat, weight as nat, punycode_detected),
{
    if (distance == 1 || distance == 0) && punycode_detected {
        return 15 * weight;
    } else if distance == 1 {
        return 8 * weight;
    }
    0
}

/// Measures the distance between `name` and `key` and gives the points for
/// it.
pub fn calc_string_edit_distance(
    name: &str,
    key: &str,
    weight: usize,
    punycode_detected: bool,
) -> (points: usize)
    requires
        15 * weight <= usize::MAX,
        measurable(name@, key@),
    ensures
        points == near_miss_points(name@, key@, weight as nat, punycode_detected),
{
    let distance = edit_distance(name, key);
    edit_distance_score(distance, weight, punycode_detected)
}

/// Whether a label reads like a top-level domain.
pub fn looks_like_tld(label: &str) -> (tld_like: bool)
    ensures
        tld_like == is_tld_like(label@),
{
    same_text(label, "com") || same_text(label, "net") || contains(label, "-net") || contains(
        label,
        "-com",
    ) || contains(label, "net-") || contains(label, "com-") || contains(label, "com/")
        || contains(label, "net/")
}

/// The points for a subdomain whose first label reads like a top-level
/// domain.
pub fn search_tldl_on_subdomain(sub_domain: &Vec<&str>) -> (points: usize)
    ensures
        points == tld_confusion_points(views(sub_domain@)),
{
    if sub_domain.len() > 0 && looks_like_tld(sub_domain[0]) {
        return 40;
    }
    0
}

/// The points for the depth of a name.
pub fn deeply_nested(domain: &str) -> (points: usize)
    requires
        label_count(domain@) * 3 <= usize::MAX,
    ensures
        points == nesting_points(domain@),
{
    let v = split(domain);
    assert(views(v@).len() == v@.len());
    if v.len() >= 3 {
        v.len() * 3
    } else {
        0
    }
}

/// Labels that hold no keyword and are more than one edit away from it earn
/// nothing against it.
pub proof fn lemma_unrelated_sub_labels(
    labels: Seq<Seq<char>>,
    key: Seq<char>,
    punycode_detected: bool,
)
    requires
        forall|i: int|
            0 <= i < labels.len() ==> !is_substring(key, #[trigger] labels[i])
                && damerau_levenshtein_distance(labels[i], key) > 1,
    ensures
        sub_labels_points(labels, key, punycode_detected) == 0,
    decreases labels.len(),
{
    if labels.len() > 0 {
        let init = labels.drop_last();
        assert forall|i: int| 0 <= i < init.len() implies !is_substring(key, #[trigger] init[i])
            && damerau_levenshtein_distance(init[i], key) > 1 by {
            assert(init[i] == labels[i]);
        }
        lemma_unrelated_sub_labels(init, key, punycode_detected);
        assert(labels.last() == labels[labels.len() - 1]);
    }
}

/// A root label and subdomain labels that hold none of the keywords and are
/// more than one edit away from each of them earn nothing against them.
pub proof fn lemma_unrelated_labels(
    keys: Seq<Seq<char>>,
    root_label: Seq<char>,
    sub_labels: Seq<Seq<char>>,
    punycode_detected: bool,
)
    requires
        forall|j: int|
            0 <= j < keys.len() ==> !is_substring(#[trigger] keys[j], root_label)
                && damerau_levenshtein_distance(root_label, keys[j]) > 1,
        forall|i: int, j: int|
            0 <= i < sub_labels.len() && 0 <= j < keys.len() ==> !is_substring(
                #[trigger] keys[j],
                #[trigger] sub_labels[i],
            ) && damerau_levenshtein_distance(sub_labels[i], keys[j]) > 1,
    ensures
        identities_points(keys, root_label, sub_labels, punycode_detected) == 0,
    decreases keys.len(),
{
    if keys.len() > 0 {
        let init = keys.drop_last();
        let key = keys.last();
        assert(key == keys[keys.len() - 1]);
        assert forall|j: int| 0 <= j < init.len() implies !is_substring(
            #[trigger] init[j],
            root_label,
        ) && damerau_levenshtein_distance(root_label, init[j]) > 1 by {
            assert(init[j] == keys[j]);
        }
        assert forall|i: int, j: int| 0 <= i < sub_labels.len() && 0 <= j < init.len() implies
            !is_substring(#[trigger] init[j], #[trigger] sub_labels[i])
            && damerau_levenshtein_distance(sub_labels[i], init[j]) > 1 by {
            assert(init[j] == keys[j]);
        }
        lemma_unrelated_labels(init, root_label, sub_labels, punycode_detected);
        lemma_unrelated_sub_labels(sub_labels, key, punycode_detected);
    }
}

/// A name of fewer than three labels scores nothing where none of its
/// labels, nor the first label of its registrable root, holds a keyword or
/// is within one edit of one, and its subdomain, if it has one, does not
/// begin with a label that reads like a top-level domain.
pub proof fn law_unrelated_name_scores_nothing(
    keys: Seq<Seq<char>>,
    normalized: Seq<char>,
    root: Option<Seq<char>>,
    punycode_detected: bool,
)
    requires
        label_count(normalized) < 3,
        forall|i: int, j: int|
            0 <= i < split_labels(normalized).len() && 0 <= j < keys.len() ==> !is_substring(
                #[trigger] keys[j],
                #[trigger] split_labels(normalized)[i],
            ) && damerau_levenshtein_distance(split_labels(normalized)[i], keys[j]) > 1,
        root matches Some(root) ==> forall|j: int|
            0 <= j < keys.len() ==> !is_substring(#[trigger] keys[j], root_label_of(root))
                && damerau_levenshtein_distance(root_label_of(root), keys[j]) > 1,
        root matches Some(root) ==> tld_confusion_points(sub_labels_of(normalized, root)) == 0,
    ensures
        domain_points(keys, normalized, root, punycode_detected) == 0,
{
    match root {
        Some(root) => {
            let sub_labels = sub_labels_of(normalized, root);
            lemma_sub_labels(normalized, root);
            assert forall|i: int, j: int| 0 <= i < sub_labels.len() && 0 <= j < keys.len() implies
                !is_substring(#[trigger] keys[j], #[trigger] sub_labels[i])
                && damerau_levenshtein_distance(sub_labels[i], keys[j]) > 1 by {
                assert(sub_labels[i] == split_labels(normalized)[i]);
            }
            lemma_unrelated_labels(keys, root_label_of(root), sub_labels, punycode_detected);
        },
        None => {},
    }
}

/// A text no longer than one that can be measured against a keyword can be
/// measured against it too.
pub proof fn lemma_measurable_shorter(a: Seq<char>, longer: Seq<char>, key: Seq<char>)
    requires
        a.len() <= longer.len(),
        measurable(longer, key),
    ensures
        measurable(a, key),
{
    assert((a.len() + 2) * (key.len() + 2) <= (longer.len() + 2) * (key.len() + 2))
        by (nonlinear_arith)
        requires
            a.len() <= longer.len(),
    ;
}

/// The labels of the subdomain are the first labels of the name, and fewer
/// than the name has.
pub proof fn lemma_sub_labels(normalized: Seq<char>, root: Seq<char>)
    ensures
        sub_labels_of(normalized, root).len() < label_count(normalized),
        forall|i: int|
            0 <= i < sub_labels_of(normalized, root).len() ==> (#[trigger] sub_labels_of(
                normalized,
                root,
            )[i]) == split_labels(normalized)[i],
        forall|i: int|
            0 <= i < sub_labels_of(normalized, root).len() ==> (#[trigger] sub_labels_of(
                normalized,
                root,
            )[i]).len() <= normalized.len(),
{
    lemma_label_count_bounds(normalized);
    lemma_label_count_bounds(root);
    lemma_trimmed_labels(normalized);
    lemma_label_lengths(normalized);
}

/// The labels of the subdomain of `normalized` under `root`.
pub fn subdomain_labels<'a>(normalized: &'a str, root: &str) -> (labels: Vec<&'a str>)
    ensures
        views(labels@) == sub_labels_of(normalized@, root@),
{
    let all = split(trim_trailing_dots(normalized));
    let of_root = split(root);
    let mut labels: Vec<&'a str> = Vec::new();
    proof {
        assert(views(all@).len() == all@.len());
        assert(views(of_root@).len() == of_root@.len());
        assert(views(labels@) == Seq::<Seq<char>>::empty());
    }
    if all.len() <= of_root.len() {
        return labels;
    }
    let kept: usize = all.len() - of_root.len();
    assert(all@[0]@ == views(all@)[0]);
    if kept == 1 && all[0].unicode_len() == 0 {
        return labels;
    }
    let mut i: usize = 0;
    while i < kept
        invariant
            i <= kept <= all@.len(),
            views(labels@) == views(all@).take(i as int),
        decreases kept - i,
    {
        proof {
            let next = views(labels@.push(all@[i as int]));
            let goal = views(all@).take(i + 1);
            assert(views(labels@).len() == labels@.len());
            assert(views(all@).len() == all@.len());
            assert forall|j: int| 0 <= j < goal.len() implies next[j] == goal[j] by {
                if j < i {
                    assert(views(labels@)[j] == labels@[j]@);
                    assert(views(all@).take(i as int)[j] == all@[j]@);
                }
            }
            assert(next =~= goal);
        }
        labels.push(all[i]);
        i += 1;
    }
    labels
}

/// Whether the table for the distance between two texts of these lengths
/// can be allocated.
pub fn lengths_measurable(a_len: usize, b_len: usize) -> (ok: bool)
    ensures
        ok == ((a_len + 2) * (b_len + 2) <= usize::MAX / 16),
{
    let a: usize = match a_len.checked_add(2) {
        Some(a) => a,
        None => {
            assert((a_len + 2) * (b_len + 2) > usize::MAX) by (nonlinear_arith)
                requires
                    a_len + 2 > usize::MAX,
                    b_len >= 0,
            ;
            return false;
        },
    };
    let b: usize = match b_len.checked_add(2) {
        Some(b) => b,
        None => {
            assert((a_len + 2) * (b_len + 2) > usize::MAX) by (nonlinear_arith)
                requires
                    b_len + 2 > usize::MAX,
                    a_len >= 0,
            ;
            return false;
        },
    };
    match a.checked_mul(b) {
        Some(cells) => cells <= usize::MAX / 16,
        None => false,
    }
}

/// Whether the highest possible score of a name with `n_labels` labels
/// against `n_keys` keywords fits a machine word.
pub fn score_fits(n_keys: usize, n_labels: usize) -> (ok: bool)
    ensures
        ok == (score_limit(n_keys as nat, n_labels as nat) <= usize::MAX),
{
    let depth: usize = match n_labels.checked_mul(3) {
        Some(depth) => depth,
        None => {
            return false;
        },
    };
    let shape: usize = match depth.checked_add(40) {
        Some(shape) => shape,
        None => {
            return false;
        },
    };
    if n_keys == 0 {
        assert(n_keys * (20 + 110 * n_labels) == 0) by (nonlinear_arith)
            requires
                n_keys == 0,
        ;
        return true;
    }
    assert(n_keys * (20 + 110 * n_labels) >= 20 + 110 * n_labels) by (nonlinear_arith)
        requires
            n_keys >= 1,
            n_labels >= 0,
    ;
    let labels: usize = match n_labels.checked_mul(110) {
        Some(labels) => labels,
        None => {
            return false;
        },
    };
    let per_key: usize = match labels.checked_add(20) {
        Some(per_key) => per_key,
        None => {
            return false;
        },
    };
    match n_keys.checked_mul(per_key) {
        Some(keys) => keys.checked_add(shape).is_some(),
        None => false,
    }
}

/// Whether `text` can be measured against every keyword of `config`.
pub fn measurable_against_all(config: &Config, text: &str) -> (ok: bool)
    ensures
        ok == (forall|i: int|
            0 <= i < keywords(config@).len() ==> measurable(text@, #[trigger] keywords(config@)[i])),
{
    let ghost keys = keywords(config@);
    let len = text.unicode_len();
    let mut i: usize = 0;
    while i < config.identities.len()
        invariant
            i <= config.identities@.len(),
            keys == keywords(config@),
            len == text@.len(),
            forall|j: int| 0 <= j < i ==> measurable(text@, #[trigger] keys[j]),
        decreases config.identities@.len() - i,
    {
        let key = config.identities[i].common_name.as_str();
        assert(key@ == keys[i as int]);
        if !lengths_measurable(len, key.unicode_len()) {
            return false;
        }
        i += 1;
    }
    true
}

/// Whether a normalized name, with its root where it has one, can be scored
/// in machine arithmetic.
pub fn fits_limits(config: &Config, normalized: &str, root: &Option<String>) -> (ok: bool)
    ensures
        ok == within_limits(keywords(config@), normalized@, text_of(*root)),
{
    let labels = split(normalized);
    assert(labels@.len() == label_count(normalized@)) by {
        assert(views(labels@).len() == labels@.len());
    }
    if !score_fits(config.identities.len(), labels.len()) {
        return false;
    }
    if !measurable_against_all(config, normalized) {
        return false;
    }
    match root {
        Some(root) => measurable_against_all(config, root.as_str()),
        None => true,
    }
}

/// What the labels of the subdomain earn together against one keyword.
pub fn score_sub_labels(sub_labels: &Vec<&str>, key: &str, punycode_detected: bool) -> (points:
    usize)
    requires
        forall|i: int| 0 <= i < sub_labels@.len() ==> measurable((#[trigger] sub_labels@[i])@, key@),
        110 * sub_labels@.len() <= usize::MAX,
    ensures
        points == sub_labels_points(views(sub_labels@), key@, punycode_detected),
        points <= 110 * sub_labels@.len(),
{
    let ghost labels = views(sub_labels@);
    let mut points: usize = 0;
    let mut i: usize = 0;
    while i < sub_labels.len()
        invariant
            i <= sub_labels@.len(),
            labels == views(sub_labels@),
            forall|i: int|
                0 <= i < sub_labels@.len() ==> measurable((#[trigger] sub_labels@[i])@, key@),
            110 * sub_labels@.len() <= usize::MAX,
            points == sub_labels_points(labels.take(i as int), key@, punycode_detected),
            points <= 110 * i,
        decreases sub_labels@.len() - i,
    {
        let name = sub_labels[i];
        let mut earned: usize = domain_keywords(name, key) * 5;
        if !contains(name, "mail") && !contains(name, "cloud") {
            earned += calc_string_edit_distance(name, key, 4, punycode_detected);
        }
        proof {
            assert(labels.take(i + 1).drop_last() == labels.take(i as int));
            assert(labels.take(i + 1).last() == name@);
        }
        points += earned;
        i += 1;
    }
    assert(labels.take(i as int) == labels);
    points
}

/// What a name earns against one keyword.
pub fn score_identity(
    root_label: &str,
    sub_labels: &Vec<&str>,
    key: &str,
    punycode_detected: bool,
) -> (points: usize)
    requires
        measurable(root_label@, key@),
        forall|i: int| 0 <= i < sub_labels@.len() ==> measurable((#[trigger] sub_labels@[i])@, key@),
        130 + 110 * sub_labels@.len() <= usize::MAX,
    ensures
        points == identity_points(root_label@, views(sub_labels@), key@, punycode_detected),
        points <= 130 + 110 * sub_labels@.len(),
{
    let held = domain_keywords(root_label, key) * 4;
    let near = calc_string_edit_distance(root_label, key, 6, punycode_detected);
    held + near + score_sub_labels(sub_labels, key, punycode_detected)
}

/// Scores a normalized name against the keywords of `config`, given its
/// registrable root where it has one.
pub fn score_domain(
    config: &Config,
    normalized: &str,
    root: &Option<String>,
    punycode_detected: bool,
) -> (score: usize)
    requires
        within_limits(keywords(config@), normalized@, text_of(*root)),
    ensures
        score == domain_points(keywords(config@), normalized@, text_of(*root), punycode_detected),
{
    let ghost keys = keywords(config@);
    let labels = split(normalized);
    let depth: usize = labels.len();
    assert(depth == label_count(normalized@)) by {
        assert(views(labels@).len() == labels@.len());
    }
    let mut score: usize = 0;
    if let Some(root) = root {
        let root_labels = split(root.as_str());
        let sub_labels = subdomain_labels(normalized, root.as_str());
        proof {
            lemma_label_count_bounds(root@);
            lemma_label_lengths(root@);
            lemma_sub_labels(normalized@, root@);
            assert(views(root_labels@).len() == root_labels@.len());
            assert(views(sub_labels@).len() == sub_labels@.len());
            assert forall|j: int| 0 <= j < sub_labels@.len() implies (#[trigger] sub_labels@[j])@.len()
                <= normalized@.len() by {
                assert(views(sub_labels@)[j] == sub_labels@[j]@);
            }
        }
        let root_label = root_labels[0];
        assert(root_label@ == root_label_of(root@)) by {
            assert(views(root_labels@)[0] == root_labels@[0]@);
        }
        let ghost per_key = 130 + 110 * sub_labels@.len();
        assert(config.identities@.len() * per_key <= config.identities@.len() * (20 + 110 * depth))
            by (nonlinear_arith)
            requires
                per_key <= 20 + 110 * depth,
        ;
        let mut i: usize = 0;
        while i < config.identities.len()
            invariant
                i <= config.identities@.len(),
                keys == keywords(config@),
                keys.len() == config.identities@.len(),
                within_limits(keys, normalized@, Some(root@)),
                root_label@ == root_label_of(root@),
                root_label@.len() <= root@.len(),
                views(sub_labels@) == sub_labels_of(normalized@, root@),
                forall|j: int|
                    0 <= j < sub_labels@.len() ==> (#[trigger] sub_labels@[j])@.len()
                        <= normalized@.len(),
                per_key == 130 + 110 * sub_labels@.len(),
                config.identities@.len() * per_key + 40 + 3 * depth <= usize::MAX,
                score == identities_points(
                    keys.take(i as int),
                    root_label@,
                    views(sub_labels@),
                    punycode_detected,
                ),
                score <= i * per_key,
            decreases config.identities@.len() - i,
        {
            let key = config.identities[i].common_name.as_str();
            proof {
                assert(key@ == keys[i as int]);
                lemma_measurable_shorter(root_label@, root@, key@);
                assert forall|j: int| 0 <= j < sub_labels@.len() implies measurable(
                    (#[trigger] sub_labels@[j])@,
                    key@,
                ) by {
                    lemma_measurable_shorter(sub_labels@[j]@, normalized@, key@);
                }
                assert((i + 1) * per_key <= config.identities@.len() * per_key)
                    by (nonlinear_arith)
                    requires
                        i + 1 <= config.identities@.len(),
                        per_key >= 0,
                ;
                assert((i + 1) * per_key == i * per_key + per_key) by (nonlinear_arith);
                assert(keys.take(i + 1).drop_last() == keys.take(i as int));
                assert(keys.take(i + 1).last() == key@);
            }
            score += score_identity(root_label, &sub_labels, key, punycode_detected);
            i += 1;
        }
        proof {
            assert(keys.take(i as int) == keys);
            assert(i * per_key <= config.identities@.len() * per_key) by (nonlinear_arith)
                requires
                    i <= config.identities@.len(),
                    per_key >= 0,
            ;
        }
        score += search_tldl_on_subdomain(&sub_labels);
    }
    if depth >= 3 {
        score += depth * 3;
    }
    score
}

} // verus!
