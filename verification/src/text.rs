//! Character sequences: the model of every name this crate handles, and the
//! few operations on them that the scoring rules are written in.

use vstd::prelude::*;

verus! {

/// `needle` occurs in `haystack` as a contiguous run of characters.
/// The empty sequence occurs in every sequence.
pub open spec fn is_substring(needle: Seq<char>, haystack: Seq<char>) -> bool {
    exists|i: int| occurs_at(needle, haystack, i)
}

/// `needle` stands in `haystack` at offset `i`.
pub open spec fn occurs_at(needle: Seq<char>, haystack: Seq<char>, i: int) -> bool {
    &&& 0 <= i
    &&& i + needle.len() <= haystack.len()
    &&& haystack.subrange(i, i + needle.len()) == needle
}

/// The offset of the first full stop in `s`, or the length of `s` where it
/// holds none.
pub open spec fn first_dot(s: Seq<char>) -> nat
    decreases s.len(),
{
    if s.len() == 0 || s[0] == '.' {
        0
    } else {
        1 + first_dot(s.drop_first())
    }
}

/// The labels of `s`: the stretches of characters that its full stops
/// separate. There is always at least one label, and a label may be empty.
pub open spec fn split_labels(s: Seq<char>) -> Seq<Seq<char>>
    decreases s.len(),
{
    let k = first_dot(s) as int;
    if k >= s.len() {
        seq![s]
    } else {
        seq![s.take(k)] + split_labels(s.skip(k + 1))
    }
}

/// The labels set one after another with a full stop between neighbours.
pub open spec fn join_labels(labels: Seq<Seq<char>>) -> Seq<char>
    decreases labels.len(),
{
    if labels.len() == 0 {
        Seq::empty()
    } else if labels.len() == 1 {
        labels[0]
    } else {
        labels[0] + seq!['.'] + join_labels(labels.drop_first())
    }
}

/// How many labels `s` has: one more than it has full stops.
pub open spec fn label_count(s: Seq<char>) -> nat {
    split_labels(s).len()
}

/// No character of `s` is a full stop.
pub open spec fn dot_free(s: Seq<char>) -> bool {
    forall|i: int| 0 <= i < s.len() ==> s[i] != '.'
}

/// How many full stops `s` ends in.
pub open spec fn trailing_dots(s: Seq<char>) -> nat
    decreases s.len(),
{
    if s.len() > 0 && s.last() == '.' {
        1 + trailing_dots(s.drop_last())
    } else {
        0
    }
}

/// `s` without the full stops it ends in.
pub open spec fn without_trailing_dots(s: Seq<char>) -> Seq<char> {
    s.take(s.len() - trailing_dots(s))
}

/// The views of a vector of string slices.
pub open spec fn views(labels: Seq<&str>) -> Seq<Seq<char>> {
    Seq::new(labels.len(), |i: int| labels[i]@)
}

/// `first_dot` is the one offset that has no full stop before it and either
/// a full stop or the end of the sequence at it.
pub proof fn lemma_first_dot(s: Seq<char>, k: int)
    requires
        0 <= k <= s.len(),
        forall|j: int| 0 <= j < k ==> s[j] != '.',
        k < s.len() ==> s[k] == '.',
    ensures
        first_dot(s) == k,
    decreases k,
{
    if k > 0 {
        lemma_first_dot(s.drop_first(), k - 1);
    }
}

/// `first_dot` stays within the sequence, stands on a full stop wherever it
/// stands on a character, and has no full stop before it.
pub proof fn lemma_first_dot_bounds(s: Seq<char>)
    ensures
        first_dot(s) <= s.len(),
        first_dot(s) < s.len() ==> s[first_dot(s) as int] == '.',
        forall|j: int| 0 <= j < first_dot(s) ==> s[j] != '.',
    decreases s.len(),
{
    if s.len() != 0 && s[0] != '.' {
        let rest = s.drop_first();
        lemma_first_dot_bounds(rest);
        assert forall|j: int| 0 <= j < first_dot(s) implies s[j] != '.' by {
            if j > 0 {
                assert(s[j] == rest[j - 1]);
            }
        }
    }
}

/// A sequence has at least one label and at most one more than it has
/// characters.
pub proof fn lemma_label_count_bounds(s: Seq<char>)
    ensures
        1 <= label_count(s) <= s.len() + 1,
    decreases s.len(),
{
    lemma_first_dot_bounds(s);
    let k = first_dot(s) as int;
    if k < s.len() {
        lemma_label_count_bounds(s.skip(k + 1));
    }
}

/// No label is longer than the sequence it is cut from.
pub proof fn lemma_label_lengths(s: Seq<char>)
    ensures
        forall|i: int| 0 <= i < split_labels(s).len() ==> (#[trigger] split_labels(s)[i]).len()
            <= s.len(),
    decreases s.len(),
{
    lemma_first_dot_bounds(s);
    let k = first_dot(s) as int;
    if k < s.len() {
        lemma_label_lengths(s.skip(k + 1));
        let rest = split_labels(s.skip(k + 1));
        assert forall|i: int| 0 <= i < split_labels(s).len() implies (#[trigger] split_labels(
            s,
        )[i]).len() <= s.len() by {
            if i > 0 {
                assert(split_labels(s)[i] == rest[i - 1]);
            }
        }
    }
}

/// Splitting and joining again gives the sequence back.
pub proof fn lemma_join_split(s: Seq<char>)
    ensures
        join_labels(split_labels(s)) == s,
    decreases s.len(),
{
    lemma_first_dot_bounds(s);
    let k = first_dot(s) as int;
    if k < s.len() {
        let tail = s.skip(k + 1);
        lemma_join_split(tail);
        lemma_label_count_bounds(tail);
        let labels = split_labels(s);
        assert(labels.drop_first() == split_labels(tail));
        assert(s == s.take(k) + seq!['.'] + tail);
    }
}

/// The labels of two sequences set either side of a full stop are the labels
/// of the first followed by the labels of the second.
pub proof fn lemma_split_concat(a: Seq<char>, b: Seq<char>)
    ensures
        split_labels(a + seq!['.'] + b) == split_labels(a) + split_labels(b),
    decreases a.len(),
{
    let whole = a + seq!['.'] + b;
    lemma_first_dot_bounds(a);
    let k = first_dot(a) as int;
    assert forall|j: int| 0 <= j < k implies whole[j] != '.' by {
        assert(whole[j] == a[j]);
    }
    if k < a.len() {
        assert(whole[k] == a[k]);
    } else {
        assert(whole[k] == '.');
    }
    lemma_first_dot(whole, k);
    assert(whole.take(k) == a.take(k));
    if k < a.len() {
        let tail = a.skip(k + 1);
        assert(whole.skip(k + 1) == tail + seq!['.'] + b);
        lemma_split_concat(tail, b);
        assert(split_labels(whole) == seq![a.take(k)] + (split_labels(tail) + split_labels(b)));
        assert(split_labels(whole) == split_labels(a) + split_labels(b));
    } else {
        assert(whole.skip(k + 1) == b);
        assert(a.take(k) == a);
    }
}

/// A sequence ends in no more full stops than it has characters, and the
/// labels it has without them are the first of its labels.
pub proof fn lemma_trimmed_labels(s: Seq<char>)
    ensures
        trailing_dots(s) <= s.len(),
        split_labels(without_trailing_dots(s)).len() <= split_labels(s).len(),
        forall|i: int|
            0 <= i < split_labels(without_trailing_dots(s)).len() ==> (#[trigger] split_labels(
                without_trailing_dots(s),
            )[i]) == split_labels(s)[i],
    decreases s.len(),
{
    if s.len() > 0 && s.last() == '.' {
        let init = s.drop_last();
        lemma_trimmed_labels(init);
        assert(without_trailing_dots(s) == without_trailing_dots(init));
        assert(s == init + seq!['.'] + Seq::<char>::empty());
        lemma_split_concat(init, Seq::<char>::empty());
    } else {
        assert(without_trailing_dots(s) == s);
    }
}

/// The characters of `s`, in order.
pub fn chars_of(s: &str) -> (chars: Vec<char>)
    ensures
        chars@ == s@,
{
    let mut chars: Vec<char> = Vec::new();
    for c in it: s.chars()
        invariant
            it.seq() == s@,
            chars@ == s@.take(it.index() as int),
    {
        chars.push(c);
    }
    chars
}

/// Whether `needle` stands in `haystack` at offset `at`.
pub fn matches_at(haystack: &Vec<char>, needle: &Vec<char>, at: usize) -> (found: bool)
    requires
        at + needle@.len() <= haystack@.len(),
    ensures
        found == occurs_at(needle@, haystack@, at as int),
{
    let size: usize = haystack.len();
    let mut j: usize = 0;
    while j < needle.len()
        invariant
            j <= needle@.len(),
            at + needle@.len() <= haystack@.len() == size,
            forall|k: int| 0 <= k < j ==> haystack@[at + k] == needle@[k],
        decreases needle@.len() - j,
    {
        if haystack[at + j] != needle[j] {
            proof {
                let window = haystack@.subrange(at as int, at + needle@.len());
                assert(window[j as int] == haystack@[at + j]);
            }
            return false;
        }
        j += 1;
    }
    proof {
        let window = haystack@.subrange(at as int, at + needle@.len());
        assert(window =~= needle@);
    }
    true
}

/// Whether `needle` occurs in `haystack`.
pub fn contains_chars(haystack: &Vec<char>, needle: &Vec<char>) -> (found: bool)
    ensures
        found == is_substring(needle@, haystack@),
{
    if needle.len() > haystack.len() {
        return false;
    }
    let last: usize = haystack.len() - needle.len();
    let mut i: usize = 0;
    while i < last
        invariant
            last == haystack@.len() - needle@.len(),
            i <= last,
            forall|k: int| 0 <= k < i ==> !occurs_at(needle@, haystack@, k),
        decreases last - i,
    {
        if matches_at(haystack, needle, i) {
            return true;
        }
        i += 1;
    }
    matches_at(haystack, needle, last)
}

/// Whether `needle` occurs in `haystack`.
pub fn contains(haystack: &str, needle: &str) -> (found: bool)
    ensures
        found == is_substring(needle@, haystack@),
{
    let h = chars_of(haystack);
    let n = chars_of(needle);
    contains_chars(&h, &n)
}

/// Whether `s` begins with `prefix`.
pub fn starts_with(s: &str, prefix: &str) -> (found: bool)
    ensures
        found == prefix@.is_prefix_of(s@),
{
    let h = chars_of(s);
    let n = chars_of(prefix);
    if n.len() > h.len() {
        return false;
    }
    let found = matches_at(&h, &n, 0);
    proof {
        assert(s@.subrange(0, prefix@.len() as int) == prefix@ <==> prefix@.is_prefix_of(s@));
    }
    found
}

/// Whether the two hold the same characters.
pub fn same_text(a: &str, b: &str) -> (same: bool)
    ensures
        same == (a@ == b@),
{
    let x = chars_of(a);
    let y = chars_of(b);
    if x.len() != y.len() {
        return false;
    }
    let same = matches_at(&x, &y, 0);
    proof {
        assert(a@.subrange(0, a@.len() as int) == a@);
    }
    same
}

/// `s` without the full stops it ends in.
pub fn trim_trailing_dots<'a>(s: &'a str) -> (trimmed: &'a str)
    ensures
        trimmed@ == without_trailing_dots(s@),
{
    let chars = chars_of(s);
    let mut end: usize = chars.len();
    assert(s@.take(end as int) == s@);
    while end > 0 && chars[end - 1] == '.'
        invariant
            end <= chars@.len(),
            chars@ == s@,
            trailing_dots(s@) == (s@.len() - end) + trailing_dots(s@.take(end as int)),
        decreases end,
    {
        proof {
            assert(s@.take(end as int).drop_last() == s@.take(end - 1));
        }
        end -= 1;
    }
    proof {
        if end == 0 {
            assert(s@.take(0).len() == 0);
        }
    }
    s.substring_char(0, end)
}

/// The labels of `s`, each a slice of it.
pub fn split<'a>(s: &'a str) -> (labels: Vec<&'a str>)
    ensures
        views(labels@) == split_labels(s@),
{
    let chars = chars_of(s);
    let mut labels: Vec<&'a str> = Vec::new();
    let mut start: usize = 0;
    let mut i: usize = 0;
    proof {
        assert(s@.skip(0) == s@);
        assert(views(labels@) + split_labels(s@) == split_labels(s@));
    }
    while i < chars.len()
        invariant
            chars@ == s@,
            start <= i <= chars@.len(),
            forall|j: int| start <= j < i ==> s@[j] != '.',
            split_labels(s@) == views(labels@) + split_labels(s@.skip(start as int)),
        decreases chars@.len() - i,
    {
        if chars[i] == '.' {
            let label = s.substring_char(start, i);
            proof {
                let rest = s@.skip(start as int);
                assert forall|j: int| 0 <= j < i - start implies rest[j] != '.' by {
                    assert(rest[j] == s@[start + j]);
                }
                lemma_first_dot(rest, i - start);
                assert(rest.take(i - start) == s@.subrange(start as int, i as int));
                assert(rest.skip(i - start + 1) == s@.skip(i + 1));
                assert(views(labels@.push(label)) == views(labels@) + seq![label@]);
            }
            labels.push(label);
            start = i + 1;
        }
        i += 1;
    }
    let label = s.substring_char(start, chars.len());
    proof {
        let rest = s@.skip(start as int);
        assert forall|j: int| 0 <= j < rest.len() implies rest[j] != '.' by {
            assert(rest[j] == s@[start + j]);
        }
        lemma_first_dot(rest, rest.len() as int);
        assert(rest == s@.subrange(start as int, s@.len() as int));
        assert(views(labels@.push(label)) == views(labels@) + seq![label@]);
    }
    labels.push(label);
    labels
}

} // verus!
