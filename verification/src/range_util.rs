//! Ranges of keys.
use std::ops::Bound;

use crate::key_order::{bytes_as_slice, bytes_lt};
use bytes::Bytes;
use vstd::prelude::*;

verus! {

/// `std::ops::Bound`, with its variants `Included`, `Excluded` and `Unbounded`.
#[verifier::external_type_specification]
#[verifier::reject_recursive_types(T)]
pub struct ExBound<T>(std::ops::Bound<T>);

/// A range of keys.
#[derive(Debug)]
pub struct BytesRange {
    pub start_bound: Bound<Bytes>,
    pub end_bound: Bound<Bytes>,
}

/// Whether a key is not before a start bound.
pub open spec fn is_after_start(start: Bound<Bytes>, key: Seq<u8>) -> bool {
    match start {
        Bound::Unbounded => true,
        Bound::Included(bound) => crate::key_order::lex_le(
            crate::key_order::bytes_view(bound),
            key,
        ),
        Bound::Excluded(bound) => crate::key_order::lex_lt(
            crate::key_order::bytes_view(bound),
            key,
        ),
    }
}

/// Whether a key is not behind an end bound.
pub open spec fn is_before_end(end: Bound<Bytes>, key: Seq<u8>) -> bool {
    match end {
        Bound::Unbounded => true,
        Bound::Included(bound) => crate::key_order::lex_le(
            key,
            crate::key_order::bytes_view(bound),
        ),
        Bound::Excluded(bound) => crate::key_order::lex_lt(
            key,
            crate::key_order::bytes_view(bound),
        ),
    }
}

/// Whether an end bound leaves no room for a start bound.
pub open spec fn ends_before(end: Bound<Bytes>, start: Bound<Bytes>) -> bool {
    match (end, start) {
        (Bound::Unbounded, _) | (_, Bound::Unbounded) => false,
        (Bound::Included(end), Bound::Included(start)) => crate::key_order::lex_lt(
            crate::key_order::bytes_view(end),
            crate::key_order::bytes_view(start),
        ),
        (Bound::Included(end), Bound::Excluded(start))
        | (Bound::Excluded(end), Bound::Included(start))
        | (Bound::Excluded(end), Bound::Excluded(start)) => crate::key_order::lex_le(
            crate::key_order::bytes_view(end),
            crate::key_order::bytes_view(start),
        ),
    }
}

/// Whether a start bound leaves no room for an end bound.
pub open spec fn starts_after(start: Bound<Bytes>, end: Bound<Bytes>) -> bool {
    match (start, end) {
        (Bound::Unbounded, _) | (_, Bound::Unbounded) => false,
        (Bound::Included(start), Bound::Included(end)) => !crate::key_order::lex_le(
            crate::key_order::bytes_view(start),
            crate::key_order::bytes_view(end),
        ),
        (Bound::Included(start), Bound::Excluded(end))
        | (Bound::Excluded(start), Bound::Included(end))
        | (Bound::Excluded(start), Bound::Excluded(end)) => !crate::key_order::lex_lt(
            crate::key_order::bytes_view(start),
            crate::key_order::bytes_view(end),
        ),
    }
}

/// The bytes of a bound.
pub open spec fn bound_key(bound: Bound<Bytes>) -> Option<Seq<u8>> {
    match bound {
        Bound::Unbounded => None,
        Bound::Included(bytes) | Bound::Excluded(bytes) => Some(
            crate::key_order::bytes_view(bytes),
        ),
    }
}

/// Whether two bounds are of the same kind and hold the same bytes.
pub open spec fn same_bound(a: Bound<Bytes>, b: Bound<Bytes>) -> bool {
    match (a, b) {
        (Bound::Unbounded, Bound::Unbounded) => true,
        (Bound::Included(x), Bound::Included(y)) => crate::key_order::bytes_view(x)
            == crate::key_order::bytes_view(y),
        (Bound::Excluded(x), Bound::Excluded(y)) => crate::key_order::bytes_view(x)
            == crate::key_order::bytes_view(y),
        _ => false,
    }
}

/// Copies a bound.
fn clone_bound(bound: &Bound<Bytes>) -> (copy: Bound<Bytes>)
    ensures
        same_bound(copy, *bound),
{
    match bound {
        Bound::Unbounded => Bound::Unbounded,
        Bound::Included(bytes) => Bound::Included(bytes.clone()),
        Bound::Excluded(bytes) => Bound::Excluded(bytes.clone()),
    }
}

impl Clone for BytesRange {
    fn clone(&self) -> (range: Self)
        ensures
            same_bound(range.start_bound, self.start_bound),
            same_bound(range.end_bound, self.end_bound),
    {
        BytesRange {
            start_bound: clone_bound(&self.start_bound),
            end_bound: clone_bound(&self.end_bound),
        }
    }
}

impl BytesRange {
    /// Whether a key lies in the range.
    pub open spec fn contains(self, key: Seq<u8>) -> bool {
        is_after_start(self.start_bound, key) && is_before_end(self.end_bound, key)
    }

    /// Whether neither range ends before the other starts.
    pub open spec fn meets(self, other: BytesRange) -> bool {
        !ends_before(self.end_bound, other.start_bound) && !ends_before(
            other.end_bound,
            self.start_bound,
        )
    }

    pub fn new(start_bound: Bound<Bytes>, end_bound: Bound<Bytes>) -> (range: Self)
        ensures
            range.start_bound == start_bound,
            range.end_bound == end_bound,
    {
        Self { start_bound, end_bound }
    }

    pub fn unbounded() -> (range: Self)
        ensures
            range.start_bound is Unbounded,
            range.end_bound is Unbounded,
    {
        Self::new(Bound::Unbounded, Bound::Unbounded)
    }

    pub fn with_end_bound(end_bound: Bound<Bytes>) -> (range: Self)
        ensures
            range.start_bound is Unbounded,
            range.end_bound == end_bound,
    {
        Self::new(Bound::Unbounded, end_bound)
    }

    pub fn with_start_bound(start_bound: Bound<Bytes>) -> (range: Self)
        ensures
            range.start_bound == start_bound,
            range.end_bound is Unbounded,
    {
        Self::new(start_bound, Bound::Unbounded)
    }

    /// Whether the end bound of this range is so low that the range has no key in common with one
    /// that starts at `start_bound`.
    pub fn has_lower_end_bound(&self, start_bound: &Bound<Bytes>) -> (lower: bool)
        ensures
            lower == ends_before(self.end_bound, *start_bound),
    {
        match start_bound {
            Bound::Unbounded => false,
            Bound::Included(start_bound) => match &self.end_bound {
                Bound::Unbounded => false,
                Bound::Included(end_bound) => bytes_lt(end_bound, start_bound),
                Bound::Excluded(end_bound) => bytes_le(end_bound, start_bound),
            },
            Bound::Excluded(start_bound) => match &self.end_bound {
                Bound::Unbounded => false,
                Bound::Included(end_bound) => bytes_le(end_bound, start_bound),
                Bound::Excluded(end_bound) => bytes_le(end_bound, start_bound),
            },
        }
    }

    /// Whether the start bound of this range is so high that the range has no key in common with
    /// one that ends at `end_bound`.
    pub fn has_higher_start_bound(&self, end_bound: &Bound<Bytes>) -> (higher: bool)
        ensures
            higher == starts_after(self.start_bound, *end_bound),
    {
        match end_bound {
            Bound::Unbounded => false,
            Bound::Included(end_bound) => match &self.start_bound {
                Bound::Unbounded => false,
                Bound::Included(start_bound) => bytes_lt(end_bound, start_bound),
                Bound::Excluded(start_bound) => bytes_le(end_bound, start_bound),
            },
            Bound::Excluded(end_bound) => match &self.start_bound {
                Bound::Unbounded => false,
                Bound::Included(start_bound) => bytes_le(end_bound, start_bound),
                Bound::Excluded(start_bound) => bytes_le(end_bound, start_bound),
            },
        }
    }

    /// Whether neither range ends before the other starts.
    pub fn has_nonempty_intersection(&self, range: &BytesRange) -> (nonempty: bool)
        ensures
            nonempty == self.meets(*range),
    {
        proof {
            law_bounds_mirror_each_other(*self, *range);
        }
        !self.has_lower_end_bound(&range.start_bound) && !self.has_higher_start_bound(
            &range.end_bound,
        )
    }
}

/// Whether one key is not behind another.
fn bytes_le(a: &Bytes, b: &Bytes) -> (le: bool)
    ensures
        le == crate::key_order::lex_le(
            crate::key_order::bytes_view(*a),
            crate::key_order::bytes_view(*b),
        ),
{
    !bytes_lt(b, a)
}

/// The bytes at which a range starts, whether or not they belong to it.
pub fn start_bound(range: &BytesRange) -> (start: Option<&[u8]>)
    ensures
        start is Some <==> !(range.start_bound is Unbounded),
        range.start_bound matches Bound::Included(bound) ==> start matches Some(bytes) && bytes@
            == crate::key_order::bytes_view(bound),
        range.start_bound matches Bound::Excluded(bound) ==> start matches Some(bytes) && bytes@
            == crate::key_order::bytes_view(bound),
        start matches Some(bytes) ==> Some(bytes@) == bound_key(range.start_bound),
{
    as_option(&range.start_bound)
}

/// The bytes of a bound.
fn as_option(bound: &Bound<Bytes>) -> (bytes: Option<&[u8]>)
    ensures
        bytes is Some <==> !(*bound is Unbounded),
        bytes matches Some(bytes) ==> Some(bytes@) == bound_key(*bound),
{
    match bound {
        Bound::Unbounded => None,
        Bound::Included(bytes) => Some(bytes_as_slice(bytes)),
        Bound::Excluded(bytes) => Some(bytes_as_slice(bytes)),
    }
}

/// What a bound says of a key: an included bound lets its own key through, an excluded one does not,
/// and no bound lets every key through.
pub proof fn law_bounds_mean_what_they_say(bound: Bytes, key: Seq<u8>)
    ensures
        is_after_start(Bound::Unbounded, key),
        is_before_end(Bound::Unbounded, key),
        is_after_start(Bound::Included(bound), key) <==> !crate::key_order::lex_lt(
            key,
            crate::key_order::bytes_view(bound),
        ),
        is_before_end(Bound::Included(bound), key) <==> !crate::key_order::lex_lt(
            crate::key_order::bytes_view(bound),
            key,
        ),
        is_after_start(Bound::Excluded(bound), key) <==> crate::key_order::lex_lt(
            crate::key_order::bytes_view(bound),
            key,
        ),
        is_before_end(Bound::Excluded(bound), key) <==> crate::key_order::lex_lt(
            key,
            crate::key_order::bytes_view(bound),
        ),
        bound_key(Bound::Included(bound)) == Some(crate::key_order::bytes_view(bound)),
        bound_key(Bound::Excluded(bound)) == Some(crate::key_order::bytes_view(bound)),
        bound_key(Bound::Unbounded) is None,
{
}

/// When two bounded ranges do not meet, one of them ends below the start of the other, or at it if
/// one of the two bounds is excluded.
pub proof fn law_ranges_part_at_their_bounds(a: BytesRange, b: BytesRange)
    ensures
        a.end_bound is Unbounded || b.start_bound is Unbounded ==> !ends_before(
            a.end_bound,
            b.start_bound,
        ),
        a.end_bound matches Bound::Included(end) ==> b.start_bound matches Bound::Included(start)
            ==> (ends_before(a.end_bound, b.start_bound) <==> crate::key_order::lex_lt(
            crate::key_order::bytes_view(end),
            crate::key_order::bytes_view(start),
        )),
        a.end_bound matches Bound::Excluded(end) ==> b.start_bound matches Bound::Included(start)
            ==> (ends_before(a.end_bound, b.start_bound) <==> !crate::key_order::lex_lt(
            crate::key_order::bytes_view(start),
            crate::key_order::bytes_view(end),
        )),
        a.end_bound matches Bound::Included(end) ==> b.start_bound matches Bound::Excluded(start)
            ==> (ends_before(a.end_bound, b.start_bound) <==> !crate::key_order::lex_lt(
            crate::key_order::bytes_view(start),
            crate::key_order::bytes_view(end),
        )),
        a.end_bound matches Bound::Excluded(end) ==> b.start_bound matches Bound::Excluded(start)
            ==> (ends_before(a.end_bound, b.start_bound) <==> !crate::key_order::lex_lt(
            crate::key_order::bytes_view(start),
            crate::key_order::bytes_view(end),
        )),
        a.meets(b) <==> !ends_before(a.end_bound, b.start_bound) && !ends_before(
            b.end_bound,
            a.start_bound,
        ),
{
}

/// A copy of a range holds the same keys.
pub proof fn law_copies_hold_the_same_keys(a: BytesRange, b: BytesRange, key: Seq<u8>)
    requires
        same_bound(a.start_bound, b.start_bound),
        same_bound(a.end_bound, b.end_bound),
    ensures
        a.contains(key) == b.contains(key),
        bound_key(a.start_bound) == bound_key(b.start_bound),
        bound_key(a.end_bound) == bound_key(b.end_bound),
{
}

/// That one range starts too high for the other is that the other ends too low for it.
pub proof fn law_bounds_mirror_each_other(a: BytesRange, b: BytesRange)
    ensures
        starts_after(a.start_bound, b.end_bound) == ends_before(b.end_bound, a.start_bound),
{
}

/// It does not matter which of two ranges is asked whether they meet.
pub proof fn law_meeting_is_symmetric(a: BytesRange, b: BytesRange)
    ensures
        a.meets(b) == b.meets(a),
{
}

/// Two ranges that do not meet have no key in common.
pub proof fn law_ranges_that_do_not_meet_share_no_key(a: BytesRange, b: BytesRange, key: Seq<u8>)
    requires
        !a.meets(b),
    ensures
        !(a.contains(key) && b.contains(key)),
{
    if ends_before(a.end_bound, b.start_bound) {
        lemma_ends_before(a.end_bound, b.start_bound, key);
    } else {
        lemma_ends_before(b.end_bound, a.start_bound, key);
    }
}

proof fn lemma_ends_before(end: Bound<Bytes>, start: Bound<Bytes>, key: Seq<u8>)
    requires
        ends_before(end, start),
    ensures
        !(is_before_end(end, key) && is_after_start(start, key)),
{
    let e = bound_key(end)->0;
    let s = bound_key(start)->0;
    crate::key_order::lemma_lex_chain(s, key, e);
    crate::key_order::lemma_lex_asymmetric(s, e);
    crate::key_order::lemma_lex_asymmetric(s, key);
    crate::key_order::lemma_lex_asymmetric(key, e);
}

/// The least key that is not before a start bound.
pub open spec fn least_key(start: Bound<Bytes>) -> Seq<u8> {
    match start {
        Bound::Unbounded => Seq::empty(),
        Bound::Included(bound) => crate::key_order::bytes_view(bound),
        Bound::Excluded(bound) => crate::key_order::bytes_view(bound).push(0),
    }
}

/// Whether no key lies between an excluded start and an excluded end although the end is the
/// greater one: the end is the very next key.
pub open spec fn is_gap(start: Bound<Bytes>, end: Bound<Bytes>) -> bool {
    match (start, end) {
        (Bound::Excluded(start), Bound::Excluded(end)) => crate::key_order::bytes_view(end)
            == crate::key_order::bytes_view(start).push(0),
        _ => false,
    }
}

proof fn lemma_least_key(start: Bound<Bytes>, key: Seq<u8>)
    ensures
        is_after_start(start, key) == crate::key_order::lex_le(least_key(start), key),
{
    match start {
        Bound::Unbounded => {},
        Bound::Included(_) => {},
        Bound::Excluded(bound) => {
            crate::key_order::lemma_lex_successor(crate::key_order::bytes_view(bound), key);
        },
    }
}

proof fn lemma_least_is_before_end(start: Bound<Bytes>, end: Bound<Bytes>)
    requires
        !ends_before(end, start),
        !is_gap(start, end),
        end is Unbounded || !(start is Unbounded),
    ensures
        is_before_end(end, least_key(start)),
{
    if !(end is Unbounded) {
        let e = bound_key(end)->0;
        let s = bound_key(start)->0;
        crate::key_order::lemma_lex_total(s.push(0), e);
        crate::key_order::lemma_lex_successor(s, e);
    }
}

/// Two ranges that meet have a key in common, if each of them holds a key at all and no excluded
/// start of one is immediately followed by an excluded end of the other.
pub proof fn law_ranges_that_meet_share_a_key(
    a: BytesRange,
    b: BytesRange,
    in_a: Seq<u8>,
    in_b: Seq<u8>,
) -> (key: Seq<u8>)
    requires
        a.meets(b),
        a.contains(in_a),
        b.contains(in_b),
        !is_gap(a.start_bound, b.end_bound),
        !is_gap(b.start_bound, a.end_bound),
    ensures
        a.contains(key),
        b.contains(key),
{
    let x = least_key(a.start_bound);
    let y = least_key(b.start_bound);
    crate::key_order::lemma_lex_asymmetric(x, y);
    if crate::key_order::lex_le(x, y) {
        lemma_shared(a, b, in_a, in_b);
        y
    } else {
        lemma_shared(b, a, in_b, in_a);
        x
    }
}

proof fn lemma_shared(a: BytesRange, b: BytesRange, in_a: Seq<u8>, in_b: Seq<u8>)
    requires
        a.meets(b),
        a.contains(in_a),
        b.contains(in_b),
        !is_gap(b.start_bound, a.end_bound),
        crate::key_order::lex_le(least_key(a.start_bound), least_key(b.start_bound)),
    ensures
        a.contains(least_key(b.start_bound)),
        b.contains(least_key(b.start_bound)),
{
    let x = least_key(a.start_bound);
    let y = least_key(b.start_bound);
    crate::key_order::lemma_lex_asymmetric(y, y);
    lemma_least_key(a.start_bound, y);
    lemma_least_key(b.start_bound, y);
    lemma_least_key(b.start_bound, in_b);
    lemma_least_key(a.start_bound, in_a);
    // The least key of `b` is before its end, because some key of it is.
    if let Some(e) = bound_key(b.end_bound) {
        crate::key_order::lemma_lex_chain(y, in_b, e);
    }
    // It is before the end of `a`, because `a` does not end before `b` starts.
    if b.start_bound is Unbounded {
        if let Some(e) = bound_key(a.end_bound) {
            crate::key_order::lemma_lex_chain(y, x, in_a);
            crate::key_order::lemma_lex_chain(y, in_a, e);
            lemma_empty_is_least(in_a);
        }
    } else {
        lemma_least_is_before_end(b.start_bound, a.end_bound);
    }
}

proof fn lemma_empty_is_least(key: Seq<u8>)
    ensures
        crate::key_order::lex_le(Seq::empty(), key),
{
    if key.len() == 0 {
        assert(key =~= Seq::empty());
    }
}

} // verus!
