use bytes::Bytes;
use slatedb::range_util::{start_bound, BytesRange};
use std::ops::Bound;
use std::ops::Bound::{Excluded, Included, Unbounded};

fn key(text: &str) -> Bytes {
    Bytes::copy_from_slice(text.as_bytes())
}

#[test]
fn test_basic_range_ops() {
    let unbounded_range = BytesRange::unbounded();
    assert_eq!(Bound::Unbounded, unbounded_range.start_bound);
    assert_eq!(Bound::Unbounded, unbounded_range.end_bound);

    let bound_key = Bytes::copy_from_slice("foo".as_bytes());
    let inclusive_bound_key = Bound::Included(bound_key.clone());
    let exclusive_bound_key = Bound::Excluded(bound_key.clone());

    let upper_bounded_inclusive_range = BytesRange::with_end_bound(inclusive_bound_key.clone());
    assert_eq!(Bound::Unbounded, upper_bounded_inclusive_range.start_bound);
    assert_eq!(inclusive_bound_key.clone(), upper_bounded_inclusive_range.end_bound);

    let upper_bounded_exclusive_range = BytesRange::with_end_bound(exclusive_bound_key.clone());
    assert_eq!(Bound::Unbounded, upper_bounded_exclusive_range.start_bound);
    assert_eq!(exclusive_bound_key.clone(), upper_bounded_exclusive_range.end_bound);

    let lower_bounded_inclusive_range = BytesRange::with_start_bound(inclusive_bound_key.clone());
    assert_eq!(inclusive_bound_key.clone(), lower_bounded_inclusive_range.start_bound);
    assert_eq!(Bound::Unbounded, lower_bounded_inclusive_range.end_bound);

    let lower_bounded_exclusive_range = BytesRange::with_start_bound(exclusive_bound_key.clone());
    assert_eq!(exclusive_bound_key.clone(), lower_bounded_exclusive_range.start_bound);
    assert_eq!(Bound::Unbounded, lower_bounded_exclusive_range.end_bound);
}

#[test]
fn test_may_overlap_with_unbounded_range() {
    let unbounded_range = BytesRange::unbounded();
    let bound_key = Bytes::copy_from_slice("abc".as_bytes());

    let lower_bounded_inclusive_range = BytesRange::with_start_bound(Included(bound_key.clone()));
    assert_eq!(true, unbounded_range.has_nonempty_intersection(&lower_bounded_inclusive_range));
    assert_eq!(true, lower_bounded_inclusive_range.has_nonempty_intersection(&unbounded_range));

    let lower_bounded_exclusive_range = BytesRange::with_start_bound(Excluded(bound_key.clone()));
    assert_eq!(true, unbounded_range.has_nonempty_intersection(&lower_bounded_exclusive_range));
    assert_eq!(true, lower_bounded_exclusive_range.has_nonempty_intersection(&unbounded_range));

    let upper_bounded_inclusive_range = BytesRange::with_end_bound(Included(bound_key.clone()));
    assert_eq!(true, unbounded_range.has_nonempty_intersection(&upper_bounded_inclusive_range));
    assert_eq!(true, upper_bounded_inclusive_range.has_nonempty_intersection(&unbounded_range));

    let upper_bounded_exclusive_range = BytesRange::with_end_bound(Excluded(bound_key.clone()));
    assert_eq!(true, unbounded_range.has_nonempty_intersection(&upper_bounded_exclusive_range));
    assert_eq!(true, upper_bounded_exclusive_range.has_nonempty_intersection(&unbounded_range));
}

#[test]
fn touching_ranges_meet_only_at_an_included_key() {
    let ends = [Included(key("m")), Excluded(key("m"))];
    let starts = [Included(key("m")), Excluded(key("m"))];
    for (e, end) in ends.iter().enumerate() {
        for (s, start) in starts.iter().enumerate() {
            let low = BytesRange::with_end_bound(end.clone());
            let high = BytesRange::with_start_bound(start.clone());
            let meet = e == 0 && s == 0;
            assert_eq!(low.has_nonempty_intersection(&high), meet);
            assert_eq!(high.has_nonempty_intersection(&low), meet);
        }
    }
}

#[test]
fn ranges_apart_do_not_meet() {
    let low = BytesRange::new(Included(key("a")), Included(key("b")));
    let high = BytesRange::new(Excluded(key("c")), Unbounded);
    assert!(!low.has_nonempty_intersection(&high));
    assert!(!high.has_nonempty_intersection(&low));
    let middle = BytesRange::new(Excluded(key("a")), Excluded(key("d")));
    assert!(middle.has_nonempty_intersection(&low));
    assert!(middle.has_nonempty_intersection(&high));
}

#[test]
fn prefix_is_before_its_extension() {
    let short = BytesRange::with_end_bound(Included(key("ab")));
    let long = BytesRange::with_start_bound(Included(key("abc")));
    assert!(!short.has_nonempty_intersection(&long));
    let longer = BytesRange::with_end_bound(Included(key("abc")));
    let from_short = BytesRange::with_start_bound(Included(key("ab")));
    assert!(longer.has_nonempty_intersection(&from_short));
}

#[test]
fn start_bound_gives_the_bytes() {
    assert_eq!(start_bound(&BytesRange::unbounded()), None);
    let included = BytesRange::with_start_bound(Included(key("abc")));
    assert_eq!(start_bound(&included), Some("abc".as_bytes()));
    let excluded = BytesRange::with_start_bound(Excluded(key("xyz")));
    assert_eq!(start_bound(&excluded), Some("xyz".as_bytes()));
    let end_only = BytesRange::with_end_bound(Included(key("abc")));
    assert_eq!(start_bound(&end_only), None);
}

#[test]
fn clone_keeps_both_bounds() {
    let range = BytesRange::new(Included(key("a")), Excluded(key("b")));
    let copy = range.clone();
    assert_eq!(copy.start_bound, range.start_bound);
    assert_eq!(copy.end_bound, range.end_bound);
}

#[test]
fn bounds_mirror_each_other() {
    let bounds = [
        Unbounded,
        Included(key("a")),
        Excluded(key("a")),
        Included(key("b")),
        Excluded(key("b")),
    ];
    for start in &bounds {
        for end in &bounds {
            let a = BytesRange::with_start_bound(start.clone());
            let b = BytesRange::with_end_bound(end.clone());
            assert_eq!(
                a.has_higher_start_bound(&b.end_bound),
                b.has_lower_end_bound(&a.start_bound)
            );
        }
    }
    let from_b = BytesRange::with_start_bound(Included(key("b")));
    assert!(from_b.has_higher_start_bound(&Included(key("a"))));
    assert!(from_b.has_higher_start_bound(&Excluded(key("b"))));
    assert!(!from_b.has_higher_start_bound(&Included(key("b"))));
}
