use bytes::Bytes;
use slatedb::db_iter::{DbIterator, IterStep, KeyValueDeletable, ValueDeletable};
use slatedb::error::SlateDBError;
use slatedb::range_util::BytesRange;
use std::ops::Bound::{Excluded, Included, Unbounded};

fn key(text: &str) -> Bytes {
    Bytes::copy_from_slice(text.as_bytes())
}

fn value(k: &str, v: &str) -> KeyValueDeletable {
    KeyValueDeletable {
        key: key(k),
        value: ValueDeletable::Value(key(v)),
    }
}

fn tombstone(k: &str) -> KeyValueDeletable {
    KeyValueDeletable {
        key: key(k),
        value: ValueDeletable::Tombstone,
    }
}

/// Runs one call of `next` against the entries that are left.
fn next(
    iterator: &mut DbIterator,
    entries: &mut Vec<KeyValueDeletable>,
) -> Result<Option<(Bytes, Bytes)>, SlateDBError> {
    let mut step = iterator.next();
    loop {
        match step {
            IterStep::Return(result) => {
                return result.map(|record| record.map(|r| (r.key, r.value)));
            }
            IterStep::Pull => {
                let entry = if entries.is_empty() {
                    None
                } else {
                    Some(entries.remove(0))
                };
                step = iterator.pulled(Ok(entry));
            }
        }
    }
}

#[test]
fn deleted_keys_are_passed_over() {
    let mut iterator = DbIterator::new(&BytesRange::unbounded());
    let mut entries = vec![
        value("a", "1"),
        tombstone("b"),
        tombstone("c"),
        value("d", "4"),
    ];
    assert_eq!(next(&mut iterator, &mut entries), Ok(Some((key("a"), key("1")))));
    assert_eq!(next(&mut iterator, &mut entries), Ok(Some((key("d"), key("4")))));
    assert_eq!(next(&mut iterator, &mut entries), Ok(None));
    assert_eq!(next(&mut iterator, &mut entries), Ok(None));
}

#[test]
fn underlying_error_invalidates_the_iterator() {
    let mut iterator = DbIterator::new(&BytesRange::unbounded());
    assert!(matches!(iterator.next(), IterStep::Pull));
    let step = iterator.pulled(Err(SlateDBError::Storage(3)));
    assert!(matches!(step, IterStep::Return(Err(SlateDBError::Storage(3)))));
    assert!(matches!(
        iterator.next(),
        IterStep::Return(Err(SlateDBError::InvalidatedIterator))
    ));
    assert_eq!(
        iterator.seek(Included("z".as_bytes())),
        Err(SlateDBError::InvalidatedIterator)
    );
}

#[test]
fn seek_passes_over_earlier_keys() {
    let mut iterator = DbIterator::new(&BytesRange::unbounded());
    let mut entries = vec![value("a", "1"), value("b", "2"), value("c", "3"), value("d", "4")];
    assert_eq!(next(&mut iterator, &mut entries), Ok(Some((key("a"), key("1")))));
    assert_eq!(iterator.seek(Included("c".as_bytes())), Ok(()));
    assert_eq!(next(&mut iterator, &mut entries), Ok(Some((key("c"), key("3")))));
    assert_eq!(iterator.seek(Excluded("d".as_bytes())), Ok(()));
    assert_eq!(next(&mut iterator, &mut entries), Ok(None));
}

#[test]
fn seek_refuses_an_unbounded_position() {
    let mut iterator = DbIterator::new(&BytesRange::unbounded());
    assert_eq!(iterator.seek(Unbounded), Err(SlateDBError::InvalidArgument));
}

#[test]
fn seek_refuses_to_move_back() {
    let range = BytesRange::with_start_bound(Included(key("f")));
    let mut iterator = DbIterator::new(&range);
    assert_eq!(
        iterator.seek(Included("e".as_bytes())),
        Err(SlateDBError::InvalidArgument)
    );
    assert_eq!(iterator.seek(Included("f".as_bytes())), Ok(()));
    let mut entries = vec![value("g", "7"), value("h", "8")];
    assert_eq!(next(&mut iterator, &mut entries), Ok(Some((key("g"), key("7")))));
    assert_eq!(
        iterator.seek(Excluded("fz".as_bytes())),
        Err(SlateDBError::InvalidArgument)
    );
    assert_eq!(iterator.seek(Included("g".as_bytes())), Ok(()));
    assert_eq!(iterator.seek(Included("k".as_bytes())), Ok(()));
    assert_eq!(
        iterator.seek(Included("h".as_bytes())),
        Err(SlateDBError::InvalidArgument)
    );
    assert_eq!(next(&mut iterator, &mut entries), Ok(None));
}
