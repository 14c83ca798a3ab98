//! The iterator of a range scan.
//!
//! The entries of a scan come from a merge of memtables and tables, one at a time. The iterator
//! decides what becomes of each entry: deleted keys and keys before the position that a seek has
//! moved to are passed over.
use std::ops::Bound;

use crate::error::SlateDBError;
use crate::key_order::bytes_lt;
use crate::range_util::BytesRange;
use bytes::Bytes;
use vstd::prelude::*;

verus! {

/// What an entry says about its key.
#[derive(Debug)]
pub enum ValueDeletable {
    Value(Bytes),
    /// The key was deleted.
    Tombstone,
}

/// An entry of the merged memtables and tables.
#[derive(Debug)]
pub struct KeyValueDeletable {
    pub key: Bytes,
    pub value: ValueDeletable,
}

/// A key with its value.
#[derive(Debug)]
pub struct DbRecord {
    pub key: Bytes,
    pub value: Bytes,
}

/// What has to be done next for a call of the iterator.
#[derive(Debug)]
pub enum IterStep {
    /// Get the next entry of the merged memtables and tables, then call `pulled`.
    Pull,
    /// The call is answered.
    Return(Result<Option<DbRecord>, SlateDBError>),
}

/// The iterator as a mathematical value.
#[verifier::ext_equal]
pub ghost struct DbIteratorModel {
    /// Whether an underlying error has made the iterator unusable.
    pub invalidated: bool,
    /// The last key returned or sought, or the start of the range.
    pub position: Option<Seq<u8>>,
    /// Entries before this bound are passed over.
    pub lower_bound: Bound<Bytes>,
}

impl DbIteratorModel {
    /// Whether an entry is returned rather than passed over.
    pub open spec fn shows(self, entry: KeyValueDeletable) -> bool {
        entry.value is Value && crate::range_util::is_after_start(
            self.lower_bound,
            crate::key_order::bytes_view(entry.key),
        )
    }

    /// What a seek is answered.
    pub open spec fn seek_result(self, lower_bound: Bound<&[u8]>) -> Result<(), SlateDBError> {
        if self.invalidated {
            Err(SlateDBError::InvalidatedIterator)
        } else {
            match lower_bound {
                Bound::Unbounded => Err(SlateDBError::InvalidArgument),
                Bound::Included(key) | Bound::Excluded(key) => match self.position {
                    Some(position) if crate::key_order::lex_lt(key@, position) => Err(
                        SlateDBError::InvalidArgument,
                    ),
                    _ => Ok(()),
                },
            }
        }
    }
}

/// Whether a bound over bytes is the same as a bound over a slice.
pub open spec fn is_copy_of(copy: Bound<Bytes>, bound: Bound<&[u8]>) -> bool {
    match (copy, bound) {
        (Bound::Unbounded, Bound::Unbounded) => true,
        (Bound::Included(copy), Bound::Included(key)) => crate::key_order::bytes_view(copy)
            == key@,
        (Bound::Excluded(copy), Bound::Excluded(key)) => crate::key_order::bytes_view(copy)
            == key@,
        _ => false,
    }
}

/// The iterator of a range scan.
#[derive(Debug)]
pub struct DbIterator {
    invalidated: bool,
    position: Option<Bytes>,
    lower_bound: Bound<Bytes>,
}

impl View for DbIterator {
    type V = DbIteratorModel;

    closed spec fn view(&self) -> DbIteratorModel {
        DbIteratorModel {
            invalidated: self.invalidated,
            position: match self.position {
                Some(position) => Some(crate::key_order::bytes_view(position)),
                None => None,
            },
            lower_bound: self.lower_bound,
        }
    }
}

impl DbIterator {
    /// An iterator at the start of a range.
    pub fn new(range: &BytesRange) -> (iterator: Self)
        ensures
            iterator@ == (DbIteratorModel {
                invalidated: false,
                position: crate::range_util::bound_key(range.start_bound),
                lower_bound: Bound::Unbounded,
            }),
            iterator@.position is None <==> range.start_bound is Unbounded,
            range.start_bound matches Bound::Included(start) ==> iterator@.position == Some(
                crate::key_order::bytes_view(start),
            ),
            range.start_bound matches Bound::Excluded(start) ==> iterator@.position == Some(
                crate::key_order::bytes_view(start),
            ),
    {
        let position = match &range.start_bound {
            Bound::Unbounded => None,
            Bound::Included(bytes) => Some(bytes.clone()),
            Bound::Excluded(bytes) => Some(bytes.clone()),
        };
        DbIterator { invalidated: false, position, lower_bound: Bound::Unbounded }
    }

    /// Get the next record in the scan.
    ///
    /// An iterator that an underlying error has made unusable answers `InvalidatedIterator`.
    pub fn next(&mut self) -> (step: IterStep)
        ensures
            final(self)@ == old(self)@,
            step == (if old(self)@.invalidated {
                IterStep::Return(Err(SlateDBError::InvalidatedIterator))
            } else {
                IterStep::Pull
            }),
    {
        if self.invalidated {
            IterStep::Return(Err(SlateDBError::InvalidatedIterator))
        } else {
            IterStep::Pull
        }
    }

    /// The next entry has come, or there is none, or an underlying error has come up, which makes
    /// the iterator unusable.
    pub fn pulled(&mut self, entry: Result<Option<KeyValueDeletable>, SlateDBError>) -> (step:
        IterStep)
        requires
            !old(self)@.invalidated,
        ensures
            match entry {
                Err(error) => {
                    &&& final(self)@ == (DbIteratorModel { invalidated: true, ..old(self)@ })
                    &&& step == IterStep::Return(Err(error))
                },
                Ok(None) => {
                    &&& final(self)@ == old(self)@
                    &&& step == IterStep::Return(Ok(None))
                },
                Ok(Some(entry)) => if old(self)@.shows(entry) {
                    &&& final(self)@ == (DbIteratorModel {
                        position: Some(crate::key_order::bytes_view(entry.key)),
                        ..old(self)@
                    })
                    &&& step matches IterStep::Return(Ok(Some(record))) && record.key == entry.key
                        && record.value == entry.value->Value_0
                } else {
                    &&& final(self)@ == old(self)@
                    &&& step == IterStep::Pull
                },
            },
            entry matches Ok(Some(entry)) ==> (step is Return <==> entry.value is Value && (
            match old(self)@.lower_bound {
                Bound::Unbounded => true,
                Bound::Included(bound) => crate::key_order::lex_le(
                    crate::key_order::bytes_view(bound),
                    crate::key_order::bytes_view(entry.key),
                ),
                Bound::Excluded(bound) => crate::key_order::lex_lt(
                    crate::key_order::bytes_view(bound),
                    crate::key_order::bytes_view(entry.key),
                ),
            })),
    {
        match entry {
            Err(error) => {
                self.invalidated = true;
                IterStep::Return(Err(error))
            },
            Ok(None) => IterStep::Return(Ok(None)),
            Ok(Some(entry)) => {
                let before: bool = match &self.lower_bound {
                    Bound::Unbounded => false,
                    Bound::Included(bound) => bytes_lt(&entry.key, bound),
                    Bound::Excluded(bound) => !bytes_lt(bound, &entry.key),
                };
                if before {
                    return IterStep::Pull;
                }
                match entry.value {
                    ValueDeletable::Value(value) => {
                        self.position = Some(entry.key.clone());
                        IterStep::Return(Ok(Some(DbRecord { key: entry.key, value })))
                    },
                    ValueDeletable::Tombstone => IterStep::Pull,
                }
            },
        }
    }

    /// Seek to a key ahead of the last key returned from the iterator or the lower range bound if
    /// no records have yet been returned.
    ///
    /// An unbounded position, and a key before the current position, are refused with
    /// `InvalidArgument`. An iterator that an underlying error has made unusable answers
    /// `InvalidatedIterator`.
    pub fn seek(&mut self, lower_bound: Bound<&[u8]>) -> (result: Result<(), SlateDBError>)
        ensures
            result == old(self)@.seek_result(lower_bound),
            result is Err ==> final(self)@ == old(self)@,
            result is Ok ==> {
                &&& is_copy_of(final(self)@.lower_bound, lower_bound)
                &&& final(self)@ == (DbIteratorModel {
                    position: crate::range_util::bound_key(final(self)@.lower_bound),
                    lower_bound: final(self)@.lower_bound,
                    ..old(self)@
                })
            },
    {
        if self.invalidated {
            return Err(SlateDBError::InvalidatedIterator);
        }
        let (key, included) = match lower_bound {
            Bound::Unbounded => {
                return Err(SlateDBError::InvalidArgument);
            },
            Bound::Included(key) => (Bytes::copy_from_slice(key), true),
            Bound::Excluded(key) => (Bytes::copy_from_slice(key), false),
        };
        if let Some(position) = &self.position {
            if bytes_lt(&key, position) {
                return Err(SlateDBError::InvalidArgument);
            }
        }
        self.position = Some(key.clone());
        self.lower_bound = if included {
            Bound::Included(key)
        } else {
            Bound::Excluded(key)
        };
        Ok(())
    }
}

/// A seek never moves back: after a seek that succeeds, the position is not before the one that the
/// iterator had.
pub proof fn law_seek_moves_forward(
    before: DbIteratorModel,
    lower_bound: Bound<&[u8]>,
    after: DbIteratorModel,
)
    requires
        before.seek_result(lower_bound) is Ok,
        is_copy_of(after.lower_bound, lower_bound),
        after.position == crate::range_util::bound_key(after.lower_bound),
    ensures
        after.position is Some,
        before.position matches Some(position) ==> crate::key_order::lex_le(
            position,
            after.position->0,
        ),
{
}

/// A record that is returned after a seek is not before the position that was sought.
pub proof fn law_records_follow_the_seek(model: DbIteratorModel, entry: KeyValueDeletable)
    requires
        model.shows(entry),
    ensures
        crate::range_util::bound_key(model.lower_bound) matches Some(bound)
            ==> crate::key_order::lex_le(bound, crate::key_order::bytes_view(entry.key)),
        entry.value is Value,
{
    if let Some(bound) = crate::range_util::bound_key(model.lower_bound) {
        crate::key_order::lemma_lex_asymmetric(bound, crate::key_order::bytes_view(entry.key));
    }
}

/// No live entry is lost: an entry that holds a value is returned by an iterator that was never
/// sought, whatever its position, and by one that was sought if its key is not before the bound
/// that was sought. A deleted key is never returned.
pub proof fn law_no_live_entry_is_lost(model: DbIteratorModel, entry: KeyValueDeletable)
    ensures
        entry.value is Tombstone ==> !model.shows(entry),
        entry.value is Value && model.lower_bound is Unbounded ==> model.shows(entry),
        entry.value is Value ==> (model.lower_bound matches Bound::Included(bound) ==> (model.shows(
            entry,
        ) <==> !crate::key_order::lex_lt(
            crate::key_order::bytes_view(entry.key),
            crate::key_order::bytes_view(bound),
        ))),
        entry.value is Value ==> (model.lower_bound matches Bound::Excluded(bound) ==> (model.shows(
            entry,
        ) <==> crate::key_order::lex_lt(
            crate::key_order::bytes_view(bound),
            crate::key_order::bytes_view(entry.key),
        ))),
{
}

/// What is shown depends on nothing but the bound that was sought: moving the position by returning
/// records neither hides nor shows an entry.
pub proof fn law_position_hides_nothing(
    model: DbIteratorModel,
    position: Option<Seq<u8>>,
    entry: KeyValueDeletable,
)
    ensures
        (DbIteratorModel { position, ..model }).shows(entry) == model.shows(entry),
{
}

/// A seek is refused exactly in these cases: the iterator is unusable, no key is given, or the key
/// comes before the position. A seek to the position itself is not refused.
pub proof fn law_seek_is_refused_only_backwards(
    model: DbIteratorModel,
    lower_bound: Bound<&[u8]>,
)
    ensures
        model.invalidated ==> model.seek_result(lower_bound) == Err::<(), SlateDBError>(
            SlateDBError::InvalidatedIterator,
        ),
        !model.invalidated && lower_bound is Unbounded ==> model.seek_result(lower_bound) == Err::<
            (),
            SlateDBError,
        >(SlateDBError::InvalidArgument),
        !model.invalidated ==> (lower_bound matches Bound::Included(key) ==> (model.seek_result(
            lower_bound,
        ) is Ok <==> (model.position matches Some(position) ==> crate::key_order::lex_le(
            position,
            key@,
        )))),
        !model.invalidated ==> (lower_bound matches Bound::Excluded(key) ==> (model.seek_result(
            lower_bound,
        ) is Ok <==> (model.position matches Some(position) ==> crate::key_order::lex_le(
            position,
            key@,
        )))),
        !model.invalidated && model.seek_result(lower_bound) is Err ==> model.seek_result(
            lower_bound,
        ) == Err::<(), SlateDBError>(SlateDBError::InvalidArgument),
{
}

/// The bound that is kept after a seek lets the same keys through as the bound that was asked for.
pub proof fn law_sought_bound_is_kept(copy: Bound<Bytes>, bound: Bound<&[u8]>, key: Seq<u8>)
    requires
        is_copy_of(copy, bound),
    ensures
        bound matches Bound::Included(start) ==> copy matches Bound::Included(kept)
            && crate::key_order::bytes_view(kept) == start@,
        bound matches Bound::Excluded(start) ==> copy matches Bound::Excluded(kept)
            && crate::key_order::bytes_view(kept) == start@,
        bound is Unbounded ==> copy is Unbounded,
        crate::range_util::is_after_start(copy, key) == (match bound {
            Bound::Unbounded => true,
            Bound::Included(start) => crate::key_order::lex_le(start@, key),
            Bound::Excluded(start) => crate::key_order::lex_lt(start@, key),
        }),
{
}

} // verus!
