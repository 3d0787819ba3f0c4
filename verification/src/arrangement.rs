//! Typed handles on the arrangements of a store.
//!
//! A handle names one arrangement and fixes the types of its keys and
//! values. It holds no state of its own: every operation is handed the store
//! that it works on. Keys and values are stored as their encodings, and
//! reads come back in the order of those encodings.

use std::marker::PhantomData;
use vstd::prelude::*;
use crate::codec::{encode_to_vec, Codec};
use crate::consolidation::{weight, Update};
use crate::error::{StashError, StashErrorKind};
use crate::store::{lemma_selected_all, narrow, rows_view, write_overflows, ArrangementView, Row, Stash};

verus! {

/// A handle on one arrangement of a store, with keys of type `K` and values
/// of type `V`.
///
/// An arrangement stores `(key, value, time, diff)` entries. It keeps a since
/// frontier and an upper frontier: `compact` advances the first, `seal` the
/// second, and `consolidate` folds the rows below the since frontier.
pub struct StashArrangement<K, V> {
    arrangement_id: i64,
    _kv: PhantomData<(K, V)>,
}

impl Stash {
    /// Loads or creates the named arrangement.
    ///
    /// An arrangement that does not exist yet is created with no entries and
    /// both frontiers at zero. Any number of handles may name one
    /// arrangement.
    pub fn arrangement<K: Codec, V: Codec>(&mut self, name: &str) -> (r: Result<
        StashArrangement<K, V>,
        StashError,
    >)
        requires
            old(self).wf(),
        ensures
            final(self).wf(),
            match r {
                Ok(handle) => final(self).has(handle.id()) && final(self).of(handle.id()).name == name@
                    && if old(self).registered(name@) {
                    final(self)@ == old(self)@
                } else {
                    final(self)@ == old(self)@.push(ArrangementView::empty(name@)) && handle.id() == old(self)@.len() + 1
                },
                Err(e) => final(self)@ == old(self)@ && !old(self).registered(name@) && old(self)@.len()
                    == i64::MAX && e.kind() == StashErrorKind::Overflow,
            },
    {
        match self.register(name) {
            Ok(id) => Ok(StashArrangement { arrangement_id: id, _kv: PhantomData }),
            Err(e) => Err(e),
        }
    }
}

impl<K: Codec, V: Codec> StashArrangement<K, V> {
    /// The id of the arrangement that the handle names.
    pub closed spec fn id(&self) -> int {
        self.arrangement_id as int
    }

    /// The update that an entry is stored as.
    pub open spec fn encoded(entry: ((K, V), i64, i64)) -> Update {
        Update {
            key: K::encoding(entry.0.0@),
            value: V::encoding(entry.0.1@),
            time: entry.1 as int,
            diff: entry.2 as int,
        }
    }

    /// The updates that a batch of entries is stored as.
    pub open spec fn encoded_all(entries: Seq<((K, V), i64, i64)>) -> Seq<Update> {
        entries.map_values(|entry: ((K, V), i64, i64)| Self::encoded(entry))
    }

    /// Whether the key and the value of an update decode.
    pub open spec fn decodable(update: Update) -> bool {
        K::decoding(update.key) is Some && V::decoding(update.value) is Some
    }

    /// Whether every update decodes.
    pub open spec fn all_decodable(updates: Seq<Update>) -> bool {
        forall|i: int| 0 <= i < updates.len() ==> Self::decodable(#[trigger] updates[i])
    }

    /// Whether the value of every update decodes.
    pub open spec fn all_values_decodable(updates: Seq<Update>) -> bool {
        forall|i: int| 0 <= i < updates.len() ==> V::decoding((#[trigger] updates[i]).value) is Some
    }

    /// Whether `entry` is what the stored update decodes to.
    pub open spec fn decoded(update: Update, entry: ((K, V), i64, i64)) -> bool {
        &&& K::decoding(update.key) == Some(entry.0.0@)
        &&& V::decoding(update.value) == Some(entry.0.1@)
        &&& entry.1 == update.time
        &&& entry.2 == update.diff
    }

    /// Whether `entry` is what the stored update decodes to, its key left
    /// out.
    pub open spec fn decoded_value(update: Update, entry: (V, i64, i64)) -> bool {
        &&& V::decoding(update.value) == Some(entry.0@)
        &&& entry.1 == update.time
        &&& entry.2 == update.diff
    }

    /// The id of the arrangement that the handle names.
    pub fn arrangement_id(&self) -> (id: i64)
        ensures
            id == self.id(),
    {
        self.arrangement_id
    }

    /// All entries of the arrangement, consolidated, in the order of their
    /// encoded `(key, value)` and then of their time.
    ///
    /// Each entry's time is at or after the since frontier: an entry that
    /// was written below it is reported at the since frontier. No entry has
    /// diff zero.
    ///
    /// Fails when the handle names no arrangement of `stash`, when a
    /// consolidated diff is no 64-bit number, or when a stored key or value
    /// does not decode.
    #[verifier::loop_isolation(false)]
    pub fn iter(&self, stash: &Stash) -> (r: Result<Vec<((K, V), i64, i64)>, StashError>)
        ensures
            match r {
                Ok(entries) => {
                    &&& stash.has(self.id())
                    &&& entries.len() == stash.of(self.id()).contents().len()
                    &&& forall|i: int|
                        0 <= i < entries.len() ==> Self::decoded(
                            #[trigger] stash.of(self.id()).contents()[i],
                            entries[i],
                        )
                },
                Err(e) => if !stash.has(self.id()) {
                    e.kind() == StashErrorKind::UnknownArrangement
                } else if !narrow(stash.of(self.id()).contents()) {
                    e.kind() == StashErrorKind::Overflow
                } else {
                    e.kind() == StashErrorKind::Codec && !Self::all_decodable(
                        stash.of(self.id()).contents(),
                    )
                },
            },
    {
        proof {
            if stash.has(self.id()) {
                lemma_selected_all(stash.of(self.id()).rows);
            }
        }
        let rows = match stash.read(self.arrangement_id, None) {
            Ok(rows) => rows,
            Err(e) => {
                return Err(e);
            },
        };
        let ghost stored = rows_view(rows@);
        assert(narrow(stored)) by {
            assert forall|j: int| 0 <= j < stored.len() implies i64::MIN <= (#[trigger] stored[j]).diff
                <= i64::MAX by {
                assert(stored[j] == rows[j]@);
            }
        }
        let mut entries: Vec<((K, V), i64, i64)> = Vec::new();
        let mut i: usize = 0;
        while i < rows.len()
            invariant
                i <= rows.len(),
                stored == rows_view(rows@),
                entries.len() == i,
                forall|j: int| 0 <= j < i ==> Self::decoded(#[trigger] stored[j], entries[j]),
            decreases rows.len() - i,
        {
            let row = &rows[i];
            let key = match K::decode(row.key.as_slice()) {
                Ok(key) => key,
                Err(message) => {
                    assert(!Self::decodable(stored[i as int]));
                    return Err(StashError::new(StashErrorKind::Codec, message.as_str()));
                },
            };
            let value = match V::decode(row.value.as_slice()) {
                Ok(value) => value,
                Err(message) => {
                    assert(!Self::decodable(stored[i as int]));
                    return Err(StashError::new(StashErrorKind::Codec, message.as_str()));
                },
            };
            entries.push(((key, value), row.time, row.diff));
            i += 1;
        }
        Ok(entries)
    }

    /// The entries of one key, consolidated, in the order of their encoded
    /// value and then of their time.
    ///
    /// Each entry's time is at or after the since frontier, and no entry has
    /// diff zero.
    ///
    /// Fails when the handle names no arrangement of `stash`, when a
    /// consolidated diff is no 64-bit number, or when a stored value does
    /// not decode.
    #[verifier::loop_isolation(false)]
    pub fn iter_key(&self, stash: &Stash, key: K) -> (r: Result<Vec<(V, i64, i64)>, StashError>)
        ensures
            match r {
                Ok(entries) => {
                    &&& stash.has(self.id())
                    &&& entries.len() == stash.of(self.id()).contents_of(
                        Some(K::encoding(key@)),
                    ).len()
                    &&& forall|i: int|
                        0 <= i < entries.len() ==> Self::decoded_value(
                            #[trigger] stash.of(self.id()).contents_of(Some(K::encoding(key@)))[i],
                            entries[i],
                        )
                },
                Err(e) => if !stash.has(self.id()) {
                    e.kind() == StashErrorKind::UnknownArrangement
                } else if !narrow(stash.of(self.id()).contents_of(Some(K::encoding(key@)))) {
                    e.kind() == StashErrorKind::Overflow
                } else {
                    e.kind() == StashErrorKind::Codec && !Self::all_values_decodable(
                        stash.of(self.id()).contents_of(Some(K::encoding(key@))),
                    )
                },
            },
    {
        let key_buf = encode_to_vec(&key);
        let rows = match stash.read(self.arrangement_id, Some(key_buf.as_slice())) {
            Ok(rows) => rows,
            Err(e) => {
                return Err(e);
            },
        };
        let ghost stored = rows_view(rows@);
        assert(narrow(stored)) by {
            assert forall|j: int| 0 <= j < stored.len() implies i64::MIN <= (#[trigger] stored[j]).diff
                <= i64::MAX by {
                assert(stored[j] == rows[j]@);
            }
        }
        let mut entries: Vec<(V, i64, i64)> = Vec::new();
        let mut i: usize = 0;
        while i < rows.len()
            invariant
                i <= rows.len(),
                stored == rows_view(rows@),
                entries.len() == i,
                forall|j: int| 0 <= j < i ==> Self::decoded_value(#[trigger] stored[j], entries[j]),
            decreases rows.len() - i,
        {
            let row = &rows[i];
            let value = match V::decode(row.value.as_slice()) {
                Ok(value) => value,
                Err(message) => {
                    assert(V::decoding(stored[i as int].value) is None);
                    return Err(StashError::new(StashErrorKind::Codec, message.as_str()));
                },
            };
            entries.push((value, row.time, row.diff));
            i += 1;
        }
        Ok(entries)
    }

    /// Adds a single entry to the arrangement.
    ///
    /// The entry's time must be at or after the upper frontier.
    pub fn update(&mut self, stash: &mut Stash, data: (K, V), time: i64, diff: i64) -> (r: Result<
        (),
        StashError,
    >)
        requires
            old(stash).wf(),
        ensures
            final(self).id() == old(self).id(),
            final(stash).wf(),
            final(stash).same_but(old(stash), old(self).id()),
            match r {
                Ok(_) => {
                    &&& old(stash).has(old(self).id())
                    &&& old(stash).of(old(self).id()).frontiers.upper <= time
                    &&& !write_overflows(
                        old(stash).of(old(self).id()).rows,
                        seq![Self::encoded((data, time, diff))],
                    )
                    &&& final(stash).of(old(self).id()).name == old(stash).of(old(self).id()).name
                    &&& final(stash).of(old(self).id()).frontiers == old(stash).of(
                        old(self).id(),
                    ).frontiers
                    &&& forall|key: Seq<u8>, value: Seq<u8>, at: int| #[trigger]
                        weight(final(stash).of(old(self).id()).rows, key, value, at) == weight(
                            old(stash).of(old(self).id()).rows,
                            key,
                            value,
                            at,
                        ) + weight(seq![Self::encoded((data, time, diff))], key, value, at)
                },
                Err(e) => {
                    &&& final(stash)@ == old(stash)@
                    &&& if !old(stash).has(old(self).id()) {
                        e.kind() == StashErrorKind::UnknownArrangement
                    } else if time < old(stash).of(old(self).id()).frontiers.upper {
                        e.kind() == StashErrorKind::CausalityViolation
                    } else {
                        e.kind() == StashErrorKind::Overflow && write_overflows(
                            old(stash).of(old(self).id()).rows,
                            seq![Self::encoded((data, time, diff))],
                        )
                    }
                },
            },
    {
        let mut entries: Vec<((K, V), i64, i64)> = Vec::new();
        entries.push((data, time, diff));
        proof {
            assert(Self::encoded_all(entries@) =~= seq![Self::encoded((data, time, diff))]);
            assert(entries@[0].1 == time);
        }
        self.update_many(stash, entries)
    }

    /// Adds multiple entries to the arrangement, all of them or none.
    ///
    /// Each entry's time must be at or after the upper frontier. The diff of
    /// each entry is added to what the arrangement records for its
    /// `(key, value, time)`.
    ///
    /// Fails, and changes nothing, when the handle names no arrangement of
    /// `stash`, when an entry lies below the upper frontier, or when a diff
    /// leaves the 64-bit range on the way.
    pub fn update_many(&mut self, stash: &mut Stash, entries: Vec<((K, V), i64, i64)>) -> (r: Result<
        (),
        StashError,
    >)
        requires
            old(stash).wf(),
        ensures
            final(self).id() == old(self).id(),
            final(stash).wf(),
            final(stash).same_but(old(stash), old(self).id()),
            match r {
                Ok(_) => {
                    &&& old(stash).has(old(self).id())
                    &&& forall|i: int|
                        0 <= i < entries.len() ==> old(stash).of(old(self).id()).frontiers.upper <= (
                        #[trigger] entries[i]).1
                    &&& !write_overflows(
                        old(stash).of(old(self).id()).rows,
                        Self::encoded_all(entries@),
                    )
                    &&& final(stash).of(old(self).id()).name == old(stash).of(old(self).id()).name
                    &&& final(stash).of(old(self).id()).frontiers == old(stash).of(
                        old(self).id(),
                    ).frontiers
                    &&& forall|key: Seq<u8>, value: Seq<u8>, time: int| #[trigger]
                        weight(final(stash).of(old(self).id()).rows, key, value, time) == weight(
                            old(stash).of(old(self).id()).rows,
                            key,
                            value,
                            time,
                        ) + weight(Self::encoded_all(entries@), key, value, time)
                },
                Err(e) => {
                    &&& final(stash)@ == old(stash)@
                    &&& if !old(stash).has(old(self).id()) {
                        e.kind() == StashErrorKind::UnknownArrangement
                    } else if exists|i: int|
                        0 <= i < entries.len() && (#[trigger] entries[i]).1 < old(stash).of(
                            old(self).id(),
                        ).frontiers.upper {
                        e.kind() == StashErrorKind::CausalityViolation
                    } else {
                        e.kind() == StashErrorKind::Overflow && write_overflows(
                            old(stash).of(old(self).id()).rows,
                            Self::encoded_all(entries@),
                        )
                    }
                },
            },
    {
        let mut rows: Vec<Row> = Vec::new();
        let mut i: usize = 0;
        assert(rows_view(rows@) =~= Self::encoded_all(entries@).take(0));
        while i < entries.len()
            invariant
                i <= entries.len(),
                rows_view(rows@) == Self::encoded_all(entries@).take(i as int),
            decreases entries.len() - i,
        {
            let entry = &entries[i];
            let ghost before = rows@;
            rows.push(
                Row {
                    key: encode_to_vec(&entry.0.0),
                    value: encode_to_vec(&entry.0.1),
                    time: entry.1,
                    diff: entry.2,
                },
            );
            proof {
                assert(rows_view(rows@) =~= rows_view(before).push(rows@.last()@));
                assert(Self::encoded_all(entries@).take(i + 1) =~= Self::encoded_all(entries@).take(
                    i as int,
                ).push(Self::encoded(entries@[i as int])));
            }
            i += 1;
        }
        proof {
            assert(Self::encoded_all(entries@).take(entries.len() as int) =~= Self::encoded_all(entries@));
            assert forall|j: int| 0 <= j < entries.len() implies (#[trigger] rows[j]).time
                == entries[j].1 by {
                assert(rows_view(rows@)[j] == Self::encoded(entries@[j]));
            }
        }
        let r = stash.write(self.arrangement_id, &rows);
        proof {
            if r is Err && old(stash).has(old(self).id()) {
                let upper = old(stash).of(old(self).id()).frontiers.upper;
                if exists|i: int| 0 <= i < entries.len() && (#[trigger] entries[i]).1 < upper {
                    let w = choose|i: int| 0 <= i < entries.len() && (#[trigger] entries[i]).1 < upper;
                    assert(rows[w].time < upper);
                }
            }
            if r is Ok {
                let upper = old(stash).of(old(self).id()).frontiers.upper;
                assert forall|i: int| 0 <= i < entries.len() implies upper <= (#[trigger] entries[i]).1 by {
                    assert(upper <= rows[i].time);
                }
            }
        }
        r
    }

    /// Advances the upper frontier to `upper`, which must not lie below the
    /// current upper frontier. This declares every time below `upper`
    /// definite.
    pub fn seal(&self, stash: &mut Stash, upper: i64) -> (r: Result<(), StashError>)
        requires
            old(stash).wf(),
        ensures
            final(stash).wf(),
            final(stash).same_but(old(stash), self.id()),
            match r {
                Ok(_) => old(stash).has(self.id()) && old(stash).of(self.id()).frontiers.upper <= upper
                    && final(stash).of(self.id()) == (ArrangementView {
                    frontiers: crate::frontier::FrontierPair {
                        upper: upper as int,
                        ..old(stash).of(self.id()).frontiers
                    },
                    ..old(stash).of(self.id())
                }),
                Err(e) => final(stash)@ == old(stash)@ && if old(stash).has(self.id()) {
                    upper < old(stash).of(self.id()).frontiers.upper && e.kind()
                        == StashErrorKind::CausalityViolation
                } else {
                    e.kind() == StashErrorKind::UnknownArrangement
                },
            },
    {
        stash.seal(self.arrangement_id, upper)
    }

    /// Advances the since frontier to `since`, which must lie between the
    /// current since frontier and the upper frontier. Entries below `since`
    /// are from now on reported at `since`.
    pub fn compact(&self, stash: &mut Stash, since: i64) -> (r: Result<(), StashError>)
        requires
            old(stash).wf(),
        ensures
            final(stash).wf(),
            final(stash).same_but(old(stash), self.id()),
            match r {
                Ok(_) => old(stash).has(self.id()) && old(stash).of(self.id()).frontiers.since <= since
                    <= old(stash).of(self.id()).frontiers.upper && final(stash).of(self.id()) == (
                ArrangementView {
                    frontiers: crate::frontier::FrontierPair {
                        since: since as int,
                        ..old(stash).of(self.id()).frontiers
                    },
                    ..old(stash).of(self.id())
                }),
                Err(e) => final(stash)@ == old(stash)@ && if old(stash).has(self.id()) {
                    !(old(stash).of(self.id()).frontiers.since <= since <= old(stash).of(
                        self.id(),
                    ).frontiers.upper) && e.kind() == StashErrorKind::CausalityViolation
                } else {
                    e.kind() == StashErrorKind::UnknownArrangement
                },
            },
    {
        stash.compact(self.arrangement_id, since)
    }

    /// Folds the entries below the since frontier: for each `(key, value)`
    /// they become one stored row at the since frontier. What `iter` reports
    /// does not change.
    pub fn consolidate(&mut self, stash: &mut Stash) -> (r: Result<(), StashError>)
        requires
            old(stash).wf(),
        ensures
            final(self).id() == old(self).id(),
            final(stash).wf(),
            final(stash).same_but(old(stash), old(self).id()),
            match r {
                Ok(_) => {
                    &&& old(stash).has(old(self).id())
                    &&& narrow(old(stash).of(old(self).id()).contents())
                    &&& final(stash).of(old(self).id()) == (ArrangementView {
                        rows: old(stash).of(old(self).id()).contents(),
                        ..old(stash).of(old(self).id())
                    })
                    &&& final(stash).of(old(self).id()).contents() == old(stash).of(
                        old(self).id(),
                    ).contents()
                },
                Err(e) => final(stash)@ == old(stash)@ && if old(stash).has(old(self).id()) {
                    !narrow(old(stash).of(old(self).id()).contents()) && e.kind()
                        == StashErrorKind::Overflow
                } else {
                    e.kind() == StashErrorKind::UnknownArrangement
                },
            },
    {
        stash.consolidate(self.arrangement_id)
    }

    /// Reports the current since frontier.
    pub fn since(&self, stash: &Stash) -> (r: Result<i64, StashError>)
        ensures
            match r {
                Ok(since) => stash.has(self.id()) && since == stash.of(self.id()).frontiers.since,
                Err(e) => !stash.has(self.id()) && e.kind() == StashErrorKind::UnknownArrangement,
            },
    {
        stash.since(self.arrangement_id)
    }

    /// Reports the current upper frontier.
    pub fn upper(&self, stash: &Stash) -> (r: Result<i64, StashError>)
        ensures
            match r {
                Ok(upper) => stash.has(self.id()) && upper == stash.of(self.id()).frontiers.upper,
                Err(e) => !stash.has(self.id()) && e.kind() == StashErrorKind::UnknownArrangement,
            },
    {
        stash.upper(self.arrangement_id)
    }
}

} // verus!
