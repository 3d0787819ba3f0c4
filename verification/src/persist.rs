//! A stash over an append-only write log.
//!
//! This stash keeps one value per key. Every batch of puts and deletes is
//! turned into weighted writes, a retraction of the value that a key had and
//! an insertion of the value that it gets, all at the time of the batch.
//! The log itself is kept elsewhere: the stash hands out the writes to
//! append, is told how the append came out, and brings the values of the
//! keys up to date only once the writes are appended. Replaying a log
//! consolidates it and yields the pairs that are left.

use std::marker::PhantomData;
use vstd::prelude::*;
use crate::codec::{encode_to_vec, Codec};
use crate::consolidation::{
    consolidate, consolidation, lemma_consolidated_weight, lemma_consolidation_exists,
    lemma_consolidation_is, lemma_weight_concat, lemma_weight_push,
    lemma_weight_witness, pair_update, pairs_view, weight, Update,
};
use crate::error::{StashError, StashErrorKind};
use crate::lexical::bytes_eq;

verus! {

/// One operation of a batch.
pub enum StashOp<K, V> {
    /// Set the value of a key.
    Put(K, V),
    /// Remove a key.
    Delete(K),
}

/// One operation of a batch, with its key and value encoded.
pub enum EncodedOp {
    Put(Seq<u8>, Seq<u8>),
    Delete(Seq<u8>),
}

impl EncodedOp {
    /// The key that the operation is about.
    pub open spec fn key(self) -> Seq<u8> {
        match self {
            EncodedOp::Put(key, _) => key,
            EncodedOp::Delete(key) => key,
        }
    }
}

/// The writes that one operation becomes: a retraction of the value that
/// the key has in `data`, if it has one, and for a put an insertion of the
/// new value, all at `time`.
pub open spec fn op_writes(data: Map<Seq<u8>, Seq<u8>>, op: EncodedOp, time: int) -> Seq<Update> {
    let retraction = if data.contains_key(op.key()) {
        seq![Update { key: op.key(), value: data[op.key()], time, diff: -1 }]
    } else {
        Seq::empty()
    };
    match op {
        EncodedOp::Put(key, value) => retraction.push(Update { key, value, time, diff: 1 }),
        EncodedOp::Delete(_) => retraction,
    }
}

/// The writes that a batch becomes. Every operation is held against the
/// values that the keys had before the batch.
pub open spec fn batch_writes(data: Map<Seq<u8>, Seq<u8>>, ops: Seq<EncodedOp>, time: int) -> Seq<
    Update,
>
    decreases ops.len(),
{
    if ops.len() == 0 {
        Seq::empty()
    } else {
        batch_writes(data, ops.drop_last(), time) + op_writes(data, ops.last(), time)
    }
}

/// The values of the keys after one operation.
pub open spec fn op_applied(data: Map<Seq<u8>, Seq<u8>>, op: EncodedOp) -> Map<Seq<u8>, Seq<u8>> {
    match op {
        EncodedOp::Put(key, value) => data.insert(key, value),
        EncodedOp::Delete(key) => data.remove(key),
    }
}

/// The values of the keys after a batch, its operations applied in order.
pub open spec fn batch_applied(data: Map<Seq<u8>, Seq<u8>>, ops: Seq<EncodedOp>) -> Map<
    Seq<u8>,
    Seq<u8>,
>
    decreases ops.len(),
{
    if ops.len() == 0 {
        data
    } else {
        op_applied(batch_applied(data, ops.drop_last()), ops.last())
    }
}

/// The writes without their times: every write stands at time zero.
pub open spec fn timeless(writes: Seq<Update>) -> Seq<Update> {
    writes.map_values(|w: Update| Update { time: 0, ..w })
}

/// No key has two operations in the batch.
pub open spec fn distinct_op_keys(ops: Seq<EncodedOp>) -> bool {
    forall|i: int, j: int| 0 <= i < j < ops.len() ==> (#[trigger] ops[i]).key() != (#[trigger] ops[j]).key()
}

/// The log holds the values of the keys and nothing else: without its
/// times, it gives weight one to each key with its value, and weight zero
/// to every other pair.
pub open spec fn mirrors(log: Seq<Update>, data: Map<Seq<u8>, Seq<u8>>) -> bool {
    forall|key: Seq<u8>, value: Seq<u8>| #[trigger]
        weight(timeless(log), key, value, 0) == if data.contains_key(key) && data[key] == value {
            1int
        } else {
            0int
        }
}

/// A key that no operation of the batch is about keeps its value.
proof fn lemma_untouched(data: Map<Seq<u8>, Seq<u8>>, ops: Seq<EncodedOp>, key: Seq<u8>)
    requires
        forall|i: int| 0 <= i < ops.len() ==> (#[trigger] ops[i]).key() != key,
    ensures
        batch_applied(data, ops).contains_key(key) == data.contains_key(key),
        data.contains_key(key) ==> batch_applied(data, ops)[key] == data[key],
    decreases ops.len(),
{
    if ops.len() > 0 {
        assert(ops.last() == ops[ops.len() - 1]);
        assert forall|i: int| 0 <= i < ops.drop_last().len() implies (#[trigger] ops.drop_last()[i]).key()
            != key by {
            assert(ops.drop_last()[i] == ops[i]);
        }
        lemma_untouched(data, ops.drop_last(), key);
    }
}

/// The weight that the writes of one operation give a pair, their times
/// left out: minus one for the value that the key had, plus one for the
/// value that is put.
proof fn lemma_op_weight(
    data: Map<Seq<u8>, Seq<u8>>,
    op: EncodedOp,
    time: int,
    key: Seq<u8>,
    value: Seq<u8>,
)
    ensures
        weight(timeless(op_writes(data, op, time)), key, value, 0) == (if data.contains_key(op.key())
            && key == op.key() && value == data[op.key()] {
            -1int
        } else {
            0int
        }) + (if op == EncodedOp::Put(key, value) {
            1int
        } else {
            0int
        }),
{
    let none = Seq::<Update>::empty();
    let retraction = Update { key: op.key(), value: data[op.key()], time: 0, diff: -1 };
    let writes = timeless(op_writes(data, op, time));
    match op {
        EncodedOp::Put(k, v) => {
            let insertion = Update { key: k, value: v, time: 0, diff: 1 };
            if data.contains_key(k) {
                assert(writes =~= none.push(retraction).push(insertion));
                lemma_weight_push(none.push(retraction), insertion, key, value, 0);
                lemma_weight_push(none, retraction, key, value, 0);
            } else {
                assert(writes =~= none.push(insertion));
                lemma_weight_push(none, insertion, key, value, 0);
            }
        },
        EncodedOp::Delete(k) => {
            if data.contains_key(k) {
                assert(writes =~= none.push(retraction));
                lemma_weight_push(none, retraction, key, value, 0);
            } else {
                assert(writes =~= none);
            }
        },
    }
}

/// Where the log holds the values of the keys and nothing else, it still
/// does after a batch that has no two operations on one key.
pub proof fn lemma_batch_keeps_mirror(
    log: Seq<Update>,
    data: Map<Seq<u8>, Seq<u8>>,
    ops: Seq<EncodedOp>,
    time: int,
)
    requires
        mirrors(log, data),
        distinct_op_keys(ops),
    ensures
        mirrors(log + batch_writes(data, ops, time), batch_applied(data, ops)),
    decreases ops.len(),
{
    if ops.len() == 0 {
        assert(log + batch_writes(data, ops, time) =~= log);
    } else {
        let init = ops.drop_last();
        let last = ops.last();
        let before = log + batch_writes(data, init, time);
        let applied = batch_applied(data, init);
        let writes = op_writes(data, last, time);
        assert forall|i: int, j: int| 0 <= i < j < init.len() implies (#[trigger] init[i]).key() != (
        #[trigger] init[j]).key() by {
            assert(init[i] == ops[i] && init[j] == ops[j]);
        }
        lemma_batch_keeps_mirror(log, data, init, time);
        assert forall|i: int| 0 <= i < init.len() implies (#[trigger] init[i]).key() != last.key() by {
            assert(init[i] == ops[i] && last == ops[ops.len() - 1]);
        }
        lemma_untouched(data, init, last.key());
        assert(log + batch_writes(data, ops, time) =~= before + writes);
        assert(timeless(before + writes) =~= timeless(before) + timeless(writes));
        assert forall|key: Seq<u8>, value: Seq<u8>| #[trigger]
            weight(timeless(before + writes), key, value, 0) == if batch_applied(data, ops).contains_key(
                key,
            ) && batch_applied(data, ops)[key] == value {
                1int
            } else {
                0int
            } by {
            lemma_weight_concat(timeless(before), timeless(writes), key, value, 0);
            lemma_op_weight(data, last, time, key, value);
            assert(weight(timeless(before), key, value, 0) == if applied.contains_key(key)
                && applied[key] == value {
                1int
            } else {
                0int
            });
        }
    }
}

/// Where the log holds the values of the keys and nothing else, replaying
/// it yields each key once, with its value.
pub proof fn lemma_mirror_replays_values(log: Seq<Update>, data: Map<Seq<u8>, Seq<u8>>)
    requires
        mirrors(log, data),
    ensures
        forall|i: int|
            0 <= i < consolidation(timeless(log)).len() ==> {
                let left = #[trigger] consolidation(timeless(log))[i];
                data.contains_key(left.key) && data[left.key] == left.value && left.diff == 1
            },
        forall|key: Seq<u8>|
            data.contains_key(key) ==> exists|i: int|
                0 <= i < consolidation(timeless(log)).len() && (#[trigger] consolidation(
                    timeless(log),
                )[i]).at(key, data[key], 0),
{
    let input = timeless(log);
    let left = consolidation(input);
    lemma_consolidation_exists(input);
    assert forall|i: int| 0 <= i < left.len() implies {
        let u = #[trigger] left[i];
        data.contains_key(u.key) && data[u.key] == u.value && u.diff == 1
    } by {
        let u = left[i];
        lemma_consolidated_weight(left, i);
        assert(weight(left, u.key, u.value, u.time) == weight(input, u.key, u.value, u.time));
        let at = lemma_weight_witness(input, u.key, u.value, u.time);
        assert(input[at].time == 0);
        assert(weight(input, u.key, u.value, 0) == if data.contains_key(u.key) && data[u.key]
            == u.value {
            1int
        } else {
            0int
        });
    }
    assert forall|key: Seq<u8>| data.contains_key(key) implies exists|i: int|
        0 <= i < left.len() && (#[trigger] left[i]).at(key, data[key], 0) by {
        assert(weight(input, key, data[key], 0) == 1);
        assert(weight(left, key, data[key], 0) == weight(input, key, data[key], 0));
        let at = lemma_weight_witness(left, key, data[key], 0);
        assert(left[at].at(key, data[key], 0));
    }
}

/// What a stash over a log holds.
pub struct PersistView {
    /// The value that each key has.
    pub data: Map<Seq<u8>, Seq<u8>>,
    /// The time of the next batch.
    pub timestamp: nat,
}

/// One write of the log.
pub struct LogEntry {
    pub key: Vec<u8>,
    pub value: Vec<u8>,
    pub time: u64,
    pub diff: i64,
}

impl View for LogEntry {
    type V = Update;

    open spec fn view(&self) -> Update {
        Update { key: self.key@, value: self.value@, time: self.time as int, diff: self.diff as int }
    }
}

/// The writes that a sequence of log entries stands for.
pub open spec fn log_view(entries: Seq<LogEntry>) -> Seq<Update> {
    entries.map_values(|entry: LogEntry| entry@)
}

/// The map that a list of pairs stands for.
pub open spec fn pairs_map(pairs: Seq<(Vec<u8>, Vec<u8>)>) -> Map<Seq<u8>, Seq<u8>>
    decreases pairs.len(),
{
    if pairs.len() == 0 {
        Map::empty()
    } else {
        pairs_map(pairs.drop_last()).insert(pairs.last().0@, pairs.last().1@)
    }
}

/// No key stands twice in the list.
pub open spec fn distinct_keys(pairs: Seq<(Vec<u8>, Vec<u8>)>) -> bool {
    forall|i: int, j: int| 0 <= i < j < pairs.len() ==> (#[trigger] pairs[i]).0@ != (#[trigger] pairs[j]).0@
}

proof fn lemma_pairs_map(pairs: Seq<(Vec<u8>, Vec<u8>)>, key: Seq<u8>)
    requires
        distinct_keys(pairs),
    ensures
        pairs_map(pairs).contains_key(key) <==> exists|i: int|
            0 <= i < pairs.len() && (#[trigger] pairs[i]).0@ == key,
        forall|i: int|
            0 <= i < pairs.len() && (#[trigger] pairs[i]).0@ == key ==> pairs_map(pairs)[key]
                == pairs[i].1@,
    decreases pairs.len(),
{
    if pairs.len() > 0 {
        let rest = pairs.drop_last();
        lemma_pairs_map(rest, key);
        if pairs.last().0@ == key {
            assert(pairs[pairs.len() - 1].0@ == key);
        } else {
            if pairs_map(pairs).contains_key(key) {
                let i = choose|i: int| 0 <= i < rest.len() && (#[trigger] rest[i]).0@ == key;
                assert(pairs[i].0@ == key);
            }
            if exists|i: int| 0 <= i < pairs.len() && (#[trigger] pairs[i]).0@ == key {
                let i = choose|i: int| 0 <= i < pairs.len() && (#[trigger] pairs[i]).0@ == key;
                assert(rest[i].0@ == key);
            }
            assert forall|i: int| 0 <= i < pairs.len() && (#[trigger] pairs[i]).0@ == key implies pairs_map(
                pairs,
            )[key] == pairs[i].1@ by {
                assert(rest[i].0@ == key);
            }
        }
    }
}

/// A stash backed by an append-only log of weighted writes.
pub struct PersistStash<K, V> {
    data: Vec<(Vec<u8>, Vec<u8>)>,
    timestamp: u64,
    _kv: PhantomData<(K, V)>,
}

/// The position of `key` in the list.
fn position_of(data: &Vec<(Vec<u8>, Vec<u8>)>, key: &[u8]) -> (r: Option<usize>)
    ensures
        match r {
            Some(at) => at < data.len() && data[at as int].0@ == key@,
            None => forall|i: int| 0 <= i < data.len() ==> (#[trigger] data[i]).0@ != key@,
        },
{
    let mut i: usize = 0;
    while i < data.len()
        invariant
            i <= data.len(),
            forall|j: int| 0 <= j < i ==> (#[trigger] data[j]).0@ != key@,
        decreases data.len() - i,
    {
        if bytes_eq(data[i].0.as_slice(), key) {
            return Some(i);
        }
        i += 1;
    }
    None
}

impl<K: Codec, V: Codec> PersistStash<K, V> {
    /// What the stash holds.
    pub closed spec fn view(&self) -> PersistView {
        PersistView {
            data: pairs_map(self.data@),
            timestamp: self.timestamp as nat,
        }
    }

    /// The stash is well formed when no key has two values.
    pub closed spec fn wf(&self) -> bool {
        distinct_keys(self.data@)
    }

    /// The operation with its key and value encoded.
    pub open spec fn encoded_op(op: StashOp<K, V>) -> EncodedOp {
        match op {
            StashOp::Put(key, value) => EncodedOp::Put(K::encoding(key@), V::encoding(value@)),
            StashOp::Delete(key) => EncodedOp::Delete(K::encoding(key@)),
        }
    }

    /// The batch with its keys and values encoded.
    pub open spec fn encoded_ops(ops: Seq<StashOp<K, V>>) -> Seq<EncodedOp> {
        ops.map_values(|op: StashOp<K, V>| Self::encoded_op(op))
    }

    /// Whether `pair` is what the write decodes to.
    pub open spec fn decoded(write: Update, pair: (K, V)) -> bool {
        K::decoding(write.key) == Some(pair.0@) && V::decoding(write.value) == Some(pair.1@)
    }

    /// Whether the key and the value of every write decode.
    pub open spec fn all_decodable(writes: Seq<Update>) -> bool {
        forall|i: int|
            0 <= i < writes.len() ==> K::decoding((#[trigger] writes[i]).key) is Some && V::decoding(
                writes[i].value,
            ) is Some
    }

    /// Opens the stash. It starts out knowing no value of any key and
    /// counts its batches from zero, whatever the log holds.
    pub fn open() -> (stash: PersistStash<K, V>)
        ensures
            stash.wf(),
            stash.view().data == Map::<Seq<u8>, Seq<u8>>::empty(),
            stash.view().timestamp == 0,
    {
        PersistStash { data: Vec::new(), timestamp: 0, _kv: PhantomData }
    }

    /// Turns a batch of operations into the writes to append to the log, at
    /// the time of the batch counter, and advances the counter.
    ///
    /// Each put and each delete retracts the value that its key had before
    /// the batch, if it had one, and each put inserts its new value. The
    /// values of the keys stay as they are: they are brought up to date by
    /// [`PersistStash::batch_appended`], once the writes are appended.
    ///
    /// Fails, and changes nothing, when the batch counter is used up.
    pub fn write_batch(&mut self, ops: &Vec<StashOp<K, V>>) -> (r: Result<Vec<LogEntry>, StashError>)
        requires
            old(self).wf(),
        ensures
            final(self).wf(),
            final(self).view().data == old(self).view().data,
            match r {
                Ok(writes) => {
                    &&& old(self).view().timestamp < u64::MAX
                    &&& final(self).view().timestamp == old(self).view().timestamp + 1
                    &&& log_view(writes@) == batch_writes(
                        old(self).view().data,
                        Self::encoded_ops(ops@),
                        old(self).view().timestamp as int,
                    )
                },
                Err(e) => old(self).view().timestamp == u64::MAX && final(self).view() == old(self).view()
                    && e.kind() == StashErrorKind::Overflow,
            },
    {
        let timestamp = self.timestamp;
        if timestamp == u64::MAX {
            return Err(StashError::new(StashErrorKind::Overflow, "the batch counter is used up"));
        }
        let ghost before = old(self).view();
        let ghost encoded = Self::encoded_ops(ops@);
        let mut writes: Vec<LogEntry> = Vec::new();
        let mut i: usize = 0;
        proof {
            assert(log_view(writes@) =~= batch_writes(before.data, encoded.take(0), timestamp as int));
        }
        while i < ops.len()
            invariant
                i <= ops.len(),
                encoded == Self::encoded_ops(ops@),
                self.data == old(self).data,
                self.timestamp == old(self).timestamp,
                timestamp == self.timestamp,
                before == old(self).view(),
                old(self).wf(),
                log_view(writes@) == batch_writes(before.data, encoded.take(i as int), timestamp as int),
            decreases ops.len() - i,
        {
            let ghost op = encoded[i as int];
            let ghost so_far = log_view(writes@);
            proof {
                assert(encoded.take(i + 1).drop_last() =~= encoded.take(i as int));
                assert(encoded.take(i + 1).last() == op);
            }
            let key_buf = match &ops[i] {
                StashOp::Put(key, _) => encode_to_vec(key),
                StashOp::Delete(key) => encode_to_vec(key),
            };
            proof {
                lemma_pairs_map(self.data@, key_buf@);
            }
            match position_of(&self.data, key_buf.as_slice()) {
                Some(at) => {
                    let entry = LogEntry {
                        key: key_buf.clone(),
                        value: self.data[at].1.clone(),
                        time: timestamp,
                        diff: -1,
                    };
                    writes.push(entry);
                },
                None => {},
            }
            match &ops[i] {
                StashOp::Put(_, value) => {
                    let entry = LogEntry {
                        key: key_buf,
                        value: encode_to_vec(value),
                        time: timestamp,
                        diff: 1,
                    };
                    writes.push(entry);
                },
                StashOp::Delete(_) => {},
            }
            proof {
                assert(log_view(writes@) =~= so_far + op_writes(before.data, op, timestamp as int));
            }
            i += 1;
        }
        proof {
            assert(encoded.take(ops.len() as int) =~= encoded);
        }
        self.timestamp = timestamp + 1;
        Ok(writes)
    }

    /// Takes note of how the append of a batch came out. Where the writes
    /// were appended, the values of the keys are brought up to date, one
    /// operation after the other. Where the append failed, the values stay
    /// as they were, so that no later retraction rests on a value that was
    /// never written, and the failure is handed on.
    pub fn batch_appended<E>(&mut self, ops: Vec<StashOp<K, V>>, appended: Result<(), E>) -> (r:
        Result<(), E>)
        requires
            old(self).wf(),
        ensures
            final(self).wf(),
            final(self).view().timestamp == old(self).view().timestamp,
            match appended {
                Ok(_) => r is Ok && final(self).view().data == batch_applied(
                    old(self).view().data,
                    Self::encoded_ops(ops@),
                ),
                Err(e) => r == Err::<(), E>(e) && final(self).view() == old(self).view(),
            },
    {
        match appended {
            Ok(_) => {},
            Err(e) => {
                return Err(e);
            },
        }
        let ghost before = old(self).view();
        let ghost encoded = Self::encoded_ops(ops@);
        let mut j: usize = 0;
        while j < ops.len()
            invariant
                j <= ops.len(),
                encoded == Self::encoded_ops(ops@),
                before == old(self).view(),
                self.timestamp == old(self).timestamp,
                distinct_keys(self.data@),
                pairs_map(self.data@) == batch_applied(before.data, encoded.take(j as int)),
            decreases ops.len() - j,
        {
            proof {
                assert(encoded.take(j + 1).drop_last() =~= encoded.take(j as int));
            }
            match &ops[j] {
                StashOp::Put(key, value) => {
                    let key_buf = encode_to_vec(key);
                    let value_buf = encode_to_vec(value);
                    put(&mut self.data, key_buf, value_buf);
                },
                StashOp::Delete(key) => {
                    let key_buf = encode_to_vec(key);
                    delete(&mut self.data, key_buf.as_slice());
                },
            }
            j += 1;
        }
        proof {
            assert(encoded.take(ops.len() as int) =~= encoded);
        }
        Ok(())
    }

    /// Replays a log: every write without its time, consolidated, and of
    /// what is left the key and the value. The pairs come in the order of
    /// their encodings; a pair is left wherever its diffs do not add up to
    /// zero.
    ///
    /// Fails when a key or a value of the log does not decode.
    pub fn replay(&self, log: &Vec<LogEntry>) -> (r: Result<Vec<(K, V)>, StashError>)
        ensures
            match r {
                Ok(pairs) => {
                    &&& pairs.len() == consolidation(timeless(log_view(log@))).len()
                    &&& forall|i: int|
                        0 <= i < pairs.len() ==> Self::decoded(
                            #[trigger] consolidation(timeless(log_view(log@)))[i],
                            pairs[i],
                        )
                },
                Err(e) => e.kind() == StashErrorKind::Codec && !Self::all_decodable(
                    consolidation(timeless(log_view(log@))),
                ),
            },
    {
        let mut out: Vec<((Vec<u8>, Vec<u8>), i128)> = Vec::new();
        let mut i: usize = 0;
        let ghost all = log_view(log@);
        assert(pairs_view(out@) =~= timeless(all.take(0)));
        while i < log.len()
            invariant
                i <= log.len(),
                all == log_view(log@),
                crate::consolidation::narrow_pairs(out@),
                pairs_view(out@) == timeless(all.take(i as int)),
            decreases log.len() - i,
        {
            let entry = &log[i];
            let ghost before = out@;
            out.push(((entry.key.clone(), entry.value.clone()), entry.diff as i128));
            proof {
                assert(pairs_view(out@) =~= pairs_view(before).push(pair_update(out@.last())));
                assert(timeless(all.take(i + 1)) =~= timeless(all.take(i as int)).push(
                    Update { time: 0, ..all[i as int] },
                ));
            }
            i += 1;
        }
        proof {
            assert(all.take(log.len() as int) =~= all);
        }
        let ghost input = pairs_view(out@);
        consolidate(&mut out);
        proof {
            lemma_consolidation_is(input, pairs_view(out@));
        }
        let ghost left = pairs_view(out@);
        let mut pairs: Vec<(K, V)> = Vec::new();
        let mut j: usize = 0;
        while j < out.len()
            invariant
                j <= out.len(),
                left == pairs_view(out@),
                left == consolidation(timeless(log_view(log@))),
                pairs.len() == j,
                forall|k: int| 0 <= k < j ==> Self::decoded(#[trigger] left[k], pairs[k]),
            decreases out.len() - j,
        {
            let pair = &out[j];
            let key = match K::decode(pair.0.0.as_slice()) {
                Ok(key) => key,
                Err(message) => {
                    assert(K::decoding(left[j as int].key) is None);
                    return Err(StashError::new(StashErrorKind::Codec, message.as_str()));
                },
            };
            let value = match V::decode(pair.0.1.as_slice()) {
                Ok(value) => value,
                Err(message) => {
                    assert(V::decoding(left[j as int].value) is None);
                    return Err(StashError::new(StashErrorKind::Codec, message.as_str()));
                },
            };
            pairs.push((key, value));
            j += 1;
        }
        Ok(pairs)
    }
}

/// Sets the value of `key` in the list.
fn put(data: &mut Vec<(Vec<u8>, Vec<u8>)>, key: Vec<u8>, value: Vec<u8>)
    requires
        distinct_keys(old(data)@),
    ensures
        distinct_keys(final(data)@),
        pairs_map(final(data)@) == pairs_map(old(data)@).insert(key@, value@),
{
    match position_of(data, key.as_slice()) {
        Some(at) => {
            data[at].1 = value;
            proof {
                assert forall|k: Seq<u8>| #[trigger]
                    pairs_map(data@).contains_key(k) == pairs_map(old(data)@).insert(
                        key@,
                        value@,
                    ).contains_key(k) by {
                    lemma_pairs_map(data@, k);
                    lemma_pairs_map(old(data)@, k);
                    if pairs_map(old(data)@).contains_key(k) {
                        let i = choose|i: int| 0 <= i < old(data).len() && (#[trigger] old(data)@[i]).0@ == k;
                        assert(data@[i].0@ == k);
                    }
                    if pairs_map(data@).contains_key(k) {
                        let i = choose|i: int| 0 <= i < data.len() && (#[trigger] data@[i]).0@ == k;
                        assert(old(data)@[i].0@ == k);
                    }
                    assert(data@[at as int].0@ == key@);
                }
                assert forall|k: Seq<u8>| pairs_map(data@).contains_key(k) implies #[trigger] pairs_map(
                    data@,
                )[k] == pairs_map(old(data)@).insert(key@, value@)[k] by {
                    lemma_pairs_map(data@, k);
                    lemma_pairs_map(old(data)@, k);
                    let i = choose|i: int| 0 <= i < data.len() && (#[trigger] data@[i]).0@ == k;
                    assert(old(data)@[i].0@ == k);
                }
                assert(pairs_map(data@) =~= pairs_map(old(data)@).insert(key@, value@));
            }
        },
        None => {
            data.push((key, value));
            assert(data@.drop_last() =~= old(data)@);
        },
    }
}

/// Removes `key` from the list.
fn delete(data: &mut Vec<(Vec<u8>, Vec<u8>)>, key: &[u8])
    requires
        distinct_keys(old(data)@),
    ensures
        distinct_keys(final(data)@),
        pairs_map(final(data)@) == pairs_map(old(data)@).remove(key@),
{
    match position_of(data, key) {
        Some(at) => {
            data.remove(at);
            proof {
                assert forall|k: Seq<u8>| #[trigger]
                    pairs_map(data@).contains_key(k) == pairs_map(old(data)@).remove(key@).contains_key(
                        k,
                    ) by {
                    lemma_pairs_map(data@, k);
                    lemma_pairs_map(old(data)@, k);
                    if pairs_map(old(data)@).contains_key(k) && k != key@ {
                        let i = choose|i: int| 0 <= i < old(data).len() && (#[trigger] old(data)@[i]).0@ == k;
                        if i < at {
                            assert(data@[i].0@ == k);
                        } else {
                            assert(data@[i - 1].0@ == k);
                        }
                    }
                    if pairs_map(data@).contains_key(k) {
                        let i = choose|i: int| 0 <= i < data.len() && (#[trigger] data@[i]).0@ == k;
                        if i < at {
                            assert(old(data)@[i].0@ == k);
                        } else {
                            assert(old(data)@[i + 1].0@ == k);
                        }
                    }
                }
                assert forall|k: Seq<u8>| pairs_map(data@).contains_key(k) implies #[trigger] pairs_map(
                    data@,
                )[k] == pairs_map(old(data)@).remove(key@)[k] by {
                    lemma_pairs_map(data@, k);
                    lemma_pairs_map(old(data)@, k);
                    let i = choose|i: int| 0 <= i < data.len() && (#[trigger] data@[i]).0@ == k;
                    if i < at {
                        assert(old(data)@[i].0@ == k);
                    } else {
                        assert(old(data)@[i + 1].0@ == k);
                    }
                }
                assert(pairs_map(data@) =~= pairs_map(old(data)@).remove(key@));
            }
        },
        None => {
            proof {
                lemma_pairs_map(data@, key@);
                assert(pairs_map(data@) =~= pairs_map(data@).remove(key@));
            }
        },
    }
}

} // verus!
