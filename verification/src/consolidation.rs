//! Consolidation of weighted updates.
//!
//! A collection is a sequence of updates, each saying that `diff` copies of
//! `(key, value)` appear at `time`. Consolidating a collection groups the
//! updates by `(key, value, time)`, adds up the diffs of each group, drops the
//! groups that add up to zero and orders what is left by `(key, value, time)`.

use vstd::prelude::*;
use crate::lexical::{lex_lt, lemma_lex_irreflexive, lemma_lex_total, lemma_lex_transitive};

verus! {

/// One weighted update, with unbounded integers.
pub struct Update {
    pub key: Seq<u8>,
    pub value: Seq<u8>,
    pub time: int,
    pub diff: int,
}

impl Update {
    /// Whether this update speaks of `(key, value)` at `time`.
    pub open spec fn at(self, key: Seq<u8>, value: Seq<u8>, time: int) -> bool {
        self.key == key && self.value == value && self.time == time
    }

    /// Whether two updates speak of the same `(key, value, time)`.
    pub open spec fn same_fact(self, other: Update) -> bool {
        other.at(self.key, self.value, self.time)
    }

    /// Whether this update sorts strictly before `other`: by key, then by
    /// value, then by time.
    pub open spec fn before(self, other: Update) -> bool {
        lex_lt(self.key, other.key) || (self.key == other.key && (lex_lt(self.value, other.value)
            || (self.value == other.value && self.time < other.time)))
    }
}

/// The sum of the diffs that `updates` records for `(key, value)` at `time`.
pub open spec fn weight(updates: Seq<Update>, key: Seq<u8>, value: Seq<u8>, time: int) -> int
    decreases updates.len(),
{
    if updates.len() == 0 {
        0
    } else {
        weight(updates.drop_last(), key, value, time) + if updates.last().at(key, value, time) {
            updates.last().diff
        } else {
            0
        }
    }
}

/// A sequence is consolidated when it is strictly ordered by
/// `(key, value, time)` and holds no zero diff.
pub open spec fn is_consolidated(updates: Seq<Update>) -> bool {
    &&& forall|i: int| 0 <= i < updates.len() ==> (#[trigger] updates[i]).diff != 0
    &&& forall|i: int, j: int|
        0 <= i < j < updates.len() ==> (#[trigger] updates[i]).before(#[trigger] updates[j])
}

/// `output` is `input` consolidated: it is consolidated and gives every
/// `(key, value, time)` the weight that `input` gives it.
pub open spec fn consolidates(input: Seq<Update>, output: Seq<Update>) -> bool {
    &&& is_consolidated(output)
    &&& forall|key: Seq<u8>, value: Seq<u8>, time: int|
        #[trigger] weight(output, key, value, time) == weight(input, key, value, time)
}

/// The consolidated form of `input`.
pub open spec fn consolidation(input: Seq<Update>) -> Seq<Update> {
    choose|output: Seq<Update>| consolidates(input, output)
}

/// No update sorts before itself, or before an update of the same fact.
pub proof fn lemma_before_irreflexive(a: Update, b: Update)
    requires
        a.same_fact(b),
    ensures
        !a.before(b),
{
    lemma_lex_irreflexive(a.key);
    lemma_lex_irreflexive(a.value);
}

/// The order on updates is transitive.
pub proof fn lemma_before_transitive(a: Update, b: Update, c: Update)
    requires
        a.before(b),
        b.before(c),
    ensures
        a.before(c),
{
    if lex_lt(a.key, b.key) && lex_lt(b.key, c.key) {
        lemma_lex_transitive(a.key, b.key, c.key);
    }
    if a.key == b.key && b.key == c.key && lex_lt(a.value, b.value) && lex_lt(b.value, c.value) {
        lemma_lex_transitive(a.value, b.value, c.value);
    }
}

/// Pushing one update adds its diff to the weight of its own fact and leaves
/// every other weight alone.
pub proof fn lemma_weight_push(
    updates: Seq<Update>,
    last: Update,
    key: Seq<u8>,
    value: Seq<u8>,
    time: int,
)
    ensures
        weight(updates.push(last), key, value, time) == weight(updates, key, value, time) + if last.at(
            key,
            value,
            time,
        ) {
            last.diff
        } else {
            0
        },
{
    assert(updates.push(last).drop_last() =~= updates);
}

/// The weight of a concatenation is the sum of the weights of its parts.
pub proof fn lemma_weight_concat(
    left: Seq<Update>,
    right: Seq<Update>,
    key: Seq<u8>,
    value: Seq<u8>,
    time: int,
)
    ensures
        weight(left + right, key, value, time) == weight(left, key, value, time) + weight(
            right,
            key,
            value,
            time,
        ),
    decreases right.len(),
{
    if right.len() == 0 {
        assert(left + right =~= left);
    } else {
        assert((left + right).drop_last() =~= left + right.drop_last());
        lemma_weight_concat(left, right.drop_last(), key, value, time);
    }
}

/// A fact that no update speaks of has weight zero.
pub proof fn lemma_weight_absent(updates: Seq<Update>, key: Seq<u8>, value: Seq<u8>, time: int)
    requires
        forall|i: int| 0 <= i < updates.len() ==> !(#[trigger] updates[i]).at(key, value, time),
    ensures
        weight(updates, key, value, time) == 0,
    decreases updates.len(),
{
    if updates.len() > 0 {
        lemma_weight_absent(updates.drop_last(), key, value, time);
    }
}

/// A fact that exactly one update speaks of has that update's diff as its
/// weight.
pub proof fn lemma_weight_single(
    updates: Seq<Update>,
    at: int,
    key: Seq<u8>,
    value: Seq<u8>,
    time: int,
)
    requires
        0 <= at < updates.len(),
        updates[at].at(key, value, time),
        forall|i: int|
            0 <= i < updates.len() && i != at ==> !(#[trigger] updates[i]).at(key, value, time),
    ensures
        weight(updates, key, value, time) == updates[at].diff,
    decreases updates.len(),
{
    if at == updates.len() - 1 {
        lemma_weight_absent(updates.drop_last(), key, value, time);
    } else {
        lemma_weight_single(updates.drop_last(), at, key, value, time);
    }
}

/// The diff that one update adds to the weight of `(key, value)` at `time`.
pub open spec fn share(update: Update, key: Seq<u8>, value: Seq<u8>, time: int) -> int {
    if update.at(key, value, time) {
        update.diff
    } else {
        0
    }
}

/// Replacing one update takes its share out of every weight and puts the
/// share of the new update in.
pub proof fn lemma_weight_update(
    updates: Seq<Update>,
    at: int,
    new: Update,
    key: Seq<u8>,
    value: Seq<u8>,
    time: int,
)
    requires
        0 <= at < updates.len(),
    ensures
        weight(updates.update(at, new), key, value, time) == weight(updates, key, value, time) - share(
            updates[at],
            key,
            value,
            time,
        ) + share(new, key, value, time),
{
    let left = updates.take(at);
    let right = updates.skip(at + 1);
    assert(updates =~= left.push(updates[at]) + right);
    assert(updates.update(at, new) =~= left.push(new) + right);
    lemma_weight_concat(left.push(updates[at]), right, key, value, time);
    lemma_weight_concat(left.push(new), right, key, value, time);
    lemma_weight_push(left, updates[at], key, value, time);
    lemma_weight_push(left, new, key, value, time);
}

/// Removing one update takes its share out of every weight.
pub proof fn lemma_weight_remove(
    updates: Seq<Update>,
    at: int,
    key: Seq<u8>,
    value: Seq<u8>,
    time: int,
)
    requires
        0 <= at < updates.len(),
    ensures
        weight(updates.remove(at), key, value, time) == weight(updates, key, value, time) - share(
            updates[at],
            key,
            value,
            time,
        ),
{
    let left = updates.take(at);
    let right = updates.skip(at + 1);
    assert(updates =~= left.push(updates[at]) + right);
    assert(updates.remove(at) =~= left + right);
    lemma_weight_concat(left.push(updates[at]), right, key, value, time);
    lemma_weight_concat(left, right, key, value, time);
    lemma_weight_push(left, updates[at], key, value, time);
}

/// In a consolidated sequence every update carries the whole weight of its
/// fact.
pub proof fn lemma_consolidated_weight(updates: Seq<Update>, at: int)
    requires
        is_consolidated(updates),
        0 <= at < updates.len(),
    ensures
        weight(updates, updates[at].key, updates[at].value, updates[at].time) == updates[at].diff,
{
    let u = updates[at];
    assert forall|i: int| 0 <= i < updates.len() && i != at implies !(#[trigger] updates[i]).at(
        u.key,
        u.value,
        u.time,
    ) by {
        if updates[i].at(u.key, u.value, u.time) {
            if i < at {
                lemma_before_irreflexive(updates[i], updates[at]);
            } else {
                lemma_before_irreflexive(updates[at], updates[i]);
            }
        }
    }
    lemma_weight_single(updates, at, u.key, u.value, u.time);
}

/// A fact with a weight other than zero is spoken of by some update.
pub proof fn lemma_weight_witness(
    updates: Seq<Update>,
    key: Seq<u8>,
    value: Seq<u8>,
    time: int,
) -> (at: int)
    requires
        weight(updates, key, value, time) != 0,
    ensures
        0 <= at < updates.len(),
        updates[at].at(key, value, time),
    decreases updates.len(),
{
    if updates.last().at(key, value, time) {
        updates.len() - 1
    } else {
        lemma_weight_witness(updates.drop_last(), key, value, time)
    }
}

/// Two consolidated sequences that give every fact the same weight are the
/// same sequence.
pub proof fn lemma_consolidated_equal(a: Seq<Update>, b: Seq<Update>)
    requires
        is_consolidated(a),
        is_consolidated(b),
        forall|key: Seq<u8>, value: Seq<u8>, time: int|
            #[trigger] weight(a, key, value, time) == weight(b, key, value, time),
    ensures
        a == b,
    decreases a.len() + b.len(),
{
    if a.len() == 0 && b.len() == 0 {
        assert(a =~= b);
    } else if a.len() == 0 {
        lemma_consolidated_weight(b, 0);
        assert(weight(a, b[0].key, b[0].value, b[0].time) == 0);
        assert(weight(b, b[0].key, b[0].value, b[0].time) == weight(
            a,
            b[0].key,
            b[0].value,
            b[0].time,
        ));
    } else if b.len() == 0 {
        lemma_consolidated_weight(a, 0);
        assert(weight(b, a[0].key, a[0].value, a[0].time) == 0);
        assert(weight(a, a[0].key, a[0].value, a[0].time) == weight(
            b,
            a[0].key,
            a[0].value,
            a[0].time,
        ));
    } else {
        // The last update of each sequence is its greatest; both occur in the
        // other sequence, so the two are of the same fact.
        let la = a.last();
        let lb = b.last();
        lemma_consolidated_weight(a, a.len() - 1);
        lemma_consolidated_weight(b, b.len() - 1);
        assert(weight(a, la.key, la.value, la.time) == weight(b, la.key, la.value, la.time));
        assert(weight(a, lb.key, lb.value, lb.time) == weight(b, lb.key, lb.value, lb.time));
        let ia = lemma_weight_witness(b, la.key, la.value, la.time);
        let ib = lemma_weight_witness(a, lb.key, lb.value, lb.time);
        if ia < b.len() - 1 && ib < a.len() - 1 {
            // la = b[ia] < lb = a[ib] < la
            assert(b[ia].before(b[b.len() - 1]));
            assert(a[ib].before(a[a.len() - 1]));
            let x = Update { diff: 0, ..la };
            let y = Update { diff: 0, ..lb };
            assert(x.before(y));
            assert(y.before(x));
            lemma_before_transitive(x, y, x);
            lemma_before_irreflexive(x, x);
        }
        assert(la.same_fact(lb));
        assert(la == lb);
        let a0 = a.drop_last();
        let b0 = b.drop_last();
        assert forall|key: Seq<u8>, value: Seq<u8>, time: int| #[trigger]
            weight(a0, key, value, time) == weight(b0, key, value, time) by {
            assert(weight(a, key, value, time) == weight(b, key, value, time));
        }
        lemma_consolidated_equal(a0, b0);
        assert(a =~= a0.push(la));
        assert(b =~= b0.push(lb));
    }
}

/// A collection has at most one consolidated form.
pub proof fn lemma_consolidation_unique(input: Seq<Update>, a: Seq<Update>, b: Seq<Update>)
    requires
        consolidates(input, a),
        consolidates(input, b),
    ensures
        a == b,
{
    assert forall|key: Seq<u8>, value: Seq<u8>, time: int| #[trigger]
        weight(a, key, value, time) == weight(b, key, value, time) by {
        assert(weight(a, key, value, time) == weight(input, key, value, time));
        assert(weight(b, key, value, time) == weight(input, key, value, time));
    }
    lemma_consolidated_equal(a, b);
}

/// Whatever consolidates `input` is its consolidated form.
pub proof fn lemma_consolidation_is(input: Seq<Update>, output: Seq<Update>)
    requires
        consolidates(input, output),
    ensures
        consolidation(input) == output,
{
    lemma_consolidation_unique(input, consolidation(input), output);
}

/// Collections that give every fact the same weight have the same
/// consolidated form.
pub proof fn lemma_consolidation_by_weight(a: Seq<Update>, b: Seq<Update>, output: Seq<Update>)
    requires
        consolidates(a, output),
        forall|key: Seq<u8>, value: Seq<u8>, time: int|
            #[trigger] weight(a, key, value, time) == weight(b, key, value, time),
    ensures
        consolidates(b, output),
        consolidation(a) == output,
        consolidation(b) == output,
{
    assert forall|key: Seq<u8>, value: Seq<u8>, time: int| #[trigger]
        weight(output, key, value, time) == weight(b, key, value, time) by {
        assert(weight(a, key, value, time) == weight(b, key, value, time));
    }
    lemma_consolidation_is(a, output);
    lemma_consolidation_is(b, output);
}

/// Of two updates one sorts before the other, or they are of one fact.
pub proof fn lemma_before_total(a: Update, b: Update)
    ensures
        a.before(b) || a.same_fact(b) || b.before(a),
{
    lemma_lex_total(a.key, b.key);
    lemma_lex_total(a.value, b.value);
}

/// A consolidated sequence with one more update folded in.
pub open spec fn folded(sorted: Seq<Update>, update: Update) -> Seq<Update>
    decreases sorted.len(),
{
    if update.diff == 0 {
        sorted
    } else if sorted.len() == 0 {
        seq![update]
    } else {
        let last = sorted.last();
        if last.before(update) {
            sorted.push(update)
        } else if last.same_fact(update) {
            if last.diff + update.diff == 0 {
                sorted.drop_last()
            } else {
                sorted.drop_last().push(Update { diff: last.diff + update.diff, ..last })
            }
        } else {
            folded(sorted.drop_last(), update).push(last)
        }
    }
}

/// The updates folded one by one into an empty sequence.
pub open spec fn folded_all(input: Seq<Update>) -> Seq<Update>
    decreases input.len(),
{
    if input.len() == 0 {
        input
    } else {
        folded(folded_all(input.drop_last()), input.last())
    }
}

proof fn lemma_folded_below(sorted: Seq<Update>, update: Update, bound: Update)
    requires
        forall|i: int| 0 <= i < sorted.len() ==> (#[trigger] sorted[i]).before(bound),
        update.before(bound),
    ensures
        forall|i: int|
            0 <= i < folded(sorted, update).len() ==> (#[trigger] folded(sorted, update)[i]).before(
                bound,
            ),
    decreases sorted.len(),
{
    let out = folded(sorted, update);
    if update.diff != 0 && sorted.len() > 0 {
        let last = sorted.last();
        let rest = sorted.drop_last();
        if last.before(update) {
            assert forall|i: int| 0 <= i < out.len() implies (#[trigger] out[i]).before(bound) by {
                if i < sorted.len() {
                    assert(sorted[i].before(bound));
                }
            }
        } else if last.same_fact(update) {
            let sum = Update { diff: last.diff + update.diff, ..last };
            assert(sum.before(bound));
            assert forall|i: int| 0 <= i < out.len() implies (#[trigger] out[i]).before(bound) by {
                if i < rest.len() {
                    assert(sorted[i].before(bound));
                }
            }
        } else {
            assert forall|i: int| 0 <= i < rest.len() implies (#[trigger] rest[i]).before(bound) by {
                assert(sorted[i].before(bound));
            }
            lemma_folded_below(rest, update, bound);
            let inner = folded(rest, update);
            assert forall|i: int| 0 <= i < out.len() implies (#[trigger] out[i]).before(bound) by {
                if i < inner.len() {
                    assert(inner[i].before(bound));
                }
            }
        }
    }
}

proof fn lemma_folded(sorted: Seq<Update>, update: Update)
    requires
        is_consolidated(sorted),
    ensures
        is_consolidated(folded(sorted, update)),
        forall|key: Seq<u8>, value: Seq<u8>, time: int| #[trigger]
            weight(folded(sorted, update), key, value, time) == weight(sorted, key, value, time) + share(
                update,
                key,
                value,
                time,
            ),
    decreases sorted.len(),
{
    let out = folded(sorted, update);
    if update.diff == 0 {
    } else if sorted.len() == 0 {
        assert forall|key: Seq<u8>, value: Seq<u8>, time: int| #[trigger]
            weight(out, key, value, time) == weight(sorted, key, value, time) + share(
                update,
                key,
                value,
                time,
            ) by {
            lemma_weight_push(sorted, update, key, value, time);
            assert(sorted.push(update) =~= out);
        }
    } else {
        let last = sorted.last();
        let rest = sorted.drop_last();
        assert(sorted =~= rest.push(last));
        if last.before(update) {
            assert forall|i: int, j: int| 0 <= i < j < out.len() implies (#[trigger] out[i]).before(
                #[trigger] out[j],
            ) by {
                if j == out.len() - 1 && i < sorted.len() - 1 {
                    lemma_before_transitive(sorted[i], last, update);
                }
            }
            assert forall|key: Seq<u8>, value: Seq<u8>, time: int| #[trigger]
                weight(out, key, value, time) == weight(sorted, key, value, time) + share(
                    update,
                    key,
                    value,
                    time,
                ) by {
                lemma_weight_push(sorted, update, key, value, time);
            }
        } else if last.same_fact(update) {
            let sum = Update { diff: last.diff + update.diff, ..last };
            assert forall|key: Seq<u8>, value: Seq<u8>, time: int| #[trigger]
                weight(out, key, value, time) == weight(sorted, key, value, time) + share(
                    update,
                    key,
                    value,
                    time,
                ) by {
                lemma_weight_push(rest, last, key, value, time);
                lemma_weight_push(rest, sum, key, value, time);
            }
            if last.diff + update.diff != 0 {
                assert forall|i: int, j: int| 0 <= i < j < out.len() implies (#[trigger] out[i]).before(
                    #[trigger] out[j],
                ) by {
                    assert(sorted[i].before(sorted[j]));
                }
            }
        } else {
            lemma_before_total(last, update);
            lemma_folded(rest, update);
            lemma_folded_below(rest, update, last);
            let inner = folded(rest, update);
            assert forall|key: Seq<u8>, value: Seq<u8>, time: int| #[trigger]
                weight(out, key, value, time) == weight(sorted, key, value, time) + share(
                    update,
                    key,
                    value,
                    time,
                ) by {
                lemma_weight_push(inner, last, key, value, time);
                lemma_weight_push(rest, last, key, value, time);
                assert(weight(inner, key, value, time) == weight(rest, key, value, time) + share(
                    update,
                    key,
                    value,
                    time,
                ));
            }
        }
    }
}

/// Every collection has a consolidated form.
pub proof fn lemma_consolidation_exists(input: Seq<Update>)
    ensures
        consolidates(input, consolidation(input)),
{
    lemma_folded_all(input);
}

proof fn lemma_folded_all(input: Seq<Update>)
    ensures
        consolidates(input, folded_all(input)),
    decreases input.len(),
{
    if input.len() > 0 {
        lemma_folded_all(input.drop_last());
        lemma_folded(folded_all(input.drop_last()), input.last());
        assert forall|key: Seq<u8>, value: Seq<u8>, time: int| #[trigger]
            weight(folded_all(input), key, value, time) == weight(input, key, value, time) by {
            assert(weight(folded_all(input.drop_last()), key, value, time) == weight(
                input.drop_last(),
                key,
                value,
                time,
            ));
        }
    }
}

/// Collections that give every fact the same weight have the same
/// consolidated form.
pub proof fn lemma_consolidation_same(a: Seq<Update>, b: Seq<Update>)
    requires
        forall|key: Seq<u8>, value: Seq<u8>, time: int|
            #[trigger] weight(a, key, value, time) == weight(b, key, value, time),
    ensures
        consolidation(a) == consolidation(b),
{
    lemma_consolidation_exists(a);
    lemma_consolidation_by_weight(a, b, consolidation(a));
}

/// The update that a triple `((key, value), time, diff)` stands for.
pub open spec fn triple_update(triple: ((Vec<u8>, Vec<u8>), i64, i128)) -> Update {
    Update {
        key: triple.0.0@,
        value: triple.0.1@,
        time: triple.1 as int,
        diff: triple.2 as int,
    }
}

/// The updates that a sequence of triples stands for.
pub open spec fn triples_view(triples: Seq<((Vec<u8>, Vec<u8>), i64, i128)>) -> Seq<Update> {
    triples.map_values(|triple: ((Vec<u8>, Vec<u8>), i64, i128)| triple_update(triple))
}

/// The update that a pair `((key, value), diff)` stands for. A pair carries
/// no time; it stands at time zero.
pub open spec fn pair_update(pair: ((Vec<u8>, Vec<u8>), i128)) -> Update {
    Update { key: pair.0.0@, value: pair.0.1@, time: 0, diff: pair.1 as int }
}

/// The updates that a sequence of pairs stands for.
pub open spec fn pairs_view(pairs: Seq<((Vec<u8>, Vec<u8>), i128)>) -> Seq<Update> {
    pairs.map_values(|pair: ((Vec<u8>, Vec<u8>), i128)| pair_update(pair))
}

/// Whether every diff of the triples is a 64-bit number.
pub open spec fn narrow_triples(triples: Seq<((Vec<u8>, Vec<u8>), i64, i128)>) -> bool {
    forall|i: int| 0 <= i < triples.len() ==> i64::MIN <= (#[trigger] triples[i]).2 <= i64::MAX
}

/// Whether every diff of the pairs is a 64-bit number.
pub open spec fn narrow_pairs(pairs: Seq<((Vec<u8>, Vec<u8>), i128)>) -> bool {
    forall|i: int| 0 <= i < pairs.len() ==> i64::MIN <= (#[trigger] pairs[i]).1 <= i64::MAX
}

/// `differential_dataflow::consolidation::consolidate_updates`, on byte
/// strings with 128-bit diffs.
///
/// Not proved here: that the call sorts the triples by `(key, value)` and
/// then by time, in the order the standard library gives byte vectors and
/// integers, replaces each run of one `(key, value, time)` by one triple
/// that carries the sum of the run's diffs, and drops the runs whose sum is
/// zero. The diffs that go in must be 64-bit numbers: a vector cannot hold so
/// many of them that their sum leaves the 128-bit range, so the additions
/// inside the call cannot overflow.
#[verifier::external_body]
pub(crate) fn consolidate_updates(updates: &mut Vec<((Vec<u8>, Vec<u8>), i64, i128)>)
    requires
        narrow_triples(old(updates)@),
    ensures
        consolidates(triples_view(old(updates)@), triples_view(final(updates)@)),
{
    differential_dataflow::consolidation::consolidate_updates(updates)
}

/// `differential_dataflow::consolidation::consolidate`, on byte strings with
/// 128-bit diffs.
///
/// Not proved here: that the call sorts the pairs by `(key, value)`, in the
/// order the standard library gives byte vectors, replaces each run of one
/// `(key, value)` by one pair that carries the sum of the run's diffs, and
/// drops the runs whose sum is zero. The diffs that go in must be 64-bit
/// numbers, so that the additions inside the call cannot overflow.
#[verifier::external_body]
pub(crate) fn consolidate(updates: &mut Vec<((Vec<u8>, Vec<u8>), i128)>)
    requires
        narrow_pairs(old(updates)@),
    ensures
        consolidates(pairs_view(old(updates)@), pairs_view(final(updates)@)),
{
    differential_dataflow::consolidation::consolidate(updates)
}

} // verus!
