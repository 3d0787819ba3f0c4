//! The store: named arrangements, each with its frontiers and its rows.
//!
//! A stash holds what the four relations of its backing file hold: which
//! names are registered and under which ids, the rows of every arrangement,
//! and one `since` and one `upper` per arrangement. Every operation takes the
//! store from one well-formed state to the next, or fails and changes
//! nothing.

use vstd::prelude::*;
use crate::consolidation::{
    consolidate_updates, consolidates, consolidation, is_consolidated, lemma_before_irreflexive,
    lemma_consolidated_weight, lemma_consolidation_is, lemma_weight_absent, lemma_weight_concat,
    lemma_weight_push, lemma_weight_remove, lemma_weight_single, lemma_weight_update,
    lemma_consolidation_exists, lemma_weight_witness, narrow_triples, share, triple_update,
    triples_view, weight, Update,
};
use crate::error::{StashError, StashErrorKind};
use crate::frontier::{FrontierOp, FrontierPair, Frontiers};
use crate::lexical::bytes_eq;
use crate::text::signed_decimal;

verus! {

/// The identifier that marks a backing store as a stash.
pub const APPLICATION_ID: i32 = 0x0872_e898;

/// One stored row: `diff` copies of `(key, value)` at `time`.
#[derive(Debug)]
pub struct Row {
    pub key: Vec<u8>,
    pub value: Vec<u8>,
    pub time: i64,
    pub diff: i64,
}

impl View for Row {
    type V = Update;

    open spec fn view(&self) -> Update {
        Update { key: self.key@, value: self.value@, time: self.time as int, diff: self.diff as int }
    }
}

impl Clone for Row {
    fn clone(&self) -> (copy: Row)
        ensures
            copy@ == self@,
    {
        Row { key: self.key.clone(), value: self.value.clone(), time: self.time, diff: self.diff }
    }
}

/// The updates that a sequence of rows stands for.
pub open spec fn rows_view(rows: Seq<Row>) -> Seq<Update> {
    rows.map_values(|row: Row| row@)
}

/// The updates with every time below `since` moved forward to `since`.
pub open spec fn advance(updates: Seq<Update>, since: int) -> Seq<Update> {
    updates.map_values(
        |u: Update|
            Update {
                time: if u.time < since {
                    since
                } else {
                    u.time
                },
                ..u
            },
    )
}

/// The updates of `key`, in their order; all updates where no key is given.
pub open spec fn selected(updates: Seq<Update>, key: Option<Seq<u8>>) -> Seq<Update>
    decreases updates.len(),
{
    if updates.len() == 0 {
        updates
    } else {
        let rest = selected(updates.drop_last(), key);
        if key is None || key == Some(updates.last().key) {
            rest.push(updates.last())
        } else {
            rest
        }
    }
}

/// No two updates speak of the same `(key, value, time)`.
pub open spec fn distinct_facts(updates: Seq<Update>) -> bool {
    forall|i: int, j: int|
        0 <= i < j < updates.len() ==> !(#[trigger] updates[i]).same_fact(#[trigger] updates[j])
}

/// No update has diff zero.
pub open spec fn no_zero_diff(updates: Seq<Update>) -> bool {
    forall|i: int| 0 <= i < updates.len() ==> (#[trigger] updates[i]).diff != 0
}

/// Whether every diff is a 64-bit number.
pub open spec fn narrow(updates: Seq<Update>) -> bool {
    forall|i: int| 0 <= i < updates.len() ==> i64::MIN <= (#[trigger] updates[i]).diff <= i64::MAX
}

/// The weight that `(key, value)` at the time of `entries[at]` has once
/// `entries[..= at]` have been added to `rows`.
pub open spec fn running_weight(rows: Seq<Update>, entries: Seq<Update>, at: int) -> int {
    weight(rows + entries.take(at + 1), entries[at].key, entries[at].value, entries[at].time)
}

/// Whether adding `entries` to `rows` one by one takes some weight out of
/// the 64-bit range.
pub open spec fn write_overflows(rows: Seq<Update>, entries: Seq<Update>) -> bool {
    exists|at: int|
        0 <= at < entries.len() && !(i64::MIN <= #[trigger] running_weight(rows, entries, at)
            <= i64::MAX)
}

/// What one arrangement holds.
pub struct ArrangementView {
    pub name: Seq<char>,
    pub frontiers: FrontierPair,
    pub rows: Seq<Update>,
}

impl ArrangementView {
    /// An arrangement is well formed when `since` has not passed `upper`,
    /// no `(key, value, time)` has two rows, no row has diff zero, and
    /// every diff is a 64-bit number.
    pub open spec fn wf(self) -> bool {
        &&& self.frontiers.since <= self.frontiers.upper
        &&& distinct_facts(self.rows)
        &&& no_zero_diff(self.rows)
        &&& narrow(self.rows)
    }

    /// What a read of the whole arrangement reports: the rows with their
    /// times advanced to `since`, consolidated.
    pub open spec fn contents(self) -> Seq<Update> {
        consolidation(advance(self.rows, self.frontiers.since))
    }

    /// What a read has before it: the rows of `key`, or all rows, with their
    /// times advanced to `since`.
    pub open spec fn visible(self, key: Option<Seq<u8>>) -> Seq<Update> {
        advance(selected(self.rows, key), self.frontiers.since)
    }

    /// What a read of one key, or of the whole arrangement, reports.
    pub open spec fn contents_of(self, key: Option<Seq<u8>>) -> Seq<Update> {
        consolidation(self.visible(key))
    }

    /// The arrangement as it is created: no rows, both frontiers at zero.
    pub open spec fn empty(name: Seq<char>) -> ArrangementView {
        ArrangementView { name, frontiers: FrontierPair::initial(), rows: Seq::empty() }
    }
}

/// What the backing store holds of one arrangement.
#[derive(Debug)]
pub struct StoredArrangement {
    pub id: i64,
    pub name: String,
    pub since: i64,
    pub upper: i64,
    pub rows: Vec<Row>,
}

/// The updates that have a diff other than zero, in their order.
pub open spec fn without_zeros(updates: Seq<Update>) -> Seq<Update>
    decreases updates.len(),
{
    if updates.len() == 0 {
        updates
    } else {
        let rest = without_zeros(updates.drop_last());
        if updates.last().diff != 0 {
            rest.push(updates.last())
        } else {
            rest
        }
    }
}

impl View for StoredArrangement {
    type V = ArrangementView;

    /// The arrangement that the stored one opens as: its rows of diff zero
    /// are left out.
    open spec fn view(&self) -> ArrangementView {
        ArrangementView {
            name: self.name@,
            frontiers: FrontierPair { since: self.since as int, upper: self.upper as int },
            rows: without_zeros(rows_view(self.rows@)),
        }
    }
}

impl StoredArrangement {
    /// Whether the stored arrangement is one of a stash: its since frontier
    /// has not passed its upper frontier, and no `(key, value, time)` has
    /// two rows.
    pub open spec fn ok(&self) -> bool {
        self.since <= self.upper && distinct_facts(rows_view(self.rows@))
    }
}

/// Whether what is stored is a state of a stash: the ids count up from one,
/// every arrangement is one of a stash, and no name stands twice.
pub open spec fn stored_ok(stored: Seq<StoredArrangement>) -> bool {
    &&& stored.len() <= i64::MAX
    &&& forall|i: int| 0 <= i < stored.len() ==> (#[trigger] stored[i]).id == i + 1 && stored[i].ok()
    &&& forall|i: int, j: int|
        0 <= i < j < stored.len() ==> (#[trigger] stored[i]).name@ != (#[trigger] stored[j]).name@
}

/// The arrangements that what is stored opens as.
pub open spec fn restored(stored: Seq<StoredArrangement>) -> Seq<ArrangementView> {
    stored.map_values(|record: StoredArrangement| record@)
}

struct Arrangement {
    name: String,
    frontiers: Frontiers,
    rows: Vec<Row>,
}

impl View for Arrangement {
    type V = ArrangementView;

    closed spec fn view(&self) -> ArrangementView {
        ArrangementView { name: self.name@, frontiers: self.frontiers@, rows: rows_view(self.rows@) }
    }
}

/// A metadata store that manages any number of named arrangements.
pub struct Stash {
    arrangements: Vec<Arrangement>,
}

impl View for Stash {
    type V = Seq<ArrangementView>;

    closed spec fn view(&self) -> Seq<ArrangementView> {
        self.arrangements@.map_values(|a: Arrangement| a@)
    }
}

/// What to do with a backing store whose identifier has been read.
#[derive(Clone, Copy, Debug, PartialEq, Eq, Structural)]
pub enum OpenAction {
    /// The store is fresh: write the identifier and create the relations.
    Initialize,
    /// The store is a stash already: use what it holds.
    Load,
}

/// Decides from the identifier that a backing store carries whether the
/// store is fresh, is a stash, or belongs to something else.
pub fn check_application_id(application_id: i32) -> (r: Result<OpenAction, StashError>)
    ensures
        match r {
            Ok(OpenAction::Initialize) => application_id == 0,
            Ok(OpenAction::Load) => application_id == APPLICATION_ID,
            Err(e) => application_id != 0 && application_id != APPLICATION_ID && e.kind()
                == StashErrorKind::InvalidApplicationId && e.spec_message()
                == "invalid application id: "@ + signed_decimal(application_id as int),
        },
{
    if application_id == 0 {
        Ok(OpenAction::Initialize)
    } else if application_id == APPLICATION_ID {
        Ok(OpenAction::Load)
    } else {
        Err(StashError::invalid_application_id(application_id))
    }
}

impl Stash {
    /// Whether `id` names an arrangement of this store. Ids are handed out
    /// in order, starting at one.
    pub open spec fn has(&self, id: int) -> bool {
        1 <= id <= self@.len()
    }

    /// The arrangement with the given id.
    pub open spec fn of(&self, id: int) -> ArrangementView
        recommends
            self.has(id),
    {
        self@[id - 1]
    }

    /// Whether `name` is registered.
    pub open spec fn registered(&self, name: Seq<char>) -> bool {
        exists|id: int| self.has(id) && (#[trigger] self.of(id)).name == name
    }

    /// The store is well formed when every arrangement is, no name is
    /// registered twice, and the ids fit in 64 bits.
    pub open spec fn wf(&self) -> bool {
        &&& self@.len() <= i64::MAX
        &&& forall|i: int| 0 <= i < self@.len() ==> (#[trigger] self@[i]).wf()
        &&& forall|i: int, j: int|
            0 <= i < j < self@.len() ==> (#[trigger] self@[i]).name != (#[trigger] self@[j]).name
    }

    /// Whether `other` differs from this store in the arrangement `id` at
    /// most.
    pub open spec fn same_but(&self, other: &Stash, id: int) -> bool {
        &&& self@.len() == other@.len()
        &&& forall|i: int| 1 <= i <= self@.len() && i != id ==> self.of(i) == other.of(i)
    }

    /// Opens the store behind a backing file that carries `application_id`
    /// and holds `stored`.
    ///
    /// A fresh file carries zero and opens as a store with no arrangement;
    /// what it holds is not looked at. A file that carries the identifier
    /// of a stash opens as a store that holds what the file holds: every
    /// arrangement under its id, with its name, its frontiers and its rows,
    /// rows of diff zero left out. Any other identifier is refused, and so
    /// is a file whose arrangements are no state of a stash.
    pub fn open(application_id: i32, stored: Vec<StoredArrangement>) -> (r: Result<Stash, StashError>)
        ensures
            match r {
                Ok(stash) => stash.wf() && if application_id == 0 {
                    stash@.len() == 0
                } else {
                    application_id == APPLICATION_ID && stored_ok(stored@) && stash@ == restored(stored@)
                },
                Err(e) => if application_id != 0 && application_id != APPLICATION_ID {
                    e.kind() == StashErrorKind::InvalidApplicationId && e.spec_message()
                        == "invalid application id: "@ + signed_decimal(application_id as int)
                } else {
                    application_id == APPLICATION_ID && !stored_ok(stored@) && e.kind()
                        == StashErrorKind::Corrupt
                },
            },
    {
        match check_application_id(application_id) {
            Ok(OpenAction::Initialize) => Ok(Stash { arrangements: Vec::new() }),
            Ok(OpenAction::Load) => Stash::restore(&stored),
            Err(e) => Err(e),
        }
    }

    /// The store that holds what was stored, if that is a state of a stash.
    #[verifier::loop_isolation(false)]
    fn restore(stored: &Vec<StoredArrangement>) -> (r: Result<Stash, StashError>)
        ensures
            match r {
                Ok(stash) => stash.wf() && stored_ok(stored@) && stash@ == restored(stored@),
                Err(e) => !stored_ok(stored@) && e.kind() == StashErrorKind::Corrupt,
            },
    {
        if stored.len() as u64 > i64::MAX as u64 {
            return Err(corrupt("more arrangements than ids"));
        }
        let mut arrangements: Vec<Arrangement> = Vec::new();
        let mut i: usize = 0;
        while i < stored.len()
            invariant
                i <= stored.len(),
                arrangements@.len() == i,
                forall|j: int| 0 <= j < i ==> (#[trigger] arrangements@[j])@ == stored@[j]@,
                forall|j: int| 0 <= j < i ==> (#[trigger] stored@[j]).id == j + 1 && stored@[j].ok(),
                forall|j: int, k: int|
                    0 <= j < k < i ==> (#[trigger] stored@[j]).name@ != (#[trigger] stored@[k]).name@,
            decreases stored.len() - i,
        {
            let record = &stored[i];
            if record.id != (i as i64) + 1 {
                return Err(corrupt("an arrangement id is out of order"));
            }
            let frontiers = match Frontiers::restored(record.since, record.upper) {
                Some(frontiers) => frontiers,
                None => {
                    assert(!stored@[i as int].ok());
                    return Err(corrupt("a since frontier lies beyond its upper frontier"));
                },
            };
            let mut j: usize = 0;
            while j < i
                invariant
                    j <= i,
                    forall|k: int| 0 <= k < j ==> (#[trigger] stored@[k]).name@ != record.name@,
                decreases i - j,
            {
                if arrangements[j].name == record.name {
                    assert(arrangements@[j as int]@ == stored@[j as int]@);
                    assert(stored@[j as int].name@ == stored@[i as int].name@);
                    return Err(corrupt("a name is registered twice"));
                }
                assert(arrangements@[j as int]@ == stored@[j as int]@);
                j += 1;
            }
            let rows = match restored_rows(&record.rows) {
                Some(rows) => rows,
                None => {
                    assert(!stored@[i as int].ok());
                    return Err(corrupt("a row is stored twice"));
                },
            };
            arrangements.push(Arrangement { name: record.name.clone(), frontiers, rows });
            i += 1;
        }
        let stash = Stash { arrangements };
        proof {
            assert(stash@ =~= restored(stored@));
            assert forall|j: int| 0 <= j < stash@.len() implies (#[trigger] stash@[j]).wf() by {
                assert(arrangements@[j]@ == stored@[j]@);
                assert(stored@[j].ok());
                lemma_without_zeros(rows_view(stored@[j].rows@));
                lemma_rows_narrow(stored@[j].rows@);
            }
            assert forall|j: int, k: int| 0 <= j < k < stash@.len() implies (#[trigger] stash@[j]).name != (
            #[trigger] stash@[k]).name by {
                assert(stored@[j].name@ != stored@[k].name@);
            }
        }
        Ok(stash)
    }

    /// How many arrangements are registered.
    pub fn len(&self) -> (n: usize)
        ensures
            n == self@.len(),
    {
        self.arrangements.len()
    }

    /// The id under which `name` is registered, if it is.
    pub fn find(&self, name: &str) -> (r: Option<i64>)
        requires
            self.wf(),
        ensures
            match r {
                Some(id) => self.has(id as int) && self.of(id as int).name == name@,
                None => !self.registered(name@),
            },
    {
        let wanted = String::from_str(name);
        let mut i: usize = 0;
        while i < self.arrangements.len()
            invariant
                self.wf(),
                wanted@ == name@,
                i <= self.arrangements.len(),
                forall|j: int| 0 <= j < i ==> (#[trigger] self@[j]).name != name@,
            decreases self.arrangements.len() - i,
        {
            if self.arrangements[i].name == wanted {
                return Some((i + 1) as i64);
            }
            i += 1;
        }
        assert forall|id: int| self.has(id) implies (#[trigger] self.of(id)).name != name@ by {
            assert(self@[id - 1].name != name@);
        }
        None
    }

    /// Registers `name` if it is not registered yet, with no rows and both
    /// frontiers at zero, and returns the id that it is registered under.
    ///
    /// Fails only when the ids are used up; nothing changes then.
    pub fn register(&mut self, name: &str) -> (r: Result<i64, StashError>)
        requires
            old(self).wf(),
        ensures
            final(self).wf(),
            match r {
                Ok(id) => final(self).has(id as int) && final(self).of(id as int).name == name@ && if old(self).registered(name@) {
                    final(self)@ == old(self)@
                } else {
                    final(self)@ == old(self)@.push(ArrangementView::empty(name@)) && id == old(self)@.len()
                        + 1
                },
                Err(e) => final(self)@ == old(self)@ && !old(self).registered(name@) && old(self)@.len()
                    == i64::MAX && e.kind() == StashErrorKind::Overflow,
            },
    {
        match self.find(name) {
            Some(id) => {
                proof {
                    assert(self.of(id as int).name == name@);
                }
                Ok(id)
            },
            None => {
                if self.arrangements.len() as u64 >= i64::MAX as u64 {
                    return Err(StashError::new(StashErrorKind::Overflow, "arrangement ids are used up"));
                }
                let created = Arrangement {
                    name: String::from_str(name),
                    frontiers: Frontiers::new(),
                    rows: Vec::new(),
                };
                assert(created@ =~= ArrangementView::empty(name@)) by {
                    assert(rows_view(created.rows@) =~= Seq::<Update>::empty());
                }
                self.arrangements.push(created);
                assert(self@ =~= old(self)@.push(ArrangementView::empty(name@)));
                assert forall|i: int, j: int| 0 <= i < j < self@.len() implies (#[trigger] self@[i]).name
                    != (#[trigger] self@[j]).name by {
                    if j == self@.len() - 1 {
                        assert(old(self).has(i + 1));
                        assert(old(self).of(i + 1).name != name@);
                    }
                }
                Ok(self.arrangements.len() as i64)
            },
        }
    }

    /// The name under which `id` is registered.
    pub fn name(&self, id: i64) -> (r: Result<String, StashError>)
        ensures
            match r {
                Ok(name) => self.has(id as int) && name@ == self.of(id as int).name,
                Err(e) => !self.has(id as int) && e.kind() == StashErrorKind::UnknownArrangement,
            },
    {
        match self.index_of(id) {
            Some(i) => Ok(self.arrangements[i].name.clone()),
            None => Err(unknown_arrangement()),
        }
    }

    fn index_of(&self, id: i64) -> (r: Option<usize>)
        ensures
            match r {
                Some(i) => self.has(id as int) && i == id - 1 && i < self.arrangements.len(),
                None => !self.has(id as int),
            },
    {
        if 1 <= id && (id as u64) <= (self.arrangements.len() as u64) {
            Some((id - 1) as usize)
        } else {
            None
        }
    }

    /// The compaction frontier of the arrangement `id`.
    pub fn since(&self, id: i64) -> (r: Result<i64, StashError>)
        ensures
            match r {
                Ok(since) => self.has(id as int) && since == self.of(id as int).frontiers.since,
                Err(e) => !self.has(id as int) && e.kind() == StashErrorKind::UnknownArrangement,
            },
    {
        match self.index_of(id) {
            Some(i) => Ok(self.arrangements[i].frontiers.since()),
            None => Err(unknown_arrangement()),
        }
    }

    /// The definiteness frontier of the arrangement `id`.
    pub fn upper(&self, id: i64) -> (r: Result<i64, StashError>)
        ensures
            match r {
                Ok(upper) => self.has(id as int) && upper == self.of(id as int).frontiers.upper,
                Err(e) => !self.has(id as int) && e.kind() == StashErrorKind::UnknownArrangement,
            },
    {
        match self.index_of(id) {
            Some(i) => Ok(self.arrangements[i].frontiers.upper()),
            None => Err(unknown_arrangement()),
        }
    }

    /// Moves the upper frontier of the arrangement `id` forward to `upper`.
    ///
    /// Fails, and changes nothing, when `id` is unknown or `upper` is below
    /// the current upper frontier.
    pub fn seal(&mut self, id: i64, upper: i64) -> (r: Result<(), StashError>)
        requires
            old(self).wf(),
        ensures
            final(self).wf(),
            final(self).same_but(old(self), id as int),
            match r {
                Ok(_) => old(self).has(id as int) && old(self).of(id as int).frontiers.upper <= upper
                    && final(self).of(id as int) == (ArrangementView {
                    frontiers: FrontierPair { upper: upper as int, ..old(self).of(id as int).frontiers },
                    ..old(self).of(id as int)
                }),
                Err(e) => final(self)@ == old(self)@ && if old(self).has(id as int) {
                    upper < old(self).of(id as int).frontiers.upper && e.kind()
                        == StashErrorKind::CausalityViolation
                } else {
                    e.kind() == StashErrorKind::UnknownArrangement
                },
            },
    {
        match self.index_of(id) {
            Some(i) => {
                assert(old(self)@[i as int].wf());
                let r = self.arrangements[i].frontiers.seal(upper);
                proof {
                    assert(self@.len() == old(self)@.len());
                    assert forall|j: int| 0 <= j < self@.len() && j != i implies self@[j] == old(self)@[j] by {}
                    assert(self@[i as int] == (ArrangementView {
                        frontiers: old(self)@[i as int].frontiers.step(FrontierOp::Seal(upper as int)),
                        ..old(self)@[i as int]
                    }));
                    if r is Err {
                        assert(self@ =~= old(self)@);
                    }
                }
                r
            },
            None => Err(unknown_arrangement()),
        }
    }

    /// Moves the since frontier of the arrangement `id` forward to `since`.
    ///
    /// Fails, and changes nothing, when `id` is unknown or `since` is not
    /// between the current since frontier and the upper frontier.
    pub fn compact(&mut self, id: i64, since: i64) -> (r: Result<(), StashError>)
        requires
            old(self).wf(),
        ensures
            final(self).wf(),
            final(self).same_but(old(self), id as int),
            match r {
                Ok(_) => old(self).has(id as int) && old(self).of(id as int).frontiers.since <= since
                    <= old(self).of(id as int).frontiers.upper && final(self).of(id as int) == (
                ArrangementView {
                    frontiers: FrontierPair { since: since as int, ..old(self).of(id as int).frontiers },
                    ..old(self).of(id as int)
                }),
                Err(e) => final(self)@ == old(self)@ && if old(self).has(id as int) {
                    !(old(self).of(id as int).frontiers.since <= since <= old(self).of(
                        id as int,
                    ).frontiers.upper) && e.kind() == StashErrorKind::CausalityViolation
                } else {
                    e.kind() == StashErrorKind::UnknownArrangement
                },
            },
    {
        match self.index_of(id) {
            Some(i) => {
                assert(old(self)@[i as int].wf());
                let r = self.arrangements[i].frontiers.compact(since);
                proof {
                    assert(self@.len() == old(self)@.len());
                    assert forall|j: int| 0 <= j < self@.len() && j != i implies self@[j] == old(self)@[j] by {}
                    assert(self@[i as int] == (ArrangementView {
                        frontiers: old(self)@[i as int].frontiers.step(FrontierOp::Compact(since as int)),
                        ..old(self)@[i as int]
                    }));
                    if r is Err {
                        assert(self@ =~= old(self)@);
                    }
                }
                r
            },
            None => Err(unknown_arrangement()),
        }
    }
}

/// The position of the row of `(key, value)` at `time`, if there is one.
fn position(rows: &Vec<Row>, key: &[u8], value: &[u8], time: i64) -> (r: Option<usize>)
    ensures
        match r {
            Some(at) => at < rows.len() && rows[at as int]@.at(key@, value@, time as int),
            None => forall|i: int| 0 <= i < rows.len() ==> !(#[trigger] rows_view(rows@)[i]).at(
                key@,
                value@,
                time as int,
            ),
        },
{
    let mut i: usize = 0;
    while i < rows.len()
        invariant
            i <= rows.len(),
            forall|j: int| 0 <= j < i ==> !(#[trigger] rows_view(rows@)[j]).at(key@, value@, time as int),
        decreases rows.len() - i,
    {
        let row = &rows[i];
        if row.time == time && bytes_eq(row.key.as_slice(), key) && bytes_eq(row.value.as_slice(), value) {
            return Some(i);
        }
        i += 1;
    }
    None
}

/// The rows as triples with 128-bit diffs: those of `key`, or all of them,
/// with every time below `since` moved forward to `since`.
fn advanced_triples(rows: &Vec<Row>, key: Option<&[u8]>, since: i64) -> (triples: Vec<
    ((Vec<u8>, Vec<u8>), i64, i128),
>)
    ensures
        narrow_triples(triples@),
        triples_view(triples@) == advance(
            selected(rows_view(rows@), key_view(key)),
            since as int,
        ),
{
    let mut triples: Vec<((Vec<u8>, Vec<u8>), i64, i128)> = Vec::new();
    let mut i: usize = 0;
    let ghost all = rows_view(rows@);
    let ghost k = key_view(key);
    assert(all.take(0) =~= Seq::<Update>::empty());
    assert(triples_view(triples@) =~= advance(selected(all.take(0), k), since as int));
    while i < rows.len()
        invariant
            i <= rows.len(),
            all == rows_view(rows@),
            k == key_view(key),
            narrow_triples(triples@),
            triples_view(triples@) == advance(selected(all.take(i as int), k), since as int),
        decreases rows.len() - i,
    {
        let row = &rows[i];
        let wanted = match key {
            None => true,
            Some(bytes) => bytes_eq(row.key.as_slice(), bytes),
        };
        proof {
            assert(all.take(i + 1).drop_last() =~= all.take(i as int));
            assert(all.take(i + 1).last() == row@);
        }
        if wanted {
            let time = if row.time < since {
                since
            } else {
                row.time
            };
            let ghost before = triples@;
            triples.push(((row.key.clone(), row.value.clone()), time, row.diff as i128));
            proof {
                let chosen = selected(all.take(i as int), k);
                assert(selected(all.take(i + 1), k) == chosen.push(row@));
                assert(triples_view(triples@) =~= triples_view(before).push(triple_update(triples@.last())));
                assert(advance(chosen.push(row@), since as int) =~= advance(chosen, since as int).push(
                    triple_update(triples@.last()),
                ));
            }
        }
        i += 1;
    }
    assert(all.take(rows.len() as int) =~= all);
    triples
}

/// The key that a read is restricted to, as bytes.
pub open spec fn key_view(key: Option<&[u8]>) -> Option<Seq<u8>> {
    match key {
        Some(bytes) => Some(bytes@),
        None => None,
    }
}

/// The triples as rows, if every diff is a 64-bit number.
fn narrowed_rows(triples: &Vec<((Vec<u8>, Vec<u8>), i64, i128)>) -> (r: Option<Vec<Row>>)
    ensures
        match r {
            Some(rows) => rows_view(rows@) == triples_view(triples@),
            None => !narrow(triples_view(triples@)),
        },
{
    let mut rows: Vec<Row> = Vec::new();
    let mut i: usize = 0;
    assert(rows_view(rows@) =~= triples_view(triples@).take(0));
    while i < triples.len()
        invariant
            i <= triples.len(),
            rows_view(rows@) == triples_view(triples@).take(i as int),
        decreases triples.len() - i,
    {
        let triple = &triples[i];
        let diff: i128 = triple.2;
        if diff < i64::MIN as i128 || diff > i64::MAX as i128 {
            assert(!(i64::MIN <= triples_view(triples@)[i as int].diff <= i64::MAX));
            return None;
        }
        let ghost before = rows@;
        rows.push(Row { key: triple.0.0.clone(), value: triple.0.1.clone(), time: triple.1, diff: diff as i64 });
        proof {
            assert(rows_view(rows@) =~= rows_view(before).push(rows@.last()@));
            assert(triples_view(triples@).take(i + 1) =~= triples_view(triples@).take(i as int).push(
                triples_view(triples@)[i as int],
            ));
        }
        i += 1;
    }
    assert(triples_view(triples@).take(triples.len() as int) =~= triples_view(triples@));
    Some(rows)
}

impl Stash {
    /// The rows of the arrangement `id` as they are stored, in no particular
    /// order.
    pub fn rows(&self, id: i64) -> (r: Result<Vec<Row>, StashError>)
        ensures
            match r {
                Ok(rows) => self.has(id as int) && rows_view(rows@) == self.of(id as int).rows,
                Err(e) => !self.has(id as int) && e.kind() == StashErrorKind::UnknownArrangement,
            },
    {
        match self.index_of(id) {
            Some(i) => Ok(copy_rows(&self.arrangements[i].rows)),
            None => Err(unknown_arrangement()),
        }
    }

    /// Reads the arrangement `id`: its rows, or those of `key` alone, with
    /// every time below `since` moved forward to `since`, consolidated. The
    /// rows come ordered by `(key, value, time)` and none has diff zero.
    ///
    /// Fails when `id` is unknown, or when a consolidated diff is no 64-bit
    /// number.
    pub fn read(&self, id: i64, key: Option<&[u8]>) -> (r: Result<Vec<Row>, StashError>)
        ensures
            match r {
                Ok(rows) => self.has(id as int) && rows_view(rows@) == self.of(id as int).contents_of(
                    key_view(key),
                ) && consolidates(self.of(id as int).visible(key_view(key)), rows_view(rows@)),
                Err(e) => if self.has(id as int) {
                    !narrow(self.of(id as int).contents_of(key_view(key))) && e.kind()
                        == StashErrorKind::Overflow
                } else {
                    e.kind() == StashErrorKind::UnknownArrangement
                },
            },
    {
        match self.index_of(id) {
            Some(i) => {
                let arrangement = &self.arrangements[i];
                let since = arrangement.frontiers.since();
                let mut triples = advanced_triples(&arrangement.rows, key, since);
                let ghost input = triples_view(triples@);
                consolidate_updates(&mut triples);
                proof {
                    lemma_consolidation_is(input, triples_view(triples@));
                    assert(input == advance(
                        selected(self.of(id as int).rows, key_view(key)),
                        self.of(id as int).frontiers.since,
                    ));
                }
                match narrowed_rows(&triples) {
                    Some(rows) => Ok(rows),
                    None => Err(StashError::new(StashErrorKind::Overflow, "a consolidated diff is out of range")),
                }
            },
            None => Err(unknown_arrangement()),
        }
    }
}

/// Where no fact has two rows, a row carries the whole weight of its fact.
pub proof fn lemma_row_weight(rows: Seq<Update>, at: int)
    requires
        distinct_facts(rows),
        0 <= at < rows.len(),
    ensures
        weight(rows, rows[at].key, rows[at].value, rows[at].time) == rows[at].diff,
{
    let row = rows[at];
    assert forall|i: int| 0 <= i < rows.len() && i != at implies !(#[trigger] rows[i]).at(
        row.key,
        row.value,
        row.time,
    ) by {
        if rows[i].at(row.key, row.value, row.time) {
            if i < at {
                assert(rows[i].same_fact(rows[at]));
            } else {
                assert(rows[at].same_fact(rows[i]));
            }
        }
    }
    lemma_weight_single(rows, at, row.key, row.value, row.time);
}

/// Adds one entry to the rows: its diff goes into the row of its
/// `(key, value, time)` if there is one, and into a new row if not; a row
/// whose diff has become zero is removed. Reports whether the new diff is a
/// 64-bit number; if it is not, the rows stay as they are.
fn upsert(rows: &mut Vec<Row>, entry: &Row) -> (fits: bool)
    requires
        distinct_facts(rows_view(old(rows)@)),
        no_zero_diff(rows_view(old(rows)@)),
    ensures
        fits == (i64::MIN <= weight(
            rows_view(old(rows)@),
            entry@.key,
            entry@.value,
            entry@.time,
        ) + entry@.diff <= i64::MAX),
        distinct_facts(rows_view(final(rows)@)),
        no_zero_diff(rows_view(final(rows)@)),
        fits ==> forall|key: Seq<u8>, value: Seq<u8>, time: int| #[trigger]
            weight(rows_view(final(rows)@), key, value, time) == weight(
                rows_view(old(rows)@),
                key,
                value,
                time,
            ) + share(entry@, key, value, time),
        !fits ==> rows_view(final(rows)@) == rows_view(old(rows)@),
{
    let ghost before = rows_view(rows@);
    let ghost e = entry@;
    match position(rows, entry.key.as_slice(), entry.value.as_slice(), entry.time) {
        Some(at) => {
            proof {
                lemma_row_weight(before, at as int);
            }
            match rows[at].diff.checked_add(entry.diff) {
                None => false,
                Some(sum) => {
                    if sum == 0 {
                        rows.remove(at);
                        proof {
                            let after = rows_view(rows@);
                            assert(after =~= before.remove(at as int));
                            assert forall|key: Seq<u8>, value: Seq<u8>, time: int| #[trigger]
                                weight(after, key, value, time) == weight(before, key, value, time) + share(
                                    e,
                                    key,
                                    value,
                                    time,
                                ) by {
                                lemma_weight_remove(before, at as int, key, value, time);
                            }
                        }
                    } else {
                        rows[at].diff = sum;
                        proof {
                            let after = rows_view(rows@);
                            let new = Update { diff: sum as int, ..before[at as int] };
                            assert(after =~= before.update(at as int, new));
                            assert forall|key: Seq<u8>, value: Seq<u8>, time: int| #[trigger]
                                weight(after, key, value, time) == weight(before, key, value, time) + share(
                                    e,
                                    key,
                                    value,
                                    time,
                                ) by {
                                lemma_weight_update(before, at as int, new, key, value, time);
                            }
                        }
                    }
                    true
                },
            }
        },
        None => {
            proof {
                lemma_weight_absent(before, e.key, e.value, e.time);
            }
            if entry.diff != 0 {
                rows.push(entry.clone());
                proof {
                    let after = rows_view(rows@);
                    assert(after =~= before.push(e));
                    assert forall|key: Seq<u8>, value: Seq<u8>, time: int| #[trigger]
                        weight(after, key, value, time) == weight(before, key, value, time) + share(
                            e,
                            key,
                            value,
                            time,
                        ) by {
                        lemma_weight_push(before, e, key, value, time);
                    }
                }
            }
            true
        },
    }
}

/// A copy of the rows.
fn copy_rows(stored: &Vec<Row>) -> (rows: Vec<Row>)
    ensures
        rows_view(rows@) == rows_view(stored@),
{
    let mut rows: Vec<Row> = Vec::new();
    let mut j: usize = 0;
    assert(rows_view(rows@) =~= rows_view(stored@).take(0));
    while j < stored.len()
        invariant
            j <= stored.len(),
            rows_view(rows@) == rows_view(stored@).take(j as int),
        decreases stored.len() - j,
    {
        let ghost before = rows@;
        rows.push(stored[j].clone());
        proof {
            assert(rows_view(rows@) =~= rows_view(before).push(rows@.last()@));
            assert(rows_view(stored@).take(j + 1) =~= rows_view(stored@).take(j as int).push(
                rows_view(stored@)[j as int],
            ));
        }
        j += 1;
    }
    assert(rows_view(stored@).take(stored.len() as int) =~= rows_view(stored@));
    rows
}

impl Stash {
    /// Adds `entries` to the arrangement `id`, all of them or none.
    ///
    /// Every entry must lie at or after the upper frontier. The diff of each
    /// entry is added to the row of its `(key, value, time)`, which is
    /// created if it is missing and removed if its diff becomes zero.
    ///
    /// Fails, and changes nothing, when `id` is unknown, when an entry lies
    /// below the upper frontier, or when a diff leaves the 64-bit range on
    /// the way.
    #[verifier::loop_isolation(false)]
    pub fn write(&mut self, id: i64, entries: &Vec<Row>) -> (r: Result<(), StashError>)
        requires
            old(self).wf(),
        ensures
            final(self).wf(),
            final(self).same_but(old(self), id as int),
            match r {
                Ok(_) => {
                    &&& old(self).has(id as int)
                    &&& forall|i: int|
                        0 <= i < entries.len() ==> old(self).of(id as int).frontiers.upper <= (
                        #[trigger] entries[i]).time
                    &&& !write_overflows(old(self).of(id as int).rows, rows_view(entries@))
                    &&& final(self).of(id as int).name == old(self).of(id as int).name
                    &&& final(self).of(id as int).frontiers == old(self).of(id as int).frontiers
                    &&& forall|key: Seq<u8>, value: Seq<u8>, time: int| #[trigger]
                        weight(final(self).of(id as int).rows, key, value, time) == weight(
                            old(self).of(id as int).rows,
                            key,
                            value,
                            time,
                        ) + weight(rows_view(entries@), key, value, time)
                },
                Err(e) => {
                    &&& final(self)@ == old(self)@
                    &&& if !old(self).has(id as int) {
                        e.kind() == StashErrorKind::UnknownArrangement
                    } else if exists|i: int|
                        0 <= i < entries.len() && (#[trigger] entries[i]).time < old(self).of(
                            id as int,
                        ).frontiers.upper {
                        e.kind() == StashErrorKind::CausalityViolation
                    } else {
                        e.kind() == StashErrorKind::Overflow && write_overflows(
                            old(self).of(id as int).rows,
                            rows_view(entries@),
                        )
                    }
                },
            },
    {
        let at = match self.index_of(id) {
            Some(at) => at,
            None => {
                return Err(unknown_arrangement());
            },
        };
        let ghost stored = self.of(id as int).rows;
        let ghost added = rows_view(entries@);
        assert(self@[at as int].wf());
        let mut i: usize = 0;
        while i < entries.len()
            invariant
                i <= entries.len(),
                at < self.arrangements.len(),
                forall|j: int|
                    0 <= j < i ==> self.arrangements[at as int].frontiers@.upper <= (#[trigger] entries[j]).time,
            decreases entries.len() - i,
        {
            if !self.arrangements[at].frontiers.admits(entries[i].time) {
                return Err(
                    StashError::new(StashErrorKind::CausalityViolation, "write below the upper frontier"),
                );
            }
            i += 1;
        }
        let mut work = copy_rows(&self.arrangements[at].rows);
        let mut j: usize = 0;
        proof {
            assert(stored + added.take(0) =~= stored);
        }
        while j < entries.len()
            invariant
                j <= entries.len(),
                added == rows_view(entries@),
                distinct_facts(rows_view(work@)),
                no_zero_diff(rows_view(work@)),
                forall|key: Seq<u8>, value: Seq<u8>, time: int| #[trigger]
                    weight(rows_view(work@), key, value, time) == weight(
                        stored + added.take(j as int),
                        key,
                        value,
                        time,
                    ),
                forall|k: int|
                    0 <= k < j ==> i64::MIN <= #[trigger] running_weight(stored, added, k) <= i64::MAX,
            decreases entries.len() - j,
        {
            let ghost before = rows_view(work@);
            let ghost e = added[j as int];
            proof {
                assert(e == entries[j as int]@);
                assert(stored + added.take(j + 1) =~= (stored + added.take(j as int)).push(e));
                lemma_weight_push(stored + added.take(j as int), e, e.key, e.value, e.time);
                assert(weight(before, e.key, e.value, e.time) == weight(
                    stored + added.take(j as int),
                    e.key,
                    e.value,
                    e.time,
                ));
            }
            let fits = upsert(&mut work, &entries[j]);
            if !fits {
                assert(!(i64::MIN <= running_weight(stored, added, j as int) <= i64::MAX));
                return Err(StashError::new(StashErrorKind::Overflow, "a diff is out of range"));
            }
            proof {
                assert forall|key: Seq<u8>, value: Seq<u8>, time: int| #[trigger]
                    weight(rows_view(work@), key, value, time) == weight(
                        stored + added.take(j + 1),
                        key,
                        value,
                        time,
                    ) by {
                    lemma_weight_push(stored + added.take(j as int), e, key, value, time);
                    assert(weight(rows_view(work@), key, value, time) == weight(before, key, value, time)
                        + share(e, key, value, time));
                    assert(weight(before, key, value, time) == weight(
                        stored + added.take(j as int),
                        key,
                        value,
                        time,
                    ));
                }
            }
            j += 1;
        }
        proof {
            assert(added.take(entries.len() as int) =~= added);
            assert forall|key: Seq<u8>, value: Seq<u8>, time: int| #[trigger]
                weight(rows_view(work@), key, value, time) == weight(stored, key, value, time) + weight(
                    added,
                    key,
                    value,
                    time,
                ) by {
                lemma_weight_concat(stored, added, key, value, time);
                assert(weight(rows_view(work@), key, value, time) == weight(
                    stored + added,
                    key,
                    value,
                    time,
                ));
            }
        }
        self.arrangements[at].rows = work;
        proof {
            assert(self@.len() == old(self)@.len());
            assert forall|k: int| 0 <= k < self@.len() && k != at implies self@[k] == old(self)@[k] by {}
            assert(self@[at as int] == (ArrangementView { rows: rows_view(work@), ..old(self)@[at as int] }));
        }
        Ok(())
    }

    /// Stores the arrangement `id` in consolidated form: the rows below
    /// `since` are folded into one row at `since` for each `(key, value)`,
    /// together with the row that may stand there already. What a read
    /// reports does not change.
    ///
    /// Fails, and changes nothing, when `id` is unknown or a folded diff is
    /// no 64-bit number.
    pub fn consolidate(&mut self, id: i64) -> (r: Result<(), StashError>)
        requires
            old(self).wf(),
        ensures
            final(self).wf(),
            final(self).same_but(old(self), id as int),
            match r {
                Ok(_) => {
                    &&& old(self).has(id as int)
                    &&& narrow(old(self).of(id as int).contents())
                    &&& final(self).of(id as int) == (ArrangementView {
                        rows: old(self).of(id as int).contents(),
                        ..old(self).of(id as int)
                    })
                    &&& final(self).of(id as int).contents() == old(self).of(id as int).contents()
                },
                Err(e) => final(self)@ == old(self)@ && if old(self).has(id as int) {
                    !narrow(old(self).of(id as int).contents()) && e.kind() == StashErrorKind::Overflow
                } else {
                    e.kind() == StashErrorKind::UnknownArrangement
                },
            },
    {
        proof {
            if self.has(id as int) {
                lemma_selected_all(self.of(id as int).rows);
            }
        }
        let rows = match self.read(id, None) {
            Ok(rows) => rows,
            Err(e) => {
                return Err(e);
            },
        };
        let at = match self.index_of(id) {
            Some(at) => at,
            None => {
                return Err(unknown_arrangement());
            },
        };
        proof {
            assert(old(self)@[at as int].wf());
            assert(old(self).of(id as int).visible(None) == advance(
                old(self).of(id as int).rows,
                old(self).of(id as int).frontiers.since,
            ));
            lemma_consolidated_is_stable(
                advance(old(self).of(id as int).rows, old(self).of(id as int).frontiers.since),
                rows_view(rows@),
                old(self).of(id as int).frontiers.since,
            );
        }
        self.arrangements[at].rows = rows;
        proof {
            assert(self@.len() == old(self)@.len());
            assert forall|k: int| 0 <= k < self@.len() && k != at implies self@[k] == old(self)@[k] by {}
            assert(self@[at as int] == (ArrangementView { rows: rows_view(rows@), ..old(self)@[at as int] }));
        }
        Ok(())
    }
}

/// With no key given, every update is selected.
pub proof fn lemma_selected_all(updates: Seq<Update>)
    ensures
        selected(updates, None) == updates,
    decreases updates.len(),
{
    if updates.len() > 0 {
        lemma_selected_all(updates.drop_last());
        assert(updates.drop_last().push(updates.last()) =~= updates);
    }
}

/// A consolidated sequence has no two updates of one fact.
pub proof fn lemma_consolidated_distinct(updates: Seq<Update>)
    requires
        is_consolidated(updates),
    ensures
        distinct_facts(updates),
        no_zero_diff(updates),
{
    assert forall|i: int, j: int| 0 <= i < j < updates.len() implies !(#[trigger] updates[i]).same_fact(
        #[trigger] updates[j],
    ) by {
        if updates[i].same_fact(updates[j]) {
            lemma_before_irreflexive(updates[i], updates[j]);
        }
    }
}

/// The consolidated form of rows advanced to `since` has no update below
/// `since`, and advancing and consolidating it again changes nothing.
pub proof fn lemma_consolidated_is_stable(input: Seq<Update>, output: Seq<Update>, since: int)
    requires
        consolidates(input, output),
        forall|i: int| 0 <= i < input.len() ==> since <= (#[trigger] input[i]).time,
    ensures
        forall|i: int| 0 <= i < output.len() ==> since <= (#[trigger] output[i]).time,
        advance(output, since) == output,
        consolidation(advance(output, since)) == output,
        distinct_facts(output),
        no_zero_diff(output),
{
    assert forall|i: int| 0 <= i < output.len() implies since <= (#[trigger] output[i]).time by {
        let u = output[i];
        lemma_consolidated_weight(output, i);
        assert(weight(output, u.key, u.value, u.time) == weight(input, u.key, u.value, u.time));
        let at = lemma_weight_witness(input, u.key, u.value, u.time);
        assert(since <= input[at].time);
    }
    assert(advance(output, since) =~= output);
    lemma_consolidation_is(output, output);
    lemma_consolidated_distinct(output);
}

/// The sum of the diffs that `updates` records for `(key, value)` at times
/// below `since`.
pub open spec fn weight_below(updates: Seq<Update>, key: Seq<u8>, value: Seq<u8>, since: int) -> int
    decreases updates.len(),
{
    if updates.len() == 0 {
        0
    } else {
        weight_below(updates.drop_last(), key, value, since) + if updates.last().key == key
            && updates.last().value == value && updates.last().time < since {
            updates.last().diff
        } else {
            0
        }
    }
}

/// What advancing does to the weights: below `since` nothing is left, at
/// `since` stands what was there together with all that was below, and above
/// `since` nothing changes.
pub proof fn lemma_advance_weight(
    updates: Seq<Update>,
    since: int,
    key: Seq<u8>,
    value: Seq<u8>,
    time: int,
)
    ensures
        weight(advance(updates, since), key, value, time) == if time < since {
            0
        } else if time == since {
            weight_below(updates, key, value, since) + weight(updates, key, value, since)
        } else {
            weight(updates, key, value, time)
        },
    decreases updates.len(),
{
    if updates.len() > 0 {
        lemma_advance_weight(updates.drop_last(), since, key, value, time);
        assert(advance(updates, since).drop_last() =~= advance(updates.drop_last(), since));
    }
}

/// Storing an arrangement in consolidated form does not change what a read
/// of it reports.
pub proof fn lemma_consolidate_keeps_contents(arrangement: ArrangementView)
    ensures
        (ArrangementView { rows: arrangement.contents(), ..arrangement }).contents()
            == arrangement.contents(),
{
    let since = arrangement.frontiers.since;
    let input = advance(arrangement.rows, since);
    lemma_consolidation_exists(input);
    lemma_consolidated_is_stable(input, arrangement.contents(), since);
}

/// What a read reports of history below the since frontier: no entry
/// carries a time below `since`; an entry at `since` carries the sum of the
/// diffs that its `(key, value)` has at `since` and at all times below; an
/// entry above `since` carries the diff that is stored for it.
pub proof fn lemma_compaction_clamp(arrangement: ArrangementView, at: int)
    requires
        0 <= at < arrangement.contents().len(),
    ensures
        ({
            let entry = arrangement.contents()[at];
            let since = arrangement.frontiers.since;
            &&& since <= entry.time
            &&& entry.diff != 0
            &&& entry.time == since ==> entry.diff == weight_below(
                arrangement.rows,
                entry.key,
                entry.value,
                since,
            ) + weight(arrangement.rows, entry.key, entry.value, since)
            &&& entry.time > since ==> entry.diff == weight(
                arrangement.rows,
                entry.key,
                entry.value,
                entry.time,
            )
        }),
{
    let since = arrangement.frontiers.since;
    let input = advance(arrangement.rows, since);
    let contents = arrangement.contents();
    let entry = contents[at];
    lemma_consolidation_exists(input);
    lemma_consolidated_is_stable(input, contents, since);
    lemma_consolidated_weight(contents, at);
    assert(weight(contents, entry.key, entry.value, entry.time) == weight(
        input,
        entry.key,
        entry.value,
        entry.time,
    ));
    lemma_advance_weight(arrangement.rows, since, entry.key, entry.value, entry.time);
}

/// A `(key, value)` whose diffs at and below the since frontier do not add
/// up to zero is reported at the since frontier, with that sum.
pub proof fn lemma_compacted_is_reported(arrangement: ArrangementView, key: Seq<u8>, value: Seq<u8>)
    ensures
        weight(arrangement.contents(), key, value, arrangement.frontiers.since) == weight_below(
            arrangement.rows,
            key,
            value,
            arrangement.frontiers.since,
        ) + weight(arrangement.rows, key, value, arrangement.frontiers.since),
{
    let since = arrangement.frontiers.since;
    let input = advance(arrangement.rows, since);
    lemma_consolidation_exists(input);
    assert(weight(arrangement.contents(), key, value, since) == weight(input, key, value, since));
    lemma_advance_weight(arrangement.rows, since, key, value, since);
}

/// Every selected update is one of the updates.
proof fn lemma_selected_member(updates: Seq<Update>, key: Option<Seq<u8>>, at: int) -> (from: int)
    requires
        0 <= at < selected(updates, key).len(),
    ensures
        0 <= from < updates.len(),
        updates[from] == selected(updates, key)[at],
    decreases updates.len(),
{
    let rest = selected(updates.drop_last(), key);
    if at < rest.len() {
        lemma_selected_member(updates.drop_last(), key, at)
    } else {
        updates.len() - 1
    }
}

/// The selected updates of a consolidated sequence are consolidated.
proof fn lemma_selected_consolidated(updates: Seq<Update>, key: Option<Seq<u8>>)
    requires
        is_consolidated(updates),
    ensures
        is_consolidated(selected(updates, key)),
    decreases updates.len(),
{
    if updates.len() > 0 {
        let rest = updates.drop_last();
        let chosen = selected(updates, key);
        lemma_selected_consolidated(rest, key);
        assert forall|i: int| 0 <= i < chosen.len() implies (#[trigger] chosen[i]).diff != 0 by {
            let from = lemma_selected_member(updates, key, i);
        }
        assert forall|i: int, j: int| 0 <= i < j < chosen.len() implies (#[trigger] chosen[i]).before(
            #[trigger] chosen[j],
        ) by {
            if j == selected(rest, key).len() {
                let from = lemma_selected_member(rest, key, i);
                assert(updates[from].before(updates[updates.len() - 1]));
            }
        }
    }
}

/// The weight that the updates of one key give a fact: that of all updates
/// for a fact of the key, none for any other fact.
proof fn lemma_selected_weight(
    updates: Seq<Update>,
    wanted: Seq<u8>,
    key: Seq<u8>,
    value: Seq<u8>,
    time: int,
)
    ensures
        weight(selected(updates, Some(wanted)), key, value, time) == if key == wanted {
            weight(updates, key, value, time)
        } else {
            0
        },
    decreases updates.len(),
{
    if updates.len() > 0 {
        lemma_selected_weight(updates.drop_last(), wanted, key, value, time);
        let rest = selected(updates.drop_last(), Some(wanted));
        if Some(wanted) == Some(updates.last().key) {
            lemma_weight_push(rest, updates.last(), key, value, time);
        }
    }
}

/// Selecting a key and advancing to `since` can be done in either order.
proof fn lemma_selected_advance(updates: Seq<Update>, key: Option<Seq<u8>>, since: int)
    ensures
        advance(selected(updates, key), since) == selected(advance(updates, since), key),
    decreases updates.len(),
{
    if updates.len() > 0 {
        lemma_selected_advance(updates.drop_last(), key, since);
        assert(advance(updates, since).drop_last() =~= advance(updates.drop_last(), since));
        let rest = selected(updates.drop_last(), key);
        if key is None || key == Some(updates.last().key) {
            assert(advance(rest.push(updates.last()), since) =~= advance(rest, since).push(
                advance(updates, since).last(),
            ));
        }
    } else {
        assert(advance(selected(updates, key), since) =~= selected(advance(updates, since), key));
    }
}

/// A read of one key reports what a read of the whole arrangement reports
/// for that key.
pub proof fn lemma_contents_of_key(arrangement: ArrangementView, key: Seq<u8>)
    ensures
        arrangement.contents_of(Some(key)) == selected(arrangement.contents(), Some(key)),
{
    let since = arrangement.frontiers.since;
    let all = advance(arrangement.rows, since);
    let contents = arrangement.contents();
    let chosen = selected(contents, Some(key));
    lemma_consolidation_exists(all);
    lemma_selected_consolidated(contents, Some(key));
    lemma_selected_advance(arrangement.rows, Some(key), since);
    assert forall|k: Seq<u8>, v: Seq<u8>, t: int| #[trigger]
        weight(chosen, k, v, t) == weight(arrangement.visible(Some(key)), k, v, t) by {
        lemma_selected_weight(contents, key, k, v, t);
        lemma_selected_weight(all, key, k, v, t);
        assert(weight(contents, k, v, t) == weight(all, k, v, t));
    }
    lemma_consolidation_is(arrangement.visible(Some(key)), chosen);
}

fn corrupt(message: &str) -> (e: StashError)
    ensures
        e.kind() == StashErrorKind::Corrupt,
{
    StashError::new(StashErrorKind::Corrupt, message)
}

/// The diffs of rows are 64-bit numbers.
pub proof fn lemma_rows_narrow(rows: Seq<Row>)
    ensures
        narrow(rows_view(rows)),
        narrow(without_zeros(rows_view(rows))),
{
    assert forall|i: int| 0 <= i < rows_view(rows).len() implies i64::MIN <= (#[trigger] rows_view(
        rows,
    )[i]).diff <= i64::MAX by {
        assert(rows_view(rows)[i] == rows[i]@);
    }
    let kept = without_zeros(rows_view(rows));
    assert forall|i: int| 0 <= i < kept.len() implies i64::MIN <= (#[trigger] kept[i]).diff
        <= i64::MAX by {
        let from = lemma_without_zeros_member(rows_view(rows), i);
    }
}

/// Every update that is kept is one of the updates.
proof fn lemma_without_zeros_member(updates: Seq<Update>, at: int) -> (from: int)
    requires
        0 <= at < without_zeros(updates).len(),
    ensures
        0 <= from < updates.len(),
        updates[from] == without_zeros(updates)[at],
    decreases updates.len(),
{
    let rest = without_zeros(updates.drop_last());
    if at < rest.len() {
        lemma_without_zeros_member(updates.drop_last(), at)
    } else {
        updates.len() - 1
    }
}

/// Leaving out the updates of diff zero leaves none of diff zero, and no
/// fact twice where none stood twice.
pub proof fn lemma_without_zeros(updates: Seq<Update>)
    ensures
        no_zero_diff(without_zeros(updates)),
        distinct_facts(updates) ==> distinct_facts(without_zeros(updates)),
        no_zero_diff(updates) ==> without_zeros(updates) == updates,
    decreases updates.len(),
{
    if updates.len() > 0 {
        let rest = updates.drop_last();
        let kept = without_zeros(updates);
        lemma_without_zeros(rest);
        if distinct_facts(updates) {
            assert forall|i: int, j: int| 0 <= i < j < rest.len() implies !(#[trigger] rest[i]).same_fact(
                #[trigger] rest[j],
            ) by {
                assert(rest[i] == updates[i] && rest[j] == updates[j]);
            }
            assert forall|i: int, j: int| 0 <= i < j < kept.len() implies !(#[trigger] kept[i]).same_fact(
                #[trigger] kept[j],
            ) by {
                if j == without_zeros(rest).len() {
                    let from = lemma_without_zeros_member(rest, i);
                    assert(rest[from] == updates[from]);
                    assert(!updates[from].same_fact(updates[updates.len() - 1]));
                }
            }
        }
        if no_zero_diff(updates) {
            assert forall|i: int| 0 <= i < rest.len() implies (#[trigger] rest[i]).diff != 0 by {
                assert(rest[i] == updates[i]);
            }
            assert(updates.last() == updates[updates.len() - 1]);
            assert(rest.push(updates.last()) =~= updates);
        }
    }
}

/// Whether a row before the one at `at` is of the same `(key, value, time)`.
fn seen_before(rows: &Vec<Row>, at: usize) -> (seen: bool)
    requires
        at < rows.len(),
    ensures
        seen == exists|i: int| 0 <= i < at && (#[trigger] rows_view(rows@)[i]).same_fact(rows_view(rows@)[at as int]),
{
    let row = &rows[at];
    let mut i: usize = 0;
    while i < at
        invariant
            i <= at,
            at < rows.len(),
            row@ == rows_view(rows@)[at as int],
            forall|k: int| 0 <= k < i ==> !(#[trigger] rows_view(rows@)[k]).same_fact(row@),
        decreases at - i,
    {
        let other = &rows[i];
        if other.time == row.time && bytes_eq(other.key.as_slice(), row.key.as_slice()) && bytes_eq(
            other.value.as_slice(),
            row.value.as_slice(),
        ) {
            assert(rows_view(rows@)[i as int].same_fact(row@));
            return true;
        }
        i += 1;
    }
    false
}

/// The rows as the store keeps them, those of diff zero left out, if no
/// `(key, value, time)` has two of them.
fn restored_rows(stored: &Vec<Row>) -> (r: Option<Vec<Row>>)
    ensures
        match r {
            Some(rows) => distinct_facts(rows_view(stored@)) && rows_view(rows@) == without_zeros(
                rows_view(stored@),
            ),
            None => !distinct_facts(rows_view(stored@)),
        },
{
    let ghost all = rows_view(stored@);
    let mut rows: Vec<Row> = Vec::new();
    let mut j: usize = 0;
    assert(all.take(0) =~= Seq::<Update>::empty());
    assert(rows_view(rows@) =~= without_zeros(all.take(0)));
    while j < stored.len()
        invariant
            j <= stored.len(),
            all == rows_view(stored@),
            forall|a: int, b: int| 0 <= a < b < j ==> !(#[trigger] all[a]).same_fact(#[trigger] all[b]),
            rows_view(rows@) == without_zeros(all.take(j as int)),
        decreases stored.len() - j,
    {
        if seen_before(stored, j) {
            return None;
        }
        proof {
            assert(all.take(j + 1).drop_last() =~= all.take(j as int));
            assert(all.take(j + 1).last() == stored[j as int]@);
        }
        if stored[j].diff != 0 {
            let ghost before = rows@;
            rows.push(stored[j].clone());
            assert(rows_view(rows@) =~= rows_view(before).push(rows@.last()@));
        }
        j += 1;
    }
    assert(all.take(stored.len() as int) =~= all);
    Some(rows)
}

/// A store that is written out and opened again is the store that it was:
/// where what is stored holds every arrangement under its id, with its
/// name, its frontiers and its rows, it is a state of a stash and opens as
/// what the store holds.
pub proof fn lemma_reopened(stash: &Stash, stored: Seq<StoredArrangement>)
    requires
        stash.wf(),
        stored.len() == stash@.len(),
        forall|i: int|
            0 <= i < stored.len() ==> {
                &&& (#[trigger] stored[i]).id == i + 1
                &&& stored[i].name@ == stash@[i].name
                &&& stored[i].since == stash@[i].frontiers.since
                &&& stored[i].upper == stash@[i].frontiers.upper
                &&& rows_view(stored[i].rows@) == stash@[i].rows
            },
    ensures
        stored_ok(stored),
        restored(stored) == stash@,
{
    assert forall|i: int| 0 <= i < stored.len() implies (#[trigger] stored[i])@ == stash@[i]
        && stored[i].ok() by {
        assert(stash@[i].wf());
        lemma_without_zeros(stash@[i].rows);
    }
    assert forall|i: int, j: int| 0 <= i < j < stored.len() implies (#[trigger] stored[i]).name@ != (
    #[trigger] stored[j]).name@ by {
        assert(stash@[i].name != stash@[j].name);
    }
    assert(restored(stored) =~= stash@);
}

fn unknown_arrangement() -> (e: StashError)
    ensures
        e.kind() == StashErrorKind::UnknownArrangement,
{
    StashError::new(StashErrorKind::UnknownArrangement, "no such arrangement")
}

/// In a well-formed store no arrangement's `since` has passed its `upper`.
pub proof fn lemma_since_le_upper(stash: &Stash, id: int)
    requires
        stash.wf(),
        stash.has(id),
    ensures
        stash.of(id).frontiers.since <= stash.of(id).frontiers.upper,
{
    assert(stash@[id - 1].wf());
}

} // verus!
