//! The pair of frontiers that every arrangement carries.
//!
//! `since` is the compaction frontier: history below it may be folded
//! forward. `upper` is the definiteness frontier: every later write lands at
//! or after it. Both only ever move forward, and `since` never passes `upper`.

use vstd::prelude::*;
use crate::error::{StashError, StashErrorKind};

verus! {

/// The compaction frontier and the definiteness frontier of one arrangement.
#[derive(Clone, Copy, Debug)]
pub struct Frontiers {
    since: i64,
    upper: i64,
}

/// A frontier pair over unbounded integers.
pub struct FrontierPair {
    pub since: int,
    pub upper: int,
}

/// A request to move one of the two frontiers.
pub enum FrontierOp {
    /// Move `upper` to the given time.
    Seal(int),
    /// Move `since` to the given time.
    Compact(int),
}

impl FrontierPair {
    /// The pair of a freshly created arrangement.
    pub open spec fn initial() -> FrontierPair {
        FrontierPair { since: 0, upper: 0 }
    }

    /// Whether the pair accepts the request.
    pub open spec fn accepts(self, op: FrontierOp) -> bool {
        match op {
            FrontierOp::Seal(upper) => self.upper <= upper,
            FrontierOp::Compact(since) => self.since <= since <= self.upper,
        }
    }

    /// The pair after the request: an accepted request moves its own
    /// frontier and leaves the other alone, a rejected one changes nothing.
    pub open spec fn step(self, op: FrontierOp) -> FrontierPair {
        if !self.accepts(op) {
            self
        } else {
            match op {
                FrontierOp::Seal(upper) => FrontierPair { upper, ..self },
                FrontierOp::Compact(since) => FrontierPair { since, ..self },
            }
        }
    }

    /// The pair that a fresh arrangement reaches through `ops`, in order.
    pub open spec fn run(ops: Seq<FrontierOp>) -> FrontierPair
        decreases ops.len(),
    {
        if ops.len() == 0 {
            FrontierPair::initial()
        } else {
            FrontierPair::run(ops.drop_last()).step(ops.last())
        }
    }
}

/// Whatever requests an arrangement has seen, its `since` has not passed its
/// `upper`.
pub proof fn lemma_since_never_passes_upper(ops: Seq<FrontierOp>)
    ensures
        FrontierPair::run(ops).since <= FrontierPair::run(ops).upper,
    decreases ops.len(),
{
    if ops.len() > 0 {
        lemma_since_never_passes_upper(ops.drop_last());
    }
}

/// Neither frontier ever moves backwards.
pub proof fn lemma_frontiers_only_advance(pair: FrontierPair, op: FrontierOp)
    ensures
        pair.since <= pair.step(op).since,
        pair.upper <= pair.step(op).upper,
{
}

impl View for Frontiers {
    type V = FrontierPair;

    closed spec fn view(&self) -> FrontierPair {
        FrontierPair { since: self.since as int, upper: self.upper as int }
    }
}

impl Frontiers {
    /// The frontier pair is well formed when `since` has not passed `upper`.
    pub open spec fn wf(self) -> bool {
        self@.since <= self@.upper
    }

    /// Both frontiers are 64-bit times.
    pub proof fn lemma_fits(self)
        ensures
            i64::MIN <= self@.since <= i64::MAX,
            i64::MIN <= self@.upper <= i64::MAX,
    {
    }

    /// The frontiers of a freshly created arrangement: both are zero.
    pub fn new() -> (f: Frontiers)
        ensures
            f.wf(),
            f@ == FrontierPair::initial(),
    {
        Frontiers { since: 0, upper: 0 }
    }

    /// The frontiers that were stored as `since` and `upper`, if `since` has
    /// not passed `upper`.
    pub fn restored(since: i64, upper: i64) -> (r: Option<Frontiers>)
        ensures
            match r {
                Some(f) => since <= upper && f.wf() && f@ == (FrontierPair {
                    since: since as int,
                    upper: upper as int,
                }),
                None => since > upper,
            },
    {
        if since <= upper {
            Some(Frontiers { since, upper })
        } else {
            None
        }
    }

    /// The compaction frontier.
    pub fn since(&self) -> (since: i64)
        ensures
            since == self@.since,
    {
        self.since
    }

    /// The definiteness frontier.
    pub fn upper(&self) -> (upper: i64)
        ensures
            upper == self@.upper,
    {
        self.upper
    }

    /// Whether a write at `time` is still allowed: it is when `time` is at
    /// or after `upper`.
    pub fn admits(&self, time: i64) -> (ok: bool)
        ensures
            ok == (self@.upper <= time),
    {
        self.upper <= time
    }

    /// Moves `upper` forward to `upper`, declaring every earlier time
    /// definite. A request to move it backwards is refused and changes
    /// nothing.
    pub fn seal(&mut self, upper: i64) -> (r: Result<(), StashError>)
        requires
            old(self).wf(),
        ensures
            final(self).wf(),
            final(self)@ == old(self)@.step(FrontierOp::Seal(upper as int)),
            r is Ok <==> old(self)@.accepts(FrontierOp::Seal(upper as int)),
            r matches Err(e) ==> e.kind() == StashErrorKind::CausalityViolation,
    {
        if self.upper <= upper {
            self.upper = upper;
            Ok(())
        } else {
            Err(StashError::new(StashErrorKind::CausalityViolation, "seal would move the upper frontier backwards"))
        }
    }

    /// Moves `since` forward to `since`, allowing history below it to be
    /// folded. A request outside `[since, upper]` is refused and changes
    /// nothing.
    pub fn compact(&mut self, since: i64) -> (r: Result<(), StashError>)
        requires
            old(self).wf(),
        ensures
            final(self).wf(),
            final(self)@ == old(self)@.step(FrontierOp::Compact(since as int)),
            r is Ok <==> old(self)@.accepts(FrontierOp::Compact(since as int)),
            r matches Err(e) ==> e.kind() == StashErrorKind::CausalityViolation,
    {
        if self.since <= since && since <= self.upper {
            self.since = since;
            Ok(())
        } else {
            Err(StashError::new(StashErrorKind::CausalityViolation, "compaction outside the since and upper frontiers"))
        }
    }
}

} // verus!
