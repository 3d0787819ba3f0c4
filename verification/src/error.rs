//! The errors of the store.

use vstd::prelude::*;
use crate::text::{push_signed_decimal, signed_decimal};

verus! {

/// What went wrong.
#[derive(Clone, Copy, Debug, PartialEq, Eq, Structural)]
pub enum StashErrorKind {
    /// The backing store carries the identifier of another application.
    InvalidApplicationId,
    /// The handle names no arrangement of this store.
    UnknownArrangement,
    /// A write below the upper frontier, a seal that would move the upper
    /// frontier backwards, or a compaction outside `[since, upper]`.
    CausalityViolation,
    /// Stored bytes could not be decoded as the key or value type.
    Codec,
    /// A sum of diffs, or a counter, left the 64-bit range.
    Overflow,
    /// What the backing store holds is no state of a stash: an id out of
    /// order, a name or a row twice, or a since frontier beyond its upper
    /// frontier.
    Corrupt,
}

/// An error that can occur while interacting with a stash.
#[derive(Debug)]
pub struct StashError {
    kind: StashErrorKind,
    message: String,
}

impl StashError {
    /// What went wrong.
    pub closed spec fn spec_kind(&self) -> StashErrorKind {
        self.kind
    }

    /// The detail that follows the common prefix in the error's text.
    pub closed spec fn spec_message(&self) -> Seq<char> {
        self.message@
    }

    /// An error of the given kind with the given detail.
    pub fn new(kind: StashErrorKind, message: &str) -> (e: StashError)
        ensures
            e.spec_kind() == kind,
            e.spec_message() == message@,
    {
        StashError { kind, message: String::from_str(message) }
    }

    /// The error for a backing store that carries a foreign identifier.
    pub fn invalid_application_id(application_id: i32) -> (e: StashError)
        ensures
            e.spec_kind() == StashErrorKind::InvalidApplicationId,
            e.spec_message() == "invalid application id: "@ + signed_decimal(application_id as int),
    {
        let mut message = String::from_str("invalid application id: ");
        push_signed_decimal(&mut message, application_id as i64);
        StashError { kind: StashErrorKind::InvalidApplicationId, message }
    }

    /// What went wrong.
    #[verifier::when_used_as_spec(spec_kind)]
    pub fn kind(&self) -> (kind: StashErrorKind)
        ensures
            kind == self.spec_kind(),
    {
        self.kind
    }

    /// The error as text: the words `stash error: ` and the detail.
    pub fn to_string(&self) -> (text: String)
        ensures
            text@ == "stash error: "@ + self.spec_message(),
    {
        let mut text = String::from_str("stash error: ");
        text.append(self.message.as_str());
        text
    }
}

} // verus!
