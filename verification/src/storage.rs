//! Sources of data outside the system and the messages that they produce.

use std::collections::BTreeMap;
use vstd::prelude::*;

verus! {

/// An external source of data.
pub trait Source: Sized {
    /// The key type for messages produced by the source.
    ///
    /// Use `()` if messages do not have keys.
    type Key;

    /// The value type for messages produced by the source.
    type Value;

    /// The type that identifies a partition in the source.
    ///
    /// Use `()` if the source does not have the concept of a partition.
    type Partition;

    /// The reader for the source: a [`SourceReader`] of this source.
    type Reader;

    /// Constructs a reader for the source that starts at the specified
    /// offsets for each partition.
    fn reader(&self, start_offsets: BTreeMap<Self::Partition, Offset>) -> Self::Reader;
}

/// Reads messages from a [`Source`].
pub trait SourceReader<S> where S: Source {
    /// Fetches the next message.
    fn next_message(&mut self) -> Message<S>;
}

/// The offset of a [`Message`].
///
/// The only constraint on an offset is that it monotonically increases
/// within a shard.
#[derive(Clone, Copy, Debug, PartialEq, Eq, Structural, PartialOrd, Ord, Hash)]
pub struct Offset(pub u64);

/// A message produced by a [`Source`].
pub struct Message<S> where S: Source {
    /// The message's key.
    pub key: S::Key,
    /// The message's value.
    pub value: S::Value,
    /// The message's offset within its partition.
    pub offset: Offset,
    /// The message's partition.
    pub partition: S::Partition,
}

/// Whether the offsets never step back: each is at or after the one before
/// it.
pub open spec fn monotonic(offsets: Seq<Offset>) -> bool {
    forall|i: int, j: int| 0 <= i <= j < offsets.len() ==> offsets[i].0 <= offsets[j].0
}

/// Whether the offsets of one partition, in the order in which they were
/// read, never step back.
pub fn offsets_are_monotonic(offsets: &Vec<Offset>) -> (ok: bool)
    ensures
        ok == monotonic(offsets@),
{
    let mut i: usize = 1;
    while i < offsets.len()
        invariant
            1 <= i,
            forall|a: int, b: int| 0 <= a <= b < i && b < offsets.len() ==> offsets[a].0 <= offsets[b].0,
        decreases offsets.len() - i,
    {
        if offsets[i - 1].0 > offsets[i].0 {
            return false;
        }
        proof {
            assert forall|a: int, b: int| 0 <= a <= b < i + 1 && b < offsets.len() implies offsets[a].0
                <= offsets[b].0 by {
                if b == i && a < i {
                    assert(offsets[a].0 <= offsets[i - 1].0);
                }
            }
        }
        i += 1;
    }
    true
}

/// The storage service: the part of the system that answers storage
/// commands.
pub struct StorageService;

} // verus!
