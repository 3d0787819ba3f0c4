//! A durable, temporally-versioned key/value store, the stash, and the
//! smaller pieces of the system that surrounds it.
//!
//! The stash keeps named arrangements of `(key, value, time, diff)` entries.
//! Each arrangement has a since frontier, below which history may be folded
//! forward, and an upper frontier, at or after which every new entry lands.
//! Reads report the entries consolidated: grouped by `(key, value, time)`,
//! their diffs added up, the groups that add up to zero left out.
//!
//! - [`store`], [`arrangement`] and [`frontier`] hold the stash;
//!   [`consolidation`] says what consolidating is, [`codec`] how keys and
//!   values become bytes, [`persist`] is the stash over a write log.
//! - [`interval`] is the SQL interval type, [`plan`] the statement handlers,
//!   [`transform`] the choice of an index for a filter.
//! - [`kafka`], [`ccsr`], [`protobuf`], [`secrets`], [`connections`] and
//!   [`storage`] hold what is decided at the edges of the system.

pub mod arrangement;
pub mod ccsr;
pub mod codec;
pub mod connections;
pub mod consolidation;
pub mod error;
pub mod frontier;
pub mod interval;
pub mod kafka;
pub mod lexical;
pub mod persist;
pub mod plan;
pub mod protobuf;
pub mod secrets;
pub mod storage;
pub mod store;
pub mod text;
pub mod transform;
