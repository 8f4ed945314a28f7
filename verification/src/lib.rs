//! An incremental, multi-worker dataflow engine core: named, keyed
//! collections accept upserts and deletes, and point queries read consistent
//! snapshots of a derived view at a specific logical time.
//!
//! The crate verifies the coordination core: the logical clock, the
//! time-ordered command protocol that keeps worker frontiers and trace
//! compaction in lockstep, the upsert arrangement semantics, and the deferred
//! query (peek) mechanism.

pub mod catalog;
pub mod command;
pub mod coord;
pub mod dd_input;
pub mod error;
pub mod gid;
pub mod internal;
pub mod name;
pub mod row;
pub mod system;
pub mod timestamp;
pub mod trace;
pub mod trace_group;
pub mod txn_manager;
pub mod upsert_input;
pub mod worker;

pub use timestamp::SysTime;

use vstd::prelude::*;

verus! {

/// Signed weight attached to a `(key, value, time)` record.
pub type SysDiff = i64;

/// Outcome of one attempt of a deferred query task.
pub enum PeekResult {
    /// The watched trace has not advanced past the query time yet.
    NotReady,
    /// The query was answered and the task may be dropped.
    Done,
}

} // verus!
