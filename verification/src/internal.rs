//! Inspection records: a snapshot of the coordinator's and every worker's
//! internal progress, assembled on request.

use crate::timestamp::SysTime;
use vstd::prelude::*;

verus! {

/// The whole engine's snapshot: the coordinator's view and one record per
/// worker, ordered by worker index.
#[derive(Debug)]
pub struct SysInternal {
    pub coord: SysInternalCoord,
    pub workers: Vec<SysInternalWorker>,
}

/// The coordinator's view: the pool size and the global input frontier.
#[derive(Debug)]
pub struct SysInternalCoord {
    pub workers: usize,
    pub frontier: SysTime,
}

/// One worker's view: its frontier and the progress of every registered
/// input and trace.
#[derive(Debug)]
pub struct SysInternalWorker {
    pub index: usize,
    pub frontier: SysTime,
    pub upsert_input_info: Vec<SysInternalInput>,
    pub input_info: Vec<SysInternalInput>,
    pub trace_info: Vec<SysInternalTrace>,
}

/// One trace's compaction frontiers.
#[derive(Debug)]
pub struct SysInternalTrace {
    pub name: String,
    pub logical_compaction: SysTime,
    pub physical_compaction: SysTime,
}

/// One input session's current time.
#[derive(Debug)]
pub struct SysInternalInput {
    pub name: String,
    pub time: SysTime,
}

} // verus!
