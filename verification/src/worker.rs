//! The worker: per-worker state and the command handlers its loop runs.
//!
//! A worker owns its trace group and input groups exclusively. Its loop
//! drains inbound commands, arranges buffered upserts whenever the
//! coordinator advances the frontier, and retries deferred queries.

use crate::command::{ControlCommand, ServerCommand};
use crate::dd_input::DDInputGroup;
use crate::gid::GID;
use crate::internal::SysInternalWorker;
use crate::name::Name;
use crate::row::Row;
use crate::timestamp::SysTime;
use crate::trace::{ops_at, read_key, reading, Trace, UpsertOp};
use crate::trace_group::TraceGroup;
use crate::upsert_input::{UpsertInputGroup, UpsertSession};
use crate::PeekResult;
use vstd::prelude::*;

verus! {

/// The buffered changes of the session of the given name, or nothing if no
/// session carries it.
pub open spec fn buffer_of(sessions: Seq<UpsertSession>, n: Seq<char>) -> Seq<(Row, Option<Row>)>
    decreases sessions.len(),
{
    if sessions.len() == 0 {
        Seq::empty()
    } else if sessions.last().name@ == n {
        sessions.last().buffer@
    } else {
        buffer_of(sessions.drop_last(), n)
    }
}

/// With distinct session names, `buffer_of` finds exactly the one session's
/// buffer.
pub proof fn lemma_buffer_of_found(sessions: Seq<UpsertSession>, k: int)
    requires
        0 <= k < sessions.len(),
        forall|i: int, j: int|
            0 <= i < j < sessions.len() ==> (#[trigger] sessions[i]).name@ != (
            #[trigger] sessions[j]).name@,
    ensures
        buffer_of(sessions, sessions[k].name@) == sessions[k].buffer@,
    decreases sessions.len(),
{
    assert(sessions.last() == sessions[sessions.len() - 1]);
    if k < sessions.len() - 1 {
        assert(sessions[k].name@ != sessions[sessions.len() - 1].name@);
        assert(sessions.drop_last()[k] == sessions[k]);
        lemma_buffer_of_found(sessions.drop_last(), k);
    }
}

/// A name no session carries has no buffered changes.
pub proof fn lemma_buffer_of_absent(sessions: Seq<UpsertSession>, n: Seq<char>)
    requires
        forall|i: int| 0 <= i < sessions.len() ==> (#[trigger] sessions[i]).name@ != n,
    ensures
        buffer_of(sessions, n) == Seq::<(Row, Option<Row>)>::empty(),
    decreases sessions.len(),
{
    if sessions.len() > 0 {
        assert(sessions.last() == sessions[sessions.len() - 1]);
        assert(forall|i: int|
            0 <= i < sessions.drop_last().len() ==> (#[trigger] sessions.drop_last()[i]).name@ != n);
        lemma_buffer_of_absent(sessions.drop_last(), n);
    }
}

/// A deferred query: a peek that polls its trace until the trace has moved
/// strictly past the query time.
pub struct PendingQuery {
    /// The identifier of the dispatched query.
    pub gid: GID,
    /// The trace the query reads.
    pub name: Name,
    /// The time the query reads at.
    pub time: SysTime,
    /// The key the query asks for.
    pub key: Row,
    /// This reader's own logical compaction frontier, fixed when the query
    /// was admitted.
    pub logical: SysTime,
}

impl PendingQuery {
    /// Try to answer the query against its trace: `NotReady` if the trace
    /// has not moved strictly past the query time yet, else the read
    /// result. At every answered attempt the query time lies at or past
    /// the logical compaction frontier and strictly below the upper
    /// frontier, so the read is consistent.
    pub fn attempt(&self, trace: &Trace) -> (r: (PeekResult, Option<Vec<Row>>))
        requires
            trace.wf(),
            trace.name@ == self.name@,
            self.logical.internal <= self.time.internal,
            trace.logical.internal <= self.time.internal,
        ensures
            match r {
                (PeekResult::Done, reply) => {
                    &&& self.time.internal < trace.upper.internal
                    &&& reply matches Some(rows) && rows@ == reading(
                        trace.hist(),
                        self.key,
                        self.time.internal as int,
                    )
                },
                (PeekResult::NotReady, reply) => trace.upper.internal <= self.time.internal
                    && reply is None,
            },
    {
        if !trace.beyond(&self.time) {
            return (PeekResult::NotReady, None);
        }
        let rows = read_key(trace, &self.key, &self.time);
        (PeekResult::Done, Some(rows))
    }
}

/// What a worker hands back to the runtime after processing a command.
pub enum WorkerResponse {
    /// The answer to a dispatched query, to be sent on its reply channel.
    QueryReply { gid: GID, rows: Vec<Row> },
    /// The worker's internal snapshot, to be sent to the coordinator.
    Internal(SysInternalWorker),
}

/// A pending peek is well-placed in a worker: its times are consistent with
/// the worker's frontier and its trace exists and is not compacted past the
/// query time.
pub open spec fn peek_ok(tg: TraceGroup, frontier: SysTime, p: PendingQuery) -> bool {
    &&& p.logical.internal <= p.time.internal
    &&& p.time.internal < frontier.internal
    &&& tg.has_trace(p.name@)
    &&& forall|i: int|
        0 <= i < tg.traces@.len() && (#[trigger] tg.traces@[i]).name@ == p.name@
            ==> tg.traces@[i].logical.internal <= p.time.internal
}

/// Per-worker state: the registries, the deferred queries, the input
/// frontier and the shutdown flag.
pub struct WorkerContext {
    /// This worker's index in the pool.
    pub index: usize,
    /// The traces of the derived collections.
    pub trace_group: TraceGroup,
    /// The upsert input sessions; every session's time equals the frontier.
    pub upsert_input_group: UpsertInputGroup,
    /// The batch input sessions; every session's time equals the frontier.
    pub input_group: DDInputGroup,
    /// The deferred queries still unanswered.
    pub peeks: Vec<PendingQuery>,
    /// The worker's input frontier.
    pub frontier: SysTime,
    /// Set once a shutdown command was observed; the loop then exits.
    pub shutdown: bool,
}

impl WorkerContext {
    /// The worker invariant: registries are well-formed, every session sits
    /// at the frontier, every trace's upper frontier equals it, logical
    /// compaction lies strictly below it once time has started, every
    /// upsert session has its arranged trace, and pending peeks are
    /// well-placed.
    pub open spec fn wf(&self) -> bool {
        &&& self.trace_group.wf()
        &&& self.upsert_input_group.wf()
        &&& self.input_group.wf()
        &&& forall|i: int|
            0 <= i < self.trace_group.traces@.len() ==> (#[trigger] self.trace_group.traces@[i]).upper
                == self.frontier
        &&& forall|i: int|
            0 <= i < self.trace_group.traces@.len()
                ==> (#[trigger] self.trace_group.traces@[i]).logical.internal
                <= self.frontier.internal
        &&& forall|i: int|
            0 <= i < self.trace_group.traces@.len() && self.frontier.internal > 0 ==> (
            #[trigger] self.trace_group.traces@[i]).logical.internal < self.frontier.internal
        &&& forall|k: int|
            0 <= k < self.upsert_input_group.sessions@.len() ==> (
            #[trigger] self.upsert_input_group.sessions@[k]).time == self.frontier
        &&& forall|k: int|
            0 <= k < self.upsert_input_group.sessions@.len() ==> self.trace_group.has_trace(
                (#[trigger] self.upsert_input_group.sessions@[k]).name@,
            )
        &&& forall|k: int|
            0 <= k < self.input_group.sessions@.len() ==> (
            #[trigger] self.input_group.sessions@[k]).time == self.frontier
        &&& forall|j: int|
            0 <= j < self.peeks@.len() ==> peek_ok(
                self.trace_group,
                self.frontier,
                #[trigger] self.peeks@[j],
            )
    }

    /// A fresh worker: empty registries, the frontier at the least time,
    /// not shut down.
    pub fn new(index: usize) -> (r: WorkerContext)
        ensures
            r.wf(),
            r.index == index,
            r.frontier.internal == 0,
            r.shutdown == false,
            r.peeks@.len() == 0,
            r.trace_group.traces@.len() == 0,
            r.upsert_input_group.sessions@.len() == 0,
            r.input_group.sessions@.len() == 0,
    {
        WorkerContext {
            index,
            trace_group: TraceGroup::new(),
            upsert_input_group: UpsertInputGroup::new(),
            input_group: DDInputGroup::new(),
            peeks: Vec::new(),
            frontier: SysTime::minimum(),
            shutdown: false,
        }
    }

    /// The frontier advance transition: every trace arranged its session's
    /// buffered upserts at the old frontier and moved its upper frontier to
    /// `time`; logical compaction moved to the old frontier; every session
    /// was drained and advanced.
    pub open spec fn advanced_to(&self, pre: Self, time: SysTime) -> bool {
        &&& self.frontier == time
        &&& self.shutdown == pre.shutdown
        &&& self.index == pre.index
        &&& self.peeks@.len() == 0
        &&& self.trace_group.traces@.len() == pre.trace_group.traces@.len()
        &&& forall|i: int|
            0 <= i < pre.trace_group.traces@.len() ==> {
                &&& (#[trigger] self.trace_group.traces@[i]).hist()
                    == pre.trace_group.traces@[i].hist() + ops_at(
                    buffer_of(
                        pre.upsert_input_group.sessions@,
                        pre.trace_group.traces@[i].name@,
                    ),
                    pre.frontier,
                )
                &&& self.trace_group.traces@[i].name == pre.trace_group.traces@[i].name
                &&& self.trace_group.traces@[i].upper == time
                &&& self.trace_group.traces@[i].logical == pre.frontier
            }
        &&& self.upsert_input_group.sessions@.len() == pre.upsert_input_group.sessions@.len()
        &&& forall|k: int|
            0 <= k < pre.upsert_input_group.sessions@.len() ==> {
                &&& (#[trigger] self.upsert_input_group.sessions@[k]).buffer@ == Seq::<
                    (Row, Option<Row>),
                >::empty()
                &&& self.upsert_input_group.sessions@[k].time == time
                &&& self.upsert_input_group.sessions@[k].name
                    == pre.upsert_input_group.sessions@[k].name
            }
        &&& self.input_group.sessions@.len() == pre.input_group.sessions@.len()
        &&& forall|k: int|
            0 <= k < pre.input_group.sessions@.len() ==> {
                &&& (#[trigger] self.input_group.sessions@[k]).log@
                    == pre.input_group.sessions@[k].log@ + pre.input_group.sessions@[k].buffer@
                &&& self.input_group.sessions@[k].buffer@ == Seq::<(Row, SysTime, i64)>::empty()
                &&& self.input_group.sessions@[k].time == time
                &&& self.input_group.sessions@[k].name == pre.input_group.sessions@[k].name
            }
    }

    /// Arrange every session's buffered upserts at the current frontier,
    /// advance the frontier to `time`, and move logical compaction to the
    /// previous frontier. `time` must be exactly one step ahead; deferred
    /// queries must all have been answered.
    fn flush_and_advance(&mut self, time: SysTime)
        requires
            old(self).wf(),
            old(self).peeks@.len() == 0,
            old(self).frontier.internal < u64::MAX,
            time.internal == old(self).frontier.internal + 1,
        ensures
            final(self).wf(),
            final(self).advanced_to(*old(self), time),
    {
        let prev = self.frontier;
        let n = self.trace_group.traces.len();
        let mut i: usize = 0;
        while i < n
            invariant
                n == self.trace_group.traces@.len(),
                n == old(self).trace_group.traces@.len(),
                0 <= i <= n,
                old(self).wf(),
                old(self).peeks@.len() == 0,
                prev == old(self).frontier,
                prev.internal < u64::MAX,
                time.internal == prev.internal + 1,
                self.frontier == prev,
                self.shutdown == old(self).shutdown,
                self.index == old(self).index,
                self.peeks == old(self).peeks,
                self.input_group == old(self).input_group,
                forall|j: int| i <= j < n ==> (#[trigger] self.trace_group.traces@[j]) == old(
                    self,
                ).trace_group.traces@[j],
                forall|j: int|
                    0 <= j < i ==> {
                        &&& (#[trigger] self.trace_group.traces@[j]).hist() == old(
                            self,
                        ).trace_group.traces@[j].hist() + ops_at(
                            buffer_of(
                                old(self).upsert_input_group.sessions@,
                                old(self).trace_group.traces@[j].name@,
                            ),
                            prev,
                        )
                        &&& self.trace_group.traces@[j].name == old(
                            self,
                        ).trace_group.traces@[j].name
                        &&& self.trace_group.traces@[j].upper.internal == prev.internal + 1
                        &&& self.trace_group.traces@[j].logical == old(
                            self,
                        ).trace_group.traces@[j].logical
                        &&& self.trace_group.traces@[j].physical == old(
                            self,
                        ).trace_group.traces@[j].physical
                        &&& self.trace_group.traces@[j].wf()
                    },
                self.upsert_input_group.sessions@.len() == old(
                    self,
                ).upsert_input_group.sessions@.len(),
                forall|k: int|
                    0 <= k < old(self).upsert_input_group.sessions@.len() ==> {
                        &&& (#[trigger] self.upsert_input_group.sessions@[k]).name == old(
                            self,
                        ).upsert_input_group.sessions@[k].name
                        &&& self.upsert_input_group.sessions@[k].time == old(
                            self,
                        ).upsert_input_group.sessions@[k].time
                        &&& ((exists|j: int|
                            0 <= j < i && (#[trigger] old(self).trace_group.traces@[j]).name@ == old(
                                self,
                            ).upsert_input_group.sessions@[k].name@)
                            ==> self.upsert_input_group.sessions@[k].buffer@ == Seq::<
                            (Row, Option<Row>),
                        >::empty())
                        &&& ((forall|j: int|
                            0 <= j < i ==> (#[trigger] old(self).trace_group.traces@[j]).name@ != old(
                                self,
                            ).upsert_input_group.sessions@[k].name@)
                            ==> self.upsert_input_group.sessions@[k] == old(
                            self,
                        ).upsert_input_group.sessions@[k])
                    },
            decreases n - i,
        {
            let ghost idx = i as int;
            let ghost old_sessions = old(self).upsert_input_group.sessions@;
            let ghost trace_name = old(self).trace_group.traces@[idx].name@;
            let nm = self.trace_group.traces[i].name.clone();
            proof {
                assert(nm@ == trace_name);
                // No earlier trace shares this name, so its session, if any,
                // is still untouched.
                assert forall|j: int| 0 <= j < i implies (
                #[trigger] old(self).trace_group.traces@[j]).name@ != trace_name by {
                    assert(old(self).trace_group.traces@[j].name@
                        != old(self).trace_group.traces@[idx].name@);
                }
            }
            let ghost pre_sessions = self.upsert_input_group.sessions@;
            let mut ops: Vec<(Row, Option<Row>)> = Vec::new();
            match self.upsert_input_group.get_mut(&nm) {
                Some(s) => {
                    let ghost found = *s;
                    let drained = s.take_buffer();
                    ops = drained;
                    proof {
                        let k = choose|k: int|
                            0 <= k < pre_sessions.len() && pre_sessions[k] == found
                                && self.upsert_input_group.sessions@ == pre_sessions.update(
                                k,
                                self.upsert_input_group.sessions@[k],
                            );
                        assert(pre_sessions[k] == old_sessions[k]);
                        lemma_buffer_of_found(old_sessions, k);
                        assert(ops@ == buffer_of(old_sessions, trace_name));
                    }
                },
                None => {
                    proof {
                        assert forall|k: int| 0 <= k < old_sessions.len() implies (
                        #[trigger] old_sessions[k]).name@ != trace_name by {
                            assert(self.upsert_input_group.sessions@[k].name@
                                == old_sessions[k].name@);
                            assert(!self.upsert_input_group.has_session(nm@));
                        }
                        lemma_buffer_of_absent(old_sessions, trace_name);
                        assert(ops@ == buffer_of(old_sessions, trace_name));
                    }
                },
            }
            let trace = &mut self.trace_group.traces[i];
            trace.advance(&ops, prev);
            proof {
                assert(self.trace_group.traces@[idx].hist()
                    == old(self).trace_group.traces@[idx].hist() + ops_at(
                    buffer_of(old_sessions, trace_name),
                    prev,
                ));
            }
            i = i + 1;
        }
        self.frontier = time;
        self.upsert_input_group.advance_to(time);
        self.input_group.advance_and_flush(time);
        proof {
            assert forall|a: int, b: int|
                0 <= a < b < self.upsert_input_group.sessions@.len() implies (
            #[trigger] self.upsert_input_group.sessions@[a]).name@ != (
            #[trigger] self.upsert_input_group.sessions@[b]).name@ by {
                assert(old(self).upsert_input_group.sessions@[a].name@ != old(
                    self,
                ).upsert_input_group.sessions@[b].name@);
            }
            assert forall|a: int, b: int|
                0 <= a < b < self.input_group.sessions@.len() implies (
            #[trigger] self.input_group.sessions@[a]).name@ != (
            #[trigger] self.input_group.sessions@[b]).name@ by {
                assert(old(self).input_group.sessions@[a].name == old(
                    self,
                ).input_group.sessions@[b].name || true);
                assert(self.input_group.sessions@[a].name == old(self).input_group.sessions@[a].name);
                assert(self.input_group.sessions@[b].name == old(self).input_group.sessions@[b].name);
                assert(old(self).input_group.sessions@[a].name@ != old(
                    self,
                ).input_group.sessions@[b].name@);
            }
            assert forall|a: int, b: int|
                0 <= a < b < self.trace_group.traces@.len() implies (
            #[trigger] self.trace_group.traces@[a]).name@ != (
            #[trigger] self.trace_group.traces@[b]).name@ by {
                assert(old(self).trace_group.traces@[a].name@ != old(
                    self,
                ).trace_group.traces@[b].name@);
            }
        }
        self.trace_group.logical_compaction(prev);
        proof {
            // Every upsert session matches a trace, so every buffer was
            // drained during the loop.
            assert forall|k: int|
                0 <= k < old(self).upsert_input_group.sessions@.len() implies (
            #[trigger] self.upsert_input_group.sessions@[k]).buffer@ == Seq::<
                (Row, Option<Row>),
            >::empty() by {
                assert(old(self).trace_group.has_trace(
                    old(self).upsert_input_group.sessions@[k].name@,
                ));
            }
            assert forall|k: int|
                0 <= k < self.upsert_input_group.sessions@.len() implies self.trace_group.has_trace(
                (#[trigger] self.upsert_input_group.sessions@[k]).name@,
            ) by {
                let n0 = old(self).upsert_input_group.sessions@[k].name@;
                assert(old(self).trace_group.has_trace(n0));
                let t = choose|t: int|
                    0 <= t < old(self).trace_group.traces@.len() && (#[trigger] old(
                        self,
                    ).trace_group.traces@[t]).name@ == n0;
                assert(self.trace_group.traces@[t].name@ == n0);
            }
        }
    }

    /// Whether a command may be delivered to this worker: the coordinator's
    /// protocol obligations a misbehaving coordinator would break.
    pub open spec fn admissible(&self, cmd: ServerCommand) -> bool {
        match cmd {
            ServerCommand::CreateInputAndTrace { name } => {
                &&& !self.upsert_input_group.has_session(name@)
                &&& !self.trace_group.has_trace(name@)
            },
            ServerCommand::Upsert { name, key, value, time } => {
                &&& time == self.frontier
                &&& self.upsert_input_group.has_session(name@)
            },
            ServerCommand::Query { gid, name, key, time } => {
                &&& time.internal + 1 == self.frontier.internal
                &&& self.trace_group.has_trace(name@)
            },
            ServerCommand::Control(c) => match c {
                ControlCommand::AdvanceTimestamp(t) => {
                    &&& self.peeks@.len() == 0
                    &&& self.frontier.internal < u64::MAX
                    &&& t.internal == self.frontier.internal + 1
                },
                _ => true,
            },
        }
    }

    /// Handle one coordination command: advance the frontier, report the
    /// worker's snapshot, or record shutdown.
    pub fn handle_control_command(&mut self, cmd: ControlCommand) -> (r: Option<SysInternalWorker>)
        requires
            old(self).wf(),
            old(self).admissible(ServerCommand::Control(cmd)),
        ensures
            final(self).wf(),
            match cmd {
                ControlCommand::AdvanceTimestamp(t) => r is None && final(self).advanced_to(
                    *old(self),
                    t,
                ),
                ControlCommand::CollectInternal => {
                    &&& *final(self) == *old(self)
                    &&& match r {
                        Some(w) => {
                            &&& w.index == old(self).index
                            &&& w.frontier == old(self).frontier
                            &&& w.trace_info@.len() == old(self).trace_group.traces@.len()
                            &&& w.upsert_input_info@.len() == old(
                                self,
                            ).upsert_input_group.sessions@.len()
                            &&& w.input_info@.len() == old(self).input_group.sessions@.len()
                        },
                        None => false,
                    }
                },
                ControlCommand::Shutdown => {
                    &&& r is None
                    &&& final(self).shutdown == true
                    &&& final(self).index == old(self).index
                    &&& final(self).frontier == old(self).frontier
                    &&& final(self).trace_group == old(self).trace_group
                    &&& final(self).upsert_input_group == old(self).upsert_input_group
                    &&& final(self).input_group == old(self).input_group
                    &&& final(self).peeks == old(self).peeks
                },
            },
    {
        match cmd {
            ControlCommand::AdvanceTimestamp(time) => {
                self.flush_and_advance(time);
                None
            },
            ControlCommand::CollectInternal => {
                let trace_info = self.trace_group.collect_info();
                let upsert_input_info = self.upsert_input_group.collect_info();
                let input_info = self.input_group.collect_info();
                Some(
                    SysInternalWorker {
                        index: self.index,
                        frontier: self.frontier,
                        upsert_input_info,
                        input_info,
                        trace_info,
                    },
                )
            },
            ControlCommand::Shutdown => {
                self.shutdown = true;
                None
            },
        }
    }

    /// Handle one command from the coordinator.
    pub fn handle_command(&mut self, cmd: ServerCommand) -> (r: Option<WorkerResponse>)
        requires
            old(self).wf(),
            old(self).admissible(cmd),
        ensures
            final(self).wf(),
            match cmd {
                ServerCommand::CreateInputAndTrace { name } => {
                    &&& r is None
                    &&& final(self).frontier == old(self).frontier
                    &&& final(self).shutdown == old(self).shutdown
                    &&& final(self).index == old(self).index
                    &&& final(self).peeks == old(self).peeks
                    &&& final(self).input_group == old(self).input_group
                    &&& final(self).upsert_input_group.sessions@.len() == old(
                        self,
                    ).upsert_input_group.sessions@.len() + 1
                    &&& (final(self).upsert_input_group.sessions@.last()).name@ == name@
                    &&& (final(self).upsert_input_group.sessions@.last()).buffer@ == Seq::<
                        (Row, Option<Row>),
                    >::empty()
                    &&& forall|k: int|
                        0 <= k < old(self).upsert_input_group.sessions@.len()
                            ==> final(self).upsert_input_group.sessions@[k] == (#[trigger] old(
                            self,
                        ).upsert_input_group.sessions@[k])
                    &&& final(self).trace_group.traces@.len() == old(
                        self,
                    ).trace_group.traces@.len() + 1
                    &&& (final(self).trace_group.traces@.last()).name@ == name@
                    &&& (final(self).trace_group.traces@.last()).hist() == Seq::<
                        UpsertOp,
                    >::empty()
                    &&& forall|k: int|
                        0 <= k < old(self).trace_group.traces@.len()
                            ==> final(self).trace_group.traces@[k] == (#[trigger] old(
                            self,
                        ).trace_group.traces@[k])
                },
                ServerCommand::Upsert { name, key, value, time } => {
                    &&& r is None
                    &&& final(self).frontier == old(self).frontier
                    &&& final(self).shutdown == old(self).shutdown
                    &&& final(self).index == old(self).index
                    &&& final(self).peeks == old(self).peeks
                    &&& final(self).input_group == old(self).input_group
                    &&& final(self).trace_group == old(self).trace_group
                    &&& final(self).upsert_input_group.sent_to(
                        old(self).upsert_input_group,
                        name@,
                        key,
                        value,
                    )
                },
                ServerCommand::Query { gid, name, key, time } => {
                    &&& *final(self) == *old(self)
                    &&& exists|i: int|
                        {
                            &&& 0 <= i < old(self).trace_group.traces@.len()
                            &&& (#[trigger] old(self).trace_group.traces@[i]).name@ == name@
                            &&& match r {
                                Some(WorkerResponse::QueryReply { gid: g, rows }) => g == gid
                                    && rows@ == reading(
                                    old(self).trace_group.traces@[i].hist(),
                                    key,
                                    time.internal as int,
                                ),
                                _ => false,
                            }
                        }
                },
                ServerCommand::Control(c) => match c {
                    ControlCommand::AdvanceTimestamp(t) => r is None && final(self).advanced_to(
                        *old(self),
                        t,
                    ),
                    ControlCommand::CollectInternal => {
                        &&& *final(self) == *old(self)
                        &&& r matches Some(WorkerResponse::Internal(w)) && w.index == old(
                            self,
                        ).index && w.frontier == old(self).frontier
                    },
                    ControlCommand::Shutdown => {
                        &&& r is None
                        &&& final(self).shutdown == true
                        &&& final(self).frontier == old(self).frontier
                        &&& final(self).trace_group == old(self).trace_group
                        &&& final(self).upsert_input_group == old(self).upsert_input_group
                        &&& final(self).input_group == old(self).input_group
                        &&& final(self).peeks == old(self).peeks
                        &&& final(self).index == old(self).index
                    },
                },
            },
    {
        match cmd {
            ServerCommand::CreateInputAndTrace { name } => {
                let at = self.frontier;
                let session_name = name.clone();
                let session = UpsertSession::new(session_name, at);
                self.upsert_input_group.register(session);
                let trace = Trace::new(name, at);
                self.trace_group.register_trace(trace);
                proof {
                    assert forall|k: int|
                        0 <= k < self.upsert_input_group.sessions@.len() implies self.trace_group.has_trace(
                        (#[trigger] self.upsert_input_group.sessions@[k]).name@,
                    ) by {
                        if k < old(self).upsert_input_group.sessions@.len() {
                            let n0 = old(self).upsert_input_group.sessions@[k].name@;
                            let t = choose|t: int|
                                0 <= t < old(self).trace_group.traces@.len() && (#[trigger] old(
                                    self,
                                ).trace_group.traces@[t]).name@ == n0;
                            assert(self.trace_group.traces@[t].name@ == n0);
                        } else {
                            let t = self.trace_group.traces@.len() - 1;
                            assert(self.trace_group.traces@[t].name@ == name@);
                        }
                    }
                    assert forall|j: int|
                        0 <= j < self.peeks@.len() implies peek_ok(
                        self.trace_group,
                        self.frontier,
                        #[trigger] self.peeks@[j],
                    ) by {
                        let p = self.peeks@[j];
                        assert(peek_ok(old(self).trace_group, old(self).frontier, p));
                        let t = choose|t: int|
                            0 <= t < old(self).trace_group.traces@.len() && (#[trigger] old(
                                self,
                            ).trace_group.traces@[t]).name@ == p.name@;
                        assert(self.trace_group.traces@[t].name@ == p.name@);
                        assert forall|i2: int|
                            0 <= i2 < self.trace_group.traces@.len() && (
                            #[trigger] self.trace_group.traces@[i2]).name@ == p.name@ implies self.trace_group.traces@[i2].logical.internal
                            <= p.time.internal by {
                            if i2 < old(self).trace_group.traces@.len() {
                                assert(old(self).trace_group.traces@[i2].logical.internal
                                    <= p.time.internal);
                            } else {
                                assert(self.trace_group.traces@[i2].logical.internal == 0);
                            }
                        }
                    }
                }
                None
            },
            ServerCommand::Upsert { name, key, value, time } => {
                self.upsert_input_group.send_to(&name, key, value);
                proof {
                    assert forall|k: int|
                        0 <= k < self.upsert_input_group.sessions@.len() implies ((
                        #[trigger] self.upsert_input_group.sessions@[k]).time == self.frontier
                            && self.trace_group.has_trace(
                            self.upsert_input_group.sessions@[k].name@,
                        )) by {
                        assert(old(self).upsert_input_group.sessions@[k].time == self.frontier);
                        assert(self.upsert_input_group.sessions@[k].name@ == old(
                            self,
                        ).upsert_input_group.sessions@[k].name@);
                    }
                }
                None
            },
            ServerCommand::Query { gid, name, key, time } => {
                let peek = PendingQuery { gid, name, time, key, logical: time };
                let ghost tg = self.trace_group;
                match self.trace_group.get(&peek.name) {
                    Some(trace) => {
                        proof {
                            let t = choose|t: int|
                                0 <= t < tg.traces@.len() && tg.traces@[t] == *trace;
                            assert(tg.traces@[t].logical.internal < self.frontier.internal);
                        }
                        let (res, reply) = peek.attempt(trace);
                        match res {
                            PeekResult::Done => {
                                match reply {
                                    Some(rows) => Some(WorkerResponse::QueryReply { gid, rows }),
                                    None => {
                                        proof {
                                            assert(false);
                                        }
                                        None
                                    },
                                }
                            },
                            PeekResult::NotReady => {
                                proof {
                                    let t = choose|t: int|
                                        0 <= t < tg.traces@.len() && tg.traces@[t] == *trace;
                                    assert(tg.traces@[t].upper == self.frontier);
                                    assert(false);
                                }
                                self.peeks.push(peek);
                                None
                            },
                        }
                    },
                    None => {
                        proof {
                            assert(false);
                        }
                        None
                    },
                }
            },
            ServerCommand::Control(c) => {
                let res = self.handle_control_command(c);
                match res {
                    Some(w) => Some(WorkerResponse::Internal(w)),
                    None => None,
                }
            },
        }
    }

    /// Try every deferred query once; drop the answered ones and keep the
    /// rest. Every kept task found its trace not yet past its time; every
    /// answer is the consistent read some deferred query asked for.
    pub fn handle_peeks(&mut self) -> (r: Vec<(GID, Vec<Row>)>)
        requires
            old(self).wf(),
        ensures
            final(self).wf(),
            final(self).trace_group == old(self).trace_group,
            final(self).upsert_input_group == old(self).upsert_input_group,
            final(self).input_group == old(self).input_group,
            final(self).frontier == old(self).frontier,
            final(self).shutdown == old(self).shutdown,
            final(self).index == old(self).index,
            r@.len() + final(self).peeks@.len() == old(self).peeks@.len(),
            old(self).peeks@.len() == 0 ==> final(self).peeks@.len() == 0 && r@.len() == 0,
            forall|j: int|
                0 <= j < final(self).peeks@.len() ==> peek_not_ready(
                    old(self).trace_group,
                    #[trigger] final(self).peeks@[j],
                ),
            forall|ri: int|
                0 <= ri < r@.len() ==> reply_justified(
                    *old(self),
                    (#[trigger] r@[ri]).0,
                    r@[ri].1@,
                ),
    {
        let mut taken: Vec<PendingQuery> = Vec::new();
        core::mem::swap(&mut taken, &mut self.peeks);
        let mut replies: Vec<(GID, Vec<Row>)> = Vec::new();
        let ghost total = taken@.len();
        while taken.len() > 0
            invariant
                old(self).wf(),
                self.trace_group == old(self).trace_group,
                self.upsert_input_group == old(self).upsert_input_group,
                self.input_group == old(self).input_group,
                self.frontier == old(self).frontier,
                self.shutdown == old(self).shutdown,
                self.index == old(self).index,
                replies@.len() + self.peeks@.len() + taken@.len() == total,
                total == old(self).peeks@.len(),
                forall|j: int| 0 <= j < taken@.len() ==> (#[trigger] taken@[j]) == old(
                    self,
                ).peeks@[total - taken@.len() + j],
                forall|j: int|
                    0 <= j < self.peeks@.len() ==> peek_ok(
                        self.trace_group,
                        self.frontier,
                        #[trigger] self.peeks@[j],
                    ),
                forall|j: int|
                    0 <= j < self.peeks@.len() ==> peek_not_ready(
                        old(self).trace_group,
                        #[trigger] self.peeks@[j],
                    ),
                forall|ri: int|
                    0 <= ri < replies@.len() ==> reply_justified(
                        *old(self),
                        (#[trigger] replies@[ri]).0,
                        replies@[ri].1@,
                    ),
            decreases taken@.len(),
        {
            let ghost source = total - taken@.len();
            let p = taken.remove(0);
            proof {
                assert(p == old(self).peeks@[source]);
                assert(peek_ok(old(self).trace_group, old(self).frontier, old(
                    self,
                ).peeks@[source]));
            }
            let ghost tg = self.trace_group;
            match self.trace_group.get(&p.name) {
                Some(trace) => {
                    proof {
                        let t = choose|t: int| 0 <= t < tg.traces@.len() && tg.traces@[t] == *trace;
                        assert(tg.traces@[t].logical.internal <= p.time.internal);
                    }
                    let (res, reply) = p.attempt(trace);
                    match res {
                        PeekResult::Done => {
                            match reply {
                                Some(rows) => {
                                    let ghost rows_view = rows@;
                                    replies.push((p.gid, rows));
                                    proof {
                                        let t = choose|t: int|
                                            0 <= t < tg.traces@.len() && tg.traces@[t] == *trace;
                                        assert(tg.traces@[t].name@ == p.name@ && rows_view
                                            == reading(
                                            tg.traces@[t].hist(),
                                            p.key,
                                            p.time.internal as int,
                                        ));
                                        assert(reply_matches(
                                            old(self).trace_group,
                                            old(self).peeks@[source],
                                            p.gid,
                                            rows_view,
                                        ));
                                        assert(reply_justified(*old(self), p.gid, rows_view));
                                        assert(replies@.last().0 == p.gid);
                                        assert(replies@.last().1@ == rows_view);
                                    }
                                },
                                None => {
                                    proof {
                                        assert(false);
                                    }
                                },
                            }
                        },
                        PeekResult::NotReady => {
                            proof {
                                let t = choose|t: int|
                                    0 <= t < tg.traces@.len() && tg.traces@[t] == *trace;
                                assert(tg.traces@[t].name@ == p.name@
                                    && tg.traces@[t].upper.internal <= p.time.internal);
                                assert(peek_not_ready(old(self).trace_group, p));
                            }
                            self.peeks.push(p);
                        },
                    }
                },
                None => {
                    proof {
                        assert(false);
                    }
                },
            }
        }
        replies
    }
}

/// Some deferred query of the prior worker state asked for exactly this
/// answer.
pub open spec fn reply_justified(pre: WorkerContext, g: GID, rows: Seq<Row>) -> bool {
    exists|j: int|
        0 <= j < pre.peeks@.len() && reply_matches(pre.trace_group, #[trigger] pre.peeks@[j], g, rows)
}

/// A deferred query found its trace not yet advanced strictly past its time.
pub open spec fn peek_not_ready(tg: TraceGroup, p: PendingQuery) -> bool {
    exists|i: int|
        0 <= i < tg.traces@.len() && (#[trigger] tg.traces@[i]).name@ == p.name@
            && tg.traces@[i].upper.internal <= p.time.internal
}

/// An answer carries a deferred query's identifier and the consistent read
/// of its trace at its time.
pub open spec fn reply_matches(tg: TraceGroup, p: PendingQuery, g: GID, rows: Seq<Row>) -> bool {
    &&& g == p.gid
    &&& exists|i: int|
        0 <= i < tg.traces@.len() && (#[trigger] tg.traces@[i]).name@ == p.name@ && rows == reading(
            tg.traces@[i].hist(),
            p.key,
            p.time.internal as int,
        )
}

} // verus!
