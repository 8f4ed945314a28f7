//! The engine as one replayable state machine: the coordinator plus its
//! worker pool, with every command dispatched in order. This module states
//! and proves the engine-wide laws: the frontier protocol keeps every worker
//! in lockstep with the coordinator, query times are sound, replaying one
//! command sequence determines every trace's contents, and shutdown reaches
//! every worker.

use crate::command::{ClientCommand, ControlCommand, ServerCommand};
use crate::coord::Coord;
use crate::error::Error;
use crate::gid::GID;
use crate::internal::{SysInternal, SysInternalCoord, SysInternalWorker};
use crate::row::Row;
use crate::timestamp::SysTime;
use crate::trace::{ops_at, reading, UpsertOp};
use crate::worker::{lemma_buffer_of_found, WorkerContext, WorkerResponse};
use vstd::prelude::*;

verus! {

/// What a client call comes back with.
pub enum ClientResponse {
    /// The command was applied.
    Done,
    /// The command was rejected before any side effect.
    Failed(Error),
    /// The answer to a query, read at a consistent time.
    Rows { gid: GID, rows: Vec<Row> },
    /// The engine's internal snapshot.
    Internal(SysInternal),
    /// Shutdown was broadcast to every worker.
    ShuttingDown,
}

/// The whole engine: the coordinator and the workers it drives.
pub struct System {
    pub coord: Coord,
    pub workers: Vec<WorkerContext>,
}

impl System {
    /// The engine invariant: every worker is well-formed, sits exactly at
    /// the coordinator's epoch, has no deferred queries or buffered
    /// changes outstanding between commands, and mirrors the catalog: its
    /// `k`-th session and `k`-th trace carry the `k`-th created name.
    pub open spec fn wf(&self) -> bool {
        &&& self.coord.wf()
        &&& self.workers@.len() == self.coord.workers
        &&& self.coord.epoch.internal >= 1
        &&& self.coord.catalog.input@.len() == self.coord.catalog.trace@.len()
        &&& forall|k: int|
            0 <= k < self.coord.catalog.input@.len() ==> ((#[trigger] self.coord.catalog.input@[k])@
                == (self.coord.catalog.trace@[k])@)
        &&& forall|w: int|
            0 <= w < self.workers@.len() ==> {
                &&& (#[trigger] self.workers@[w]).wf()
                &&& self.workers@[w].index == w
                &&& self.workers@[w].frontier == self.coord.epoch
                &&& self.workers@[w].peeks@.len() == 0
                &&& self.workers@[w].shutdown == self.coord.closed
                &&& self.workers@[w].upsert_input_group.sessions@.len()
                    == self.coord.catalog.input@.len()
                &&& self.workers@[w].trace_group.traces@.len() == self.coord.catalog.trace@.len()
                &&& forall|k: int|
                    0 <= k < self.coord.catalog.input@.len() ==> {
                        &&& ((#[trigger] self.workers@[w].upsert_input_group.sessions@[k]).name@
                            == (self.coord.catalog.input@[k])@)
                        &&& self.workers@[w].upsert_input_group.sessions@[k].buffer@ == Seq::<
                            (Row, Option<Row>),
                        >::empty()
                    }
                &&& forall|k: int|
                    0 <= k < self.coord.catalog.trace@.len() ==> ((
                    #[trigger] self.workers@[w].trace_group.traces@[k]).name@
                        == (self.coord.catalog.trace@[k])@)
            }
    }

    /// Start the engine: one coordinator, the given number of workers, and
    /// the bootstrap frontier advance, so that the first query reads at
    /// the least time and the first update lands one step past it.
    pub fn new(workers: usize) -> (r: System)
        requires
            workers > 0,
        ensures
            r.wf(),
            r.coord.epoch.internal == 1,
            r.coord.closed == false,
            r.coord.catalog.input@.len() == 0,
            r.workers@.len() == workers,
    {
        let coord = Coord::new(workers);
        let mut pool: Vec<WorkerContext> = Vec::new();
        let mut i: usize = 0;
        while i < workers
            invariant
                0 <= i <= workers,
                pool@.len() == i,
                forall|w: int|
                    0 <= w < i ==> {
                        &&& (#[trigger] pool@[w]).wf()
                        &&& pool@[w].index == w
                        &&& pool@[w].frontier.internal == 0
                        &&& pool@[w].shutdown == false
                        &&& pool@[w].peeks@.len() == 0
                        &&& pool@[w].trace_group.traces@.len() == 0
                        &&& pool@[w].upsert_input_group.sessions@.len() == 0
                        &&& pool@[w].input_group.sessions@.len() == 0
                    },
            decreases workers - i,
        {
            pool.push(WorkerContext::new(i));
            i = i + 1;
        }
        let mut sys = System { coord, workers: pool };
        let _bootstrap = sys.coord.advance_epoch();
        let target = sys.coord.epoch;
        let n = sys.workers.len();
        let mut w: usize = 0;
        while w < n
            invariant
                n == sys.workers@.len(),
                0 <= w <= n,
                target.internal == 1,
                sys.coord.epoch == target,
                sys.coord.closed == false,
                sys.coord.wf(),
                sys.coord.workers == n,
                sys.coord.catalog.input@.len() == 0,
                sys.coord.catalog.trace@.len() == 0,
                forall|j: int|
                    0 <= j < w ==> {
                        &&& (#[trigger] sys.workers@[j]).wf()
                        &&& sys.workers@[j].index == j
                        &&& sys.workers@[j].frontier == target
                        &&& sys.workers@[j].shutdown == false
                        &&& sys.workers@[j].peeks@.len() == 0
                        &&& sys.workers@[j].trace_group.traces@.len() == 0
                        &&& sys.workers@[j].upsert_input_group.sessions@.len() == 0
                    },
                forall|j: int|
                    w <= j < n ==> {
                        &&& (#[trigger] sys.workers@[j]).wf()
                        &&& sys.workers@[j].index == j
                        &&& sys.workers@[j].frontier.internal == 0
                        &&& sys.workers@[j].shutdown == false
                        &&& sys.workers@[j].peeks@.len() == 0
                        &&& sys.workers@[j].trace_group.traces@.len() == 0
                        &&& sys.workers@[j].upsert_input_group.sessions@.len() == 0
                        &&& sys.workers@[j].input_group.sessions@.len() == 0
                    },
            decreases n - w,
        {
            let worker = &mut sys.workers[w];
            worker.handle_control_command(ControlCommand::AdvanceTimestamp(target));
            w = w + 1;
        }
        sys
    }

    /// One step of the coordinator's loop: dispatch a client command to the
    /// pool and collect what comes back.
    ///
    /// Every update broadcast is followed immediately by its frontier
    /// advance at every worker, so any outstanding query one step behind
    /// can make progress; every query is routed with the current query
    /// time, one step behind the epoch.
    pub fn step(&mut self, cmd: ClientCommand) -> (r: ClientResponse)
        requires
            old(self).wf(),
            !old(self).coord.closed,
            cmd matches ClientCommand::Upsert { name, key, value } ==> old(
                self,
            ).coord.epoch.internal < u64::MAX,
            cmd matches ClientCommand::Query { name, key } ==> old(self).coord.gid_gen.0
                < u64::MAX,
        ensures
            final(self).wf(),
            step_rel(*old(self), *final(self), cmd),
            match cmd {
                ClientCommand::CreateInputAndTrace { name } => {
                    &&& (old(self).coord.catalog.has_input(name@) || old(
                        self,
                    ).coord.catalog.has_trace(name@)) <==> (r matches ClientResponse::Failed(e))
                    &&& !(old(self).coord.catalog.has_input(name@) || old(
                        self,
                    ).coord.catalog.has_trace(name@)) <==> (r matches ClientResponse::Done)
                },
                ClientCommand::Upsert { name, key, value } => {
                    &&& old(self).coord.catalog.has_input(name@) <==> (r
                        matches ClientResponse::Done)
                    &&& !old(self).coord.catalog.has_input(name@) ==> (r matches
                        ClientResponse::Failed(e) && e matches Error::InputNotExists(n) && n@
                        == name@)
                },
                ClientCommand::Query { name, key } => {
                    &&& old(self).coord.catalog.has_trace(name@) <==> (r matches
                        ClientResponse::Rows { gid, rows })
                    &&& (match r {
                        ClientResponse::Rows { gid, rows } => exists|k: int|
                            {
                                &&& 0 <= k < old(self).coord.catalog.trace@.len()
                                &&& ((#[trigger] old(self).coord.catalog.trace@[k])@ == name@)
                                &&& exists|w: int|
                                    0 <= w < old(self).workers@.len() && rows@ == reading(
                                        (#[trigger] old(
                                            self,
                                        ).workers@[w]).trace_group.traces@[k].hist(),
                                        key,
                                        old(self).coord.epoch.internal - 1,
                                    )
                            },
                        ClientResponse::Failed(e) => e matches Error::TraceNotExist(n) && n@
                            == name@,
                        _ => false,
                    })
                },
                ClientCommand::CollectInternal => r matches ClientResponse::Internal(d),
                ClientCommand::Shutdown => r matches ClientResponse::ShuttingDown,
            },
    {
        match cmd {
            ClientCommand::CreateInputAndTrace { name } => {
                let created = self.coord.catalog.create_input_and_trace(name.clone());
                match created {
                    Err(e) => ClientResponse::Failed(e),
                    Ok(()) => {
                        let n = self.workers.len();
                        let mut w: usize = 0;
                        while w < n
                            invariant
                                n == self.workers@.len(),
                                0 <= w <= n,
                                old(self).wf(),
                                old(self).workers@.len() == n,
                                !old(self).coord.catalog.has_input(name@),
                                !old(self).coord.catalog.has_trace(name@),
                                self.coord.epoch == old(self).coord.epoch,
                                self.coord.closed == old(self).coord.closed,
                                self.coord.workers == old(self).coord.workers,
                                self.coord.gid_gen == old(self).coord.gid_gen,
                                self.coord.txn_manager == old(self).coord.txn_manager,
                                self.coord.wf(),
                                self.coord.catalog.input@.len() == old(
                                    self,
                                ).coord.catalog.input@.len() + 1,
                                self.coord.catalog.trace@.len() == old(
                                    self,
                                ).coord.catalog.trace@.len() + 1,
                                (self.coord.catalog.input@.last())@ == name@,
                                (self.coord.catalog.trace@.last())@ == name@,
                                forall|k: int|
                                    0 <= k < old(self).coord.catalog.input@.len()
                                        ==> self.coord.catalog.input@[k] == (#[trigger] old(
                                        self,
                                    ).coord.catalog.input@[k]),
                                forall|k: int|
                                    0 <= k < old(self).coord.catalog.trace@.len()
                                        ==> self.coord.catalog.trace@[k] == (#[trigger] old(
                                        self,
                                    ).coord.catalog.trace@[k]),
                                forall|j: int| w <= j < n ==> (#[trigger] self.workers@[j]) == old(
                                    self,
                                ).workers@[j],
                                forall|j: int| 0 <= j < w ==> (#[trigger] self.workers@[j]).wf(),
                                forall|j: int| 0 <= j < w ==> (#[trigger] self.workers@[j]).index
                                    == j,
                                forall|j: int| 0 <= j < w ==> (#[trigger] self.workers@[j]).frontier
                                    == old(self).coord.epoch,
                                forall|j: int| 0 <= j < w ==> (#[trigger] self.workers@[j]).shutdown
                                    == old(self).coord.closed,
                                forall|j: int|
                                    0 <= j < w ==> (#[trigger] self.workers@[j]).peeks@.len() == 0,
                                forall|j: int|
                                    0 <= j < w ==> (#[trigger] self.workers@[j]).input_group == old(
                                        self,
                                    ).workers@[j].input_group,
                                forall|j: int|
                                    0 <= j < w ==> (
                                    #[trigger] self.workers@[j]).upsert_input_group.sessions@.len()
                                        == old(self).workers@[j].upsert_input_group.sessions@.len()
                                        + 1,
                                forall|j: int|
                                    0 <= j < w ==> (
                                    #[trigger] self.workers@[j]).trace_group.traces@.len() == old(
                                        self,
                                    ).workers@[j].trace_group.traces@.len() + 1,
                                forall|j: int|
                                    0 <= j < w ==> ((
                                    #[trigger] self.workers@[j]).upsert_input_group.sessions@.last()).name@
                                        == name@,
                                forall|j: int|
                                    0 <= j < w ==> ((
                                    #[trigger] self.workers@[j]).upsert_input_group.sessions@.last()).buffer@
                                        == Seq::<(Row, Option<Row>)>::empty(),
                                forall|j: int|
                                    0 <= j < w ==> ((
                                    #[trigger] self.workers@[j]).trace_group.traces@.last()).name@
                                        == name@,
                                forall|j: int|
                                    0 <= j < w ==> ((
                                    #[trigger] self.workers@[j]).trace_group.traces@.last()).hist()
                                        == Seq::<UpsertOp>::empty(),
                                forall|j: int, k: int|
                                    0 <= j < w && 0 <= k < old(
                                        self,
                                    ).workers@[j].upsert_input_group.sessions@.len() ==> (
                                    #[trigger] self.workers@[j].upsert_input_group.sessions@[k])
                                        == old(self).workers@[j].upsert_input_group.sessions@[k],
                                forall|j: int, k: int|
                                    0 <= j < w && 0 <= k < old(
                                        self,
                                    ).workers@[j].trace_group.traces@.len() ==> (
                                    #[trigger] self.workers@[j].trace_group.traces@[k]) == old(
                                        self,
                                    ).workers@[j].trace_group.traces@[k],
                            decreases n - w,
                        {
                            proof {
                                assert(old(self).wf());
                                assert(old(self).workers@.len() == n);
                                assert(old(self).workers@[w as int].upsert_input_group.sessions@.len()
                                    == old(self).coord.catalog.input@.len());
                                assert(self.workers@[w as int] == old(self).workers@[w as int]);
                                assert forall|k: int|
                                    0 <= k < self.workers@[w as int].upsert_input_group.sessions@.len() implies (
                                #[trigger] self.workers@[w as int].upsert_input_group.sessions@[k]).name@
                                    != name@ by {
                                    assert(old(
                                        self,
                                    ).workers@[w as int].upsert_input_group.sessions@[k].name@ == (
                                    old(self).coord.catalog.input@[k])@);
                                }
                                assert(!self.workers@[w as int].upsert_input_group.has_session(
                                    name@,
                                ));
                                assert forall|k: int|
                                    0 <= k < self.workers@[w as int].trace_group.traces@.len() implies (
                                #[trigger] self.workers@[w as int].trace_group.traces@[k]).name@
                                    != name@ by {
                                    assert(old(self).workers@[w as int].trace_group.traces@[k].name@
                                        == (old(self).coord.catalog.trace@[k])@);
                                }
                                assert(!self.workers@[w as int].trace_group.has_trace(name@));
                            }
                            let worker = &mut self.workers[w];
                            worker.handle_command(
                                ServerCommand::CreateInputAndTrace { name: name.clone() },
                            );
                            w = w + 1;
                        }
                        proof {
                            let pre_len = old(self).coord.catalog.input@.len();
                            assert forall|k: int|
                                0 <= k < self.coord.catalog.input@.len() implies ((
                            #[trigger] self.coord.catalog.input@[k])@ == (
                            self.coord.catalog.trace@[k])@) by {
                                if k < pre_len {
                                    assert(self.coord.catalog.input@[k] == old(
                                        self,
                                    ).coord.catalog.input@[k]);
                                    assert(self.coord.catalog.trace@[k] == old(
                                        self,
                                    ).coord.catalog.trace@[k]);
                                    assert((old(self).coord.catalog.input@[k])@ == (old(
                                        self,
                                    ).coord.catalog.trace@[k])@);
                                } else {
                                    assert(self.coord.catalog.input@[k]
                                        == self.coord.catalog.input@.last());
                                    assert(self.coord.catalog.trace@[k]
                                        == self.coord.catalog.trace@.last());
                                }
                            }
                            assert forall|w2: int|
                                0 <= w2 < self.workers@.len() implies {
                                &&& (#[trigger] self.workers@[w2]).wf()
                                &&& self.workers@[w2].index == w2
                                &&& self.workers@[w2].frontier == self.coord.epoch
                                &&& self.workers@[w2].peeks@.len() == 0
                                &&& self.workers@[w2].shutdown == self.coord.closed
                                &&& self.workers@[w2].upsert_input_group.sessions@.len()
                                    == self.coord.catalog.input@.len()
                                &&& self.workers@[w2].trace_group.traces@.len()
                                    == self.coord.catalog.trace@.len()
                            } by {
                                assert(old(self).workers@[w2].wf());
                            }
                            assert forall|w2: int, k: int|
                                0 <= w2 < self.workers@.len() && 0 <= k
                                    < self.coord.catalog.input@.len() implies {
                                &&& ((#[trigger] self.workers@[w2].upsert_input_group.sessions@[k]).name@
                                    == (self.coord.catalog.input@[k])@)
                                &&& self.workers@[w2].upsert_input_group.sessions@[k].buffer@
                                    == Seq::<(Row, Option<Row>)>::empty()
                            } by {
                                assert(old(self).workers@[w2].wf());
                                if k < pre_len {
                                    assert(self.workers@[w2].upsert_input_group.sessions@[k] == old(
                                        self,
                                    ).workers@[w2].upsert_input_group.sessions@[k]);
                                    assert(old(
                                        self,
                                    ).workers@[w2].upsert_input_group.sessions@[k].name@ == (old(
                                        self,
                                    ).coord.catalog.input@[k])@);
                                    assert(self.coord.catalog.input@[k] == old(
                                        self,
                                    ).coord.catalog.input@[k]);
                                } else {
                                    assert(self.workers@[w2].upsert_input_group.sessions@[k]
                                        == self.workers@[w2].upsert_input_group.sessions@.last());
                                    assert(self.coord.catalog.input@[k]
                                        == self.coord.catalog.input@.last());
                                }
                            }
                            assert forall|w2: int, k: int|
                                0 <= w2 < self.workers@.len() && 0 <= k
                                    < self.coord.catalog.trace@.len() implies ((
                            #[trigger] self.workers@[w2].trace_group.traces@[k]).name@ == (
                            self.coord.catalog.trace@[k])@) by {
                                assert(old(self).workers@[w2].wf());
                                if k < pre_len {
                                    assert(self.workers@[w2].trace_group.traces@[k] == old(
                                        self,
                                    ).workers@[w2].trace_group.traces@[k]);
                                    assert(old(self).workers@[w2].trace_group.traces@[k].name@ == (
                                    old(self).coord.catalog.trace@[k])@);
                                    assert(self.coord.catalog.trace@[k] == old(
                                        self,
                                    ).coord.catalog.trace@[k]);
                                } else {
                                    assert(self.workers@[w2].trace_group.traces@[k]
                                        == self.workers@[w2].trace_group.traces@.last());
                                    assert(self.coord.catalog.trace@[k]
                                        == self.coord.catalog.trace@.last());
                                }
                            }
                        }
                        ClientResponse::Done
                    },
                }
            },
            ClientCommand::Upsert { name, key, value } => {
                if !self.coord.catalog.input_exists(&name) {
                    return ClientResponse::Failed(Error::InputNotExists(name));
                }
                let stamp = self.coord.advance_epoch();
                let target = self.coord.epoch;
                let n = self.workers.len();
                let mut w: usize = 0;
                while w < n
                    invariant
                        n == self.workers@.len(),
                        0 <= w <= n,
                        old(self).wf(),
                                old(self).workers@.len() == n,
                        old(self).coord.catalog.has_input(name@),
                        old(self).coord.epoch.internal < u64::MAX,
                        stamp == old(self).coord.epoch,
                        target.internal == stamp.internal + 1,
                        self.coord.epoch == target,
                        self.coord.closed == old(self).coord.closed,
                        self.coord.workers == old(self).coord.workers,
                        self.coord.catalog == old(self).coord.catalog,
                        self.coord.gid_gen == old(self).coord.gid_gen,
                        self.coord.txn_manager == old(self).coord.txn_manager,
                        forall|j: int| w <= j < n ==> (#[trigger] self.workers@[j]) == old(
                            self,
                        ).workers@[j],
                        forall|j: int| 0 <= j < w ==> (#[trigger] self.workers@[j]).wf(),
                        forall|j: int| 0 <= j < w ==> (#[trigger] self.workers@[j]).index == j,
                        forall|j: int| 0 <= j < w ==> (#[trigger] self.workers@[j]).frontier
                            == target,
                        forall|j: int| 0 <= j < w ==> (#[trigger] self.workers@[j]).shutdown == old(
                            self,
                        ).coord.closed,
                        forall|j: int| 0 <= j < w ==> (#[trigger] self.workers@[j]).peeks@.len()
                            == 0,
                        forall|j: int|
                            0 <= j < w ==> (
                            #[trigger] self.workers@[j]).upsert_input_group.sessions@.len() == old(
                                self,
                            ).workers@[j].upsert_input_group.sessions@.len(),
                        forall|j: int|
                            0 <= j < w ==> (#[trigger] self.workers@[j]).trace_group.traces@.len()
                                == old(self).workers@[j].trace_group.traces@.len(),
                        forall|j: int, k: int|
                            0 <= j < w && 0 <= k < old(
                                self,
                            ).workers@[j].upsert_input_group.sessions@.len() ==> {
                                &&& ((#[trigger] self.workers@[j].upsert_input_group.sessions@[k]).name@
                                    == old(self).workers@[j].upsert_input_group.sessions@[k].name@)
                                &&& self.workers@[j].upsert_input_group.sessions@[k].buffer@
                                    == Seq::<(Row, Option<Row>)>::empty()
                                &&& self.workers@[j].upsert_input_group.sessions@[k].time == target
                            },
                        forall|j: int, k: int|
                            0 <= j < w && 0 <= k < old(
                                self,
                            ).workers@[j].trace_group.traces@.len() ==> {
                                &&& ((#[trigger] self.workers@[j].trace_group.traces@[k]).name
                                    == old(self).workers@[j].trace_group.traces@[k].name)
                                &&& self.workers@[j].trace_group.traces@[k].hist() == old(
                                    self,
                                ).workers@[j].trace_group.traces@[k].hist() + (if (old(
                                    self,
                                ).coord.catalog.input@[k])@ == name@ {
                                    seq![UpsertOp { key, value, time: stamp }]
                                } else {
                                    Seq::<UpsertOp>::empty()
                                })
                            },
                    decreases n - w,
                {
                    let ghost wj = self.workers@[w as int];
                    proof {
                        assert(wj == old(self).workers@[w as int]);
                        let ki = choose|ki: int|
                            0 <= ki < old(self).coord.catalog.input@.len() && ((#[trigger] old(
                                self,
                            ).coord.catalog.input@[ki])@ == name@);
                        assert(old(self).workers@[w as int].upsert_input_group.sessions@[ki].name@
                            == (old(self).coord.catalog.input@[ki])@);
                        assert(wj.upsert_input_group.sessions@[ki].name@ == name@);
                        assert(wj.upsert_input_group.has_session(name@));
                    }
                    let worker = &mut self.workers[w];
                    worker.handle_command(
                        ServerCommand::Upsert {
                            name: name.clone(),
                            key,
                            value,
                            time: stamp,
                        },
                    );
                    let ghost mid = *worker;
                    worker.handle_command(
                        ServerCommand::Control(ControlCommand::AdvanceTimestamp(target)),
                    );
                    proof {
                        let i = choose|i: int|
                            {
                                &&& 0 <= i < wj.upsert_input_group.sessions@.len()
                                &&& ((#[trigger] wj.upsert_input_group.sessions@[i]).name@ == name@)
                                &&& mid.upsert_input_group.sessions@[i].buffer@
                                    == wj.upsert_input_group.sessions@[i].buffer@.push((key, value))
                                &&& mid.upsert_input_group.sessions@[i].time
                                    == wj.upsert_input_group.sessions@[i].time
                                &&& mid.upsert_input_group.sessions@[i].name@
                                    == wj.upsert_input_group.sessions@[i].name@
                                &&& forall|k: int|
                                    0 <= k < wj.upsert_input_group.sessions@.len() && k != i ==> (
                                    #[trigger] mid.upsert_input_group.sessions@[k])
                                        == wj.upsert_input_group.sessions@[k]
                            };
                        assert forall|k: int|
                            0 <= k < old(
                                self,
                            ).workers@[w as int].trace_group.traces@.len() implies ((
                        #[trigger] self.workers@[w as int].trace_group.traces@[k]).hist() == old(
                            self,
                        ).workers@[w as int].trace_group.traces@[k].hist() + (if (old(
                            self,
                        ).coord.catalog.input@[k])@ == name@ {
                            seq![UpsertOp { key, value, time: stamp }]
                        } else {
                            Seq::<UpsertOp>::empty()
                        })) by {
                            assert(old(self).workers@[w as int].trace_group.traces@[k].name@ == (
                            old(self).coord.catalog.trace@[k])@);
                            assert(old(
                                self,
                            ).workers@[w as int].upsert_input_group.sessions@[k].name@ == (old(
                                self,
                            ).coord.catalog.input@[k])@);
                            assert(mid.trace_group.traces@[k].name@ == (old(
                                self,
                            ).coord.catalog.trace@[k])@);
                            assert(mid.upsert_input_group.sessions@[k].name@ == (old(
                                self,
                            ).coord.catalog.input@[k])@);
                            lemma_buffer_of_found(mid.upsert_input_group.sessions@, k);
                            if (old(self).coord.catalog.input@[k])@ == name@ {
                                assert(k == i);
                                assert(mid.upsert_input_group.sessions@[k].buffer@ == seq![
                                    (key, value),
                                ]);
                                assert(ops_at(seq![(key, value)], stamp) =~= seq![
                                    UpsertOp { key, value, time: stamp },
                                ]);
                            } else {
                                assert(k != i);
                                assert(mid.upsert_input_group.sessions@[k].buffer@ == Seq::<
                                    (Row, Option<Row>),
                                >::empty());
                                assert(ops_at(Seq::<(Row, Option<Row>)>::empty(), stamp) =~= Seq::<
                                    UpsertOp,
                                >::empty());
                            }
                        }
                    }
                    w = w + 1;
                }
                ClientResponse::Done
            },
            ClientCommand::Query { name, key } => {
                let routed = self.coord.catalog.determine_trace_worker(&name, &key);
                match routed {
                    Err(e) => ClientResponse::Failed(e),
                    Ok(idx) => {
                        let time = self.coord.query_time();
                        let token = self.coord.txn_manager.allocate_read_token(time);
                        let gid = self.coord.gid_gen.next();
                        proof {
                            let k = choose|k: int|
                                0 <= k < old(self).coord.catalog.trace@.len() && ((#[trigger] old(
                                    self,
                                ).coord.catalog.trace@[k])@ == name@);
                            assert(old(self).workers@[idx as int].trace_group.traces@[k].name@ == (
                            old(self).coord.catalog.trace@[k])@);
                            assert(self.workers@[idx as int] == old(self).workers@[idx as int]);
                            assert(self.workers@[idx as int].trace_group.traces@[k].name@ == name@);
                            assert(self.workers@[idx as int].trace_group.has_trace(name@));
                        }
                        let worker = &mut self.workers[idx];
                        let resp = worker.handle_command(
                            ServerCommand::Query { gid, name, key, time },
                        );
                        let txn = token.txn.duplicate();
                        self.coord.txn_manager.read_complete(txn);
                        match resp {
                            Some(WorkerResponse::QueryReply { gid: g, rows }) => {
                                ClientResponse::Rows { gid: g, rows }
                            },
                            _ => {
                                proof {
                                    assert(false);
                                }
                                ClientResponse::Done
                            },
                        }
                    },
                }
            },
            ClientCommand::CollectInternal => {
                let mut datas: Vec<SysInternalWorker> = Vec::new();
                let n = self.workers.len();
                let mut w: usize = 0;
                while w < n
                    invariant
                        n == self.workers@.len(),
                        0 <= w <= n,
                        old(self).wf(),
                                old(self).workers@.len() == n,
                        self.coord == old(self).coord,
                        self.workers@.len() == old(self).workers@.len(),
                        forall|j: int| 0 <= j < n ==> (#[trigger] self.workers@[j]) == old(
                            self,
                        ).workers@[j],
                        datas@.len() == w,
                    decreases n - w,
                {
                    proof {
                        assert(self.workers@[w as int] == old(self).workers@[w as int]);
                    }
                    let worker = &mut self.workers[w];
                    let d = worker.handle_control_command(ControlCommand::CollectInternal);
                    match d {
                        Some(info) => {
                            datas.push(info);
                        },
                        None => {
                            proof {
                                assert(false);
                            }
                        },
                    }
                    w = w + 1;
                }
                let snapshot = SysInternal {
                    coord: SysInternalCoord {
                        workers: self.coord.workers,
                        frontier: self.coord.epoch,
                    },
                    workers: datas,
                };
                ClientResponse::Internal(snapshot)
            },
            ClientCommand::Shutdown => {
                self.coord.closed = true;
                let n = self.workers.len();
                let mut w: usize = 0;
                while w < n
                    invariant
                        n == self.workers@.len(),
                        0 <= w <= n,
                        old(self).wf(),
                                old(self).workers@.len() == n,
                        self.coord.epoch == old(self).coord.epoch,
                        self.coord.closed == true,
                        self.coord.workers == old(self).coord.workers,
                        self.coord.catalog == old(self).coord.catalog,
                        self.coord.gid_gen == old(self).coord.gid_gen,
                        self.coord.txn_manager == old(self).coord.txn_manager,
                        self.coord.wf(),
                        forall|j: int| w <= j < n ==> (#[trigger] self.workers@[j]) == old(
                            self,
                        ).workers@[j],
                        forall|j: int|
                            0 <= j < w ==> {
                                &&& (#[trigger] self.workers@[j]).shutdown == true
                                &&& self.workers@[j].wf()
                                &&& self.workers@[j].index == j
                                &&& self.workers@[j].frontier == old(self).coord.epoch
                                &&& self.workers@[j].peeks@.len() == 0
                                &&& self.workers@[j].trace_group == old(
                                    self,
                                ).workers@[j].trace_group
                                &&& self.workers@[j].upsert_input_group == old(
                                    self,
                                ).workers@[j].upsert_input_group
                                &&& self.workers@[j].input_group == old(
                                    self,
                                ).workers@[j].input_group
                            },
                    decreases n - w,
                {
                    proof {
                        assert(self.workers@[w as int] == old(self).workers@[w as int]);
                    }
                    let worker = &mut self.workers[w];
                    worker.handle_command(ServerCommand::Control(ControlCommand::Shutdown));
                    w = w + 1;
                }
                ClientResponse::ShuttingDown
            },
        }
    }
}

/// The step transition, as a relation on observable engine state: what one
/// dispatched client command does to the epoch, the catalog and every
/// worker's traces.
pub open spec fn step_rel(pre: System, post: System, cmd: ClientCommand) -> bool {
    match cmd {
        ClientCommand::CreateInputAndTrace { name } => {
            if pre.coord.catalog.has_input(name@) || pre.coord.catalog.has_trace(name@) {
                obs_eq(post, pre)
            } else {
                &&& post.coord.epoch == pre.coord.epoch
                &&& post.coord.closed == pre.coord.closed
                &&& post.coord.catalog.input@.len() == pre.coord.catalog.input@.len() + 1
                &&& post.coord.catalog.trace@.len() == pre.coord.catalog.trace@.len() + 1
                &&& (post.coord.catalog.input@.last())@ == name@
                &&& (post.coord.catalog.trace@.last())@ == name@
                &&& forall|k: int|
                    0 <= k < pre.coord.catalog.input@.len() ==> ((
                    #[trigger] post.coord.catalog.input@[k])@ == (pre.coord.catalog.input@[k])@)
                &&& forall|k: int|
                    0 <= k < pre.coord.catalog.trace@.len() ==> ((
                    #[trigger] post.coord.catalog.trace@[k])@ == (pre.coord.catalog.trace@[k])@)
                &&& post.workers@.len() == pre.workers@.len()
                &&& forall|w: int|
                    0 <= w < pre.workers@.len() ==> {
                        &&& (#[trigger] post.workers@[w]).frontier == pre.workers@[w].frontier
                        &&& post.workers@[w].shutdown == pre.workers@[w].shutdown
                        &&& post.workers@[w].trace_group.traces@.len()
                            == pre.workers@[w].trace_group.traces@.len() + 1
                        &&& (post.workers@[w].trace_group.traces@.last()).name@ == name@
                        &&& (post.workers@[w].trace_group.traces@.last()).hist() == Seq::<
                            UpsertOp,
                        >::empty()
                        &&& forall|k: int|
                            0 <= k < pre.workers@[w].trace_group.traces@.len() ==> {
                                &&& ((#[trigger] post.workers@[w].trace_group.traces@[k]).name@
                                    == pre.workers@[w].trace_group.traces@[k].name@)
                                &&& post.workers@[w].trace_group.traces@[k].hist()
                                    == pre.workers@[w].trace_group.traces@[k].hist()
                            }
                    }
            }
        },
        ClientCommand::Upsert { name, key, value } => {
            if !pre.coord.catalog.has_input(name@) {
                obs_eq(post, pre)
            } else {
                &&& post.coord.epoch.internal == pre.coord.epoch.internal + 1
                &&& post.coord.closed == pre.coord.closed
                &&& post.coord.catalog == pre.coord.catalog
                &&& post.workers@.len() == pre.workers@.len()
                &&& forall|w: int|
                    0 <= w < pre.workers@.len() ==> {
                        &&& (#[trigger] post.workers@[w]).frontier.internal
                            == pre.workers@[w].frontier.internal + 1
                        &&& post.workers@[w].shutdown == pre.workers@[w].shutdown
                        &&& post.workers@[w].trace_group.traces@.len()
                            == pre.workers@[w].trace_group.traces@.len()
                        &&& forall|k: int|
                            0 <= k < pre.workers@[w].trace_group.traces@.len() ==> {
                                &&& ((#[trigger] post.workers@[w].trace_group.traces@[k]).name@
                                    == pre.workers@[w].trace_group.traces@[k].name@)
                                &&& post.workers@[w].trace_group.traces@[k].hist()
                                    == pre.workers@[w].trace_group.traces@[k].hist() + (if (
                                pre.coord.catalog.input@[k])@ == name@ {
                                    seq![UpsertOp { key, value, time: pre.coord.epoch }]
                                } else {
                                    Seq::<UpsertOp>::empty()
                                })
                            }
                    }
            }
        },
        ClientCommand::Query { name, key } => obs_eq(post, pre),
        ClientCommand::CollectInternal => obs_eq(post, pre),
        ClientCommand::Shutdown => {
            &&& post.coord.epoch == pre.coord.epoch
            &&& post.coord.closed == true
            &&& post.coord.catalog == pre.coord.catalog
            &&& post.workers@.len() == pre.workers@.len()
            &&& forall|w: int|
                0 <= w < pre.workers@.len() ==> {
                    &&& (#[trigger] post.workers@[w]).shutdown == true
                    &&& post.workers@[w].frontier == pre.workers@[w].frontier
                    &&& post.workers@[w].trace_group == pre.workers@[w].trace_group
                }
        },
    }
}

/// Observable equality of two engines: the epoch, the shutdown state, the
/// catalog's names and every worker's trace names and contents agree.
pub open spec fn obs_eq(a: System, b: System) -> bool {
    &&& a.coord.epoch == b.coord.epoch
    &&& a.coord.closed == b.coord.closed
    &&& a.coord.catalog.input@.len() == b.coord.catalog.input@.len()
    &&& a.coord.catalog.trace@.len() == b.coord.catalog.trace@.len()
    &&& forall|k: int|
        0 <= k < a.coord.catalog.input@.len() ==> ((#[trigger] a.coord.catalog.input@[k])@ == (
        b.coord.catalog.input@[k])@)
    &&& forall|k: int|
        0 <= k < a.coord.catalog.trace@.len() ==> ((#[trigger] a.coord.catalog.trace@[k])@ == (
        b.coord.catalog.trace@[k])@)
    &&& a.workers@.len() == b.workers@.len()
    &&& forall|w: int|
        0 <= w < a.workers@.len() ==> {
            &&& (#[trigger] a.workers@[w]).frontier == b.workers@[w].frontier
            &&& a.workers@[w].shutdown == b.workers@[w].shutdown
            &&& a.workers@[w].trace_group.traces@.len() == b.workers@[w].trace_group.traces@.len()
            &&& forall|k: int|
                0 <= k < a.workers@[w].trace_group.traces@.len() ==> {
                    &&& ((#[trigger] a.workers@[w].trace_group.traces@[k]).name@
                        == b.workers@[w].trace_group.traces@[k].name@)
                    &&& a.workers@[w].trace_group.traces@[k].hist()
                        == b.workers@[w].trace_group.traces@[k].hist()
                }
        }
}

/// Two client commands carry the same request: the same case, the same
/// names by their text, and the same payload.
pub open spec fn cmd_eq(a: ClientCommand, b: ClientCommand) -> bool {
    match (a, b) {
        (
            ClientCommand::CreateInputAndTrace { name: n1 },
            ClientCommand::CreateInputAndTrace { name: n2 },
        ) => n1@ == n2@,
        (
            ClientCommand::Upsert { name: n1, key: k1, value: v1 },
            ClientCommand::Upsert { name: n2, key: k2, value: v2 },
        ) => n1@ == n2@ && k1 == k2 && v1 == v2,
        (
            ClientCommand::Query { name: n1, key: k1 },
            ClientCommand::Query { name: n2, key: k2 },
        ) => n1@ == n2@ && k1 == k2,
        (ClientCommand::CollectInternal, ClientCommand::CollectInternal) => true,
        (ClientCommand::Shutdown, ClientCommand::Shutdown) => true,
        _ => false,
    }
}

/// Observable equality is transitive.
pub proof fn lemma_obs_eq_trans(a: System, b: System, c: System)
    requires
        obs_eq(a, b),
        obs_eq(b, c),
    ensures
        obs_eq(a, c),
{
    assert forall|w: int|
        0 <= w < a.workers@.len() implies {
        &&& (#[trigger] a.workers@[w]).frontier == c.workers@[w].frontier
        &&& a.workers@[w].shutdown == c.workers@[w].shutdown
        &&& a.workers@[w].trace_group.traces@.len() == c.workers@[w].trace_group.traces@.len()
        &&& forall|k: int|
            0 <= k < a.workers@[w].trace_group.traces@.len() ==> {
                &&& ((#[trigger] a.workers@[w].trace_group.traces@[k]).name@
                    == c.workers@[w].trace_group.traces@[k].name@)
                &&& a.workers@[w].trace_group.traces@[k].hist()
                    == c.workers@[w].trace_group.traces@[k].hist()
            }
    } by {
        assert(b.workers@[w].frontier == c.workers@[w].frontier);
        assert forall|k: int|
            0 <= k < a.workers@[w].trace_group.traces@.len() implies {
            &&& ((#[trigger] a.workers@[w].trace_group.traces@[k]).name@
                == c.workers@[w].trace_group.traces@[k].name@)
            &&& a.workers@[w].trace_group.traces@[k].hist()
                == c.workers@[w].trace_group.traces@[k].hist()
        } by {
            assert(b.workers@[w].trace_group.traces@[k].name@
                == c.workers@[w].trace_group.traces@[k].name@);
            assert(b.workers@[w].trace_group.traces@[k].hist()
                == c.workers@[w].trace_group.traces@[k].hist());
        }
    }
}

/// Observable equality is symmetric.
pub proof fn lemma_obs_eq_symm(a: System, b: System)
    requires
        obs_eq(a, b),
    ensures
        obs_eq(b, a),
{
    assert forall|w: int|
        0 <= w < b.workers@.len() implies {
        &&& (#[trigger] b.workers@[w]).frontier == a.workers@[w].frontier
        &&& b.workers@[w].shutdown == a.workers@[w].shutdown
        &&& b.workers@[w].trace_group.traces@.len() == a.workers@[w].trace_group.traces@.len()
        &&& forall|k: int|
            0 <= k < b.workers@[w].trace_group.traces@.len() ==> {
                &&& ((#[trigger] b.workers@[w].trace_group.traces@[k]).name@
                    == a.workers@[w].trace_group.traces@[k].name@)
                &&& b.workers@[w].trace_group.traces@[k].hist()
                    == a.workers@[w].trace_group.traces@[k].hist()
            }
    } by {
        assert(a.workers@[w].frontier == b.workers@[w].frontier);
        assert forall|k: int|
            0 <= k < b.workers@[w].trace_group.traces@.len() implies {
            &&& ((#[trigger] b.workers@[w].trace_group.traces@[k]).name@
                == a.workers@[w].trace_group.traces@[k].name@)
            &&& b.workers@[w].trace_group.traces@[k].hist()
                == a.workers@[w].trace_group.traces@[k].hist()
        } by {
            assert(a.workers@[w].trace_group.traces@[k].name@
                == b.workers@[w].trace_group.traces@[k].name@);
            assert(a.workers@[w].trace_group.traces@[k].hist()
                == b.workers@[w].trace_group.traces@[k].hist());
        }
    }
}

/// Catalogs with equal names agree on which inputs exist.
proof fn lemma_has_input_agrees(a: System, b: System, n: Seq<char>)
    requires
        obs_eq(a, b),
    ensures
        a.coord.catalog.has_input(n) == b.coord.catalog.has_input(n),
{
    if a.coord.catalog.has_input(n) {
        let i = choose|i: int|
            0 <= i < a.coord.catalog.input@.len() && ((#[trigger] a.coord.catalog.input@[i])@ == n);
        assert((b.coord.catalog.input@[i])@ == n);
    }
    if b.coord.catalog.has_input(n) {
        let i = choose|i: int|
            0 <= i < b.coord.catalog.input@.len() && ((#[trigger] b.coord.catalog.input@[i])@ == n);
        assert((a.coord.catalog.input@[i])@ == n);
    }
}

/// Catalogs with equal names agree on which traces exist.
proof fn lemma_has_trace_agrees(a: System, b: System, n: Seq<char>)
    requires
        obs_eq(a, b),
    ensures
        a.coord.catalog.has_trace(n) == b.coord.catalog.has_trace(n),
{
    if a.coord.catalog.has_trace(n) {
        let i = choose|i: int|
            0 <= i < a.coord.catalog.trace@.len() && ((#[trigger] a.coord.catalog.trace@[i])@ == n);
        assert((b.coord.catalog.trace@[i])@ == n);
    }
    if b.coord.catalog.has_trace(n) {
        let i = choose|i: int|
            0 <= i < b.coord.catalog.trace@.len() && ((#[trigger] b.coord.catalog.trace@[i])@ == n);
        assert((a.coord.catalog.trace@[i])@ == n);
    }
}

/// Frontier monotonicity: in a well-formed engine every worker's input
/// frontier sits exactly at the coordinator's epoch, and the only frontier
/// advance a worker accepts is to its frontier's successor.
pub proof fn lemma_frontier_monotonicity(s: System, t: SysTime)
    requires
        s.wf(),
    ensures
        forall|w: int|
            0 <= w < s.workers@.len() ==> (#[trigger] s.workers@[w]).frontier == s.coord.epoch,
        forall|w: int|
            0 <= w < s.workers@.len() && (#[trigger] s.workers@[w]).admissible(
                ServerCommand::Control(ControlCommand::AdvanceTimestamp(t)),
            ) ==> t.internal == s.workers@[w].frontier.internal + 1,
{
}

/// Query time soundness: every query is dispatched at the time one step
/// behind the epoch, and that time plus one equals every worker's frontier
/// at the moment of dispatch.
pub proof fn lemma_query_time_soundness(s: System)
    requires
        s.wf(),
    ensures
        forall|w: int|
            0 <= w < s.workers@.len() ==> (s.coord.epoch.internal - 1) + 1 == (
            #[trigger] s.workers@[w]).frontier.internal,
{
}

/// Determinism under replay: two engines in observably equal states that
/// dispatch the same client command end in observably equal states — in
/// particular every trace holds identical contents at every logical time.
pub proof fn lemma_replay_deterministic(
    pre1: System,
    post1: System,
    pre2: System,
    post2: System,
    cmd1: ClientCommand,
    cmd2: ClientCommand,
)
    requires
        pre1.wf(),
        pre2.wf(),
        obs_eq(pre1, pre2),
        cmd_eq(cmd1, cmd2),
        step_rel(pre1, post1, cmd1),
        step_rel(pre2, post2, cmd2),
    ensures
        obs_eq(post1, post2),
{
    match (cmd1, cmd2) {
        (
            ClientCommand::CreateInputAndTrace { name: n1 },
            ClientCommand::CreateInputAndTrace { name: n2 },
        ) => {
            lemma_has_input_agrees(pre1, pre2, n1@);
            lemma_has_trace_agrees(pre1, pre2, n1@);
            if pre1.coord.catalog.has_input(n1@) || pre1.coord.catalog.has_trace(n1@) {
                lemma_obs_eq_trans(post1, pre1, pre2);
                lemma_obs_eq_symm(post2, pre2);
                lemma_obs_eq_trans(post1, pre2, post2);
            } else {
                let pre_len = pre1.coord.catalog.input@.len();
                assert forall|k: int|
                    0 <= k < post1.coord.catalog.input@.len() implies ((
                #[trigger] post1.coord.catalog.input@[k])@ == (post2.coord.catalog.input@[k])@) by {
                    if k < pre_len {
                        assert((pre1.coord.catalog.input@[k])@ == (pre2.coord.catalog.input@[k])@);
                    } else {
                        assert(post1.coord.catalog.input@[k] == post1.coord.catalog.input@.last());
                        assert(post2.coord.catalog.input@[k] == post2.coord.catalog.input@.last());
                    }
                }
                assert forall|k: int|
                    0 <= k < post1.coord.catalog.trace@.len() implies ((
                #[trigger] post1.coord.catalog.trace@[k])@ == (post2.coord.catalog.trace@[k])@) by {
                    if k < pre_len {
                        assert((pre1.coord.catalog.trace@[k])@ == (pre2.coord.catalog.trace@[k])@);
                    } else {
                        assert(post1.coord.catalog.trace@[k] == post1.coord.catalog.trace@.last());
                        assert(post2.coord.catalog.trace@[k] == post2.coord.catalog.trace@.last());
                    }
                }
                assert forall|w: int|
                    0 <= w < post1.workers@.len() implies {
                    &&& (#[trigger] post1.workers@[w]).frontier == post2.workers@[w].frontier
                    &&& post1.workers@[w].shutdown == post2.workers@[w].shutdown
                    &&& post1.workers@[w].trace_group.traces@.len()
                        == post2.workers@[w].trace_group.traces@.len()
                    &&& forall|k: int|
                        0 <= k < post1.workers@[w].trace_group.traces@.len() ==> {
                            &&& ((#[trigger] post1.workers@[w].trace_group.traces@[k]).name@
                                == post2.workers@[w].trace_group.traces@[k].name@)
                            &&& post1.workers@[w].trace_group.traces@[k].hist()
                                == post2.workers@[w].trace_group.traces@[k].hist()
                        }
                } by {
                    assert(pre1.workers@[w].frontier == pre2.workers@[w].frontier);
                    let tn = pre1.workers@[w].trace_group.traces@.len();
                    assert(pre2.workers@[w].trace_group.traces@.len() == tn);
                    assert forall|k: int|
                        0 <= k < post1.workers@[w].trace_group.traces@.len() implies {
                        &&& ((#[trigger] post1.workers@[w].trace_group.traces@[k]).name@
                            == post2.workers@[w].trace_group.traces@[k].name@)
                        &&& post1.workers@[w].trace_group.traces@[k].hist()
                            == post2.workers@[w].trace_group.traces@[k].hist()
                    } by {
                        if k < tn {
                            assert(pre1.workers@[w].trace_group.traces@[k].name@
                                == pre2.workers@[w].trace_group.traces@[k].name@);
                            assert(pre1.workers@[w].trace_group.traces@[k].hist()
                                == pre2.workers@[w].trace_group.traces@[k].hist());
                        } else {
                            assert(post1.workers@[w].trace_group.traces@[k]
                                == post1.workers@[w].trace_group.traces@.last());
                            assert(post2.workers@[w].trace_group.traces@[k]
                                == post2.workers@[w].trace_group.traces@.last());
                        }
                    }
                }
            }
        },
        (
            ClientCommand::Upsert { name: n1, key: k1, value: v1 },
            ClientCommand::Upsert { name: n2, key: k2, value: v2 },
        ) => {
            lemma_has_input_agrees(pre1, pre2, n1@);
            if !pre1.coord.catalog.has_input(n1@) {
                lemma_obs_eq_trans(post1, pre1, pre2);
                lemma_obs_eq_symm(post2, pre2);
                lemma_obs_eq_trans(post1, pre2, post2);
            } else {
                assert forall|w: int|
                    0 <= w < post1.workers@.len() implies {
                    &&& (#[trigger] post1.workers@[w]).frontier == post2.workers@[w].frontier
                    &&& post1.workers@[w].shutdown == post2.workers@[w].shutdown
                    &&& post1.workers@[w].trace_group.traces@.len()
                        == post2.workers@[w].trace_group.traces@.len()
                    &&& forall|k: int|
                        0 <= k < post1.workers@[w].trace_group.traces@.len() ==> {
                            &&& ((#[trigger] post1.workers@[w].trace_group.traces@[k]).name@
                                == post2.workers@[w].trace_group.traces@[k].name@)
                            &&& post1.workers@[w].trace_group.traces@[k].hist()
                                == post2.workers@[w].trace_group.traces@[k].hist()
                        }
                } by {
                    assert(pre1.workers@[w].frontier == pre2.workers@[w].frontier);
                    assert(pre1.workers@[w].frontier.internal + 1
                        == post1.workers@[w].frontier.internal);
                    assert forall|k: int|
                        0 <= k < post1.workers@[w].trace_group.traces@.len() implies {
                        &&& ((#[trigger] post1.workers@[w].trace_group.traces@[k]).name@
                            == post2.workers@[w].trace_group.traces@[k].name@)
                        &&& post1.workers@[w].trace_group.traces@[k].hist()
                            == post2.workers@[w].trace_group.traces@[k].hist()
                    } by {
                        assert(pre1.workers@[w].trace_group.traces@[k].name@
                            == pre2.workers@[w].trace_group.traces@[k].name@);
                        assert(pre1.workers@[w].trace_group.traces@[k].hist()
                            == pre2.workers@[w].trace_group.traces@[k].hist());
                        assert((pre1.coord.catalog.input@[k])@ == (pre2.coord.catalog.input@[k])@);
                        assert(pre1.coord.epoch == pre2.coord.epoch);
                    }
                }
            }
        },
        (ClientCommand::Query { name: n1, key: k1 }, ClientCommand::Query { name: n2, key: k2 }) => {
            lemma_obs_eq_trans(post1, pre1, pre2);
            lemma_obs_eq_symm(post2, pre2);
            lemma_obs_eq_trans(post1, pre2, post2);
        },
        (ClientCommand::CollectInternal, ClientCommand::CollectInternal) => {
            lemma_obs_eq_trans(post1, pre1, pre2);
            lemma_obs_eq_symm(post2, pre2);
            lemma_obs_eq_trans(post1, pre2, post2);
        },
        (ClientCommand::Shutdown, ClientCommand::Shutdown) => {
            assert forall|w: int|
                0 <= w < post1.workers@.len() implies {
                &&& (#[trigger] post1.workers@[w]).frontier == post2.workers@[w].frontier
                &&& post1.workers@[w].shutdown == post2.workers@[w].shutdown
                &&& post1.workers@[w].trace_group.traces@.len()
                    == post2.workers@[w].trace_group.traces@.len()
                &&& forall|k: int|
                    0 <= k < post1.workers@[w].trace_group.traces@.len() ==> {
                        &&& ((#[trigger] post1.workers@[w].trace_group.traces@[k]).name@
                            == post2.workers@[w].trace_group.traces@[k].name@)
                        &&& post1.workers@[w].trace_group.traces@[k].hist()
                            == post2.workers@[w].trace_group.traces@[k].hist()
                    }
            } by {
                assert(pre1.workers@[w].frontier == pre2.workers@[w].frontier);
                assert(post1.workers@[w].trace_group == pre1.workers@[w].trace_group);
                assert(post2.workers@[w].trace_group == pre2.workers@[w].trace_group);
                assert forall|k: int|
                    0 <= k < post1.workers@[w].trace_group.traces@.len() implies {
                    &&& ((#[trigger] post1.workers@[w].trace_group.traces@[k]).name@
                        == post2.workers@[w].trace_group.traces@[k].name@)
                    &&& post1.workers@[w].trace_group.traces@[k].hist()
                        == post2.workers@[w].trace_group.traces@[k].hist()
                } by {
                    assert(pre1.workers@[w].trace_group.traces@[k].name@
                        == pre2.workers@[w].trace_group.traces@[k].name@);
                    assert(pre1.workers@[w].trace_group.traces@[k].hist()
                        == pre2.workers@[w].trace_group.traces@[k].hist());
                }
            }
        },
        _ => {
            assert(false);
        },
    }
}

/// Every worker holds the same contents for the same trace, so a query may
/// be routed to any one worker.
pub open spec fn workers_agree(s: System) -> bool {
    forall|w1: int, w2: int, k: int|
        0 <= w1 < s.workers@.len() && 0 <= w2 < s.workers@.len() && 0 <= k
            < s.workers@[w1].trace_group.traces@.len() && k
            < s.workers@[w2].trace_group.traces@.len() ==> (
        #[trigger] s.workers@[w1].trace_group.traces@[k]).hist() == (
        #[trigger] s.workers@[w2].trace_group.traces@[k]).hist()
}

/// Broadcasting keeps workers in agreement: every dispatch transition
/// extends every worker's traces the same way.
pub proof fn lemma_step_preserves_agreement(pre: System, post: System, cmd: ClientCommand)
    requires
        pre.wf(),
        step_rel(pre, post, cmd),
        workers_agree(pre),
    ensures
        workers_agree(post),
{
    assert forall|w1: int, w2: int, k: int|
        0 <= w1 < post.workers@.len() && 0 <= w2 < post.workers@.len() && 0 <= k
            < post.workers@[w1].trace_group.traces@.len() && k
            < post.workers@[w2].trace_group.traces@.len() implies (
    #[trigger] post.workers@[w1].trace_group.traces@[k]).hist() == (
    #[trigger] post.workers@[w2].trace_group.traces@[k]).hist() by {
        match cmd {
            ClientCommand::CreateInputAndTrace { name } => {
                if pre.coord.catalog.has_input(name@) || pre.coord.catalog.has_trace(name@) {
                    assert(post.workers@[w1].trace_group.traces@[k].hist()
                        == pre.workers@[w1].trace_group.traces@[k].hist());
                    assert(post.workers@[w2].trace_group.traces@[k].hist()
                        == pre.workers@[w2].trace_group.traces@[k].hist());
                    assert(pre.workers@[w1].trace_group.traces@[k].hist()
                        == pre.workers@[w2].trace_group.traces@[k].hist());
                } else {
                    let pre_len = pre.workers@[w1].trace_group.traces@.len();
                    assert(pre.workers@[w2].trace_group.traces@.len() == pre_len);
                    if k < pre_len {
                        assert(post.workers@[w1].trace_group.traces@[k].hist()
                            == pre.workers@[w1].trace_group.traces@[k].hist());
                        assert(post.workers@[w2].trace_group.traces@[k].hist()
                            == pre.workers@[w2].trace_group.traces@[k].hist());
                        assert(pre.workers@[w1].trace_group.traces@[k].hist()
                            == pre.workers@[w2].trace_group.traces@[k].hist());
                    } else {
                        assert(post.workers@[w1].trace_group.traces@[k]
                            == post.workers@[w1].trace_group.traces@.last());
                        assert(post.workers@[w2].trace_group.traces@[k]
                            == post.workers@[w2].trace_group.traces@.last());
                    }
                }
            },
            ClientCommand::Upsert { name, key, value } => {
                if !pre.coord.catalog.has_input(name@) {
                    assert(post.workers@[w1].trace_group.traces@[k].hist()
                        == pre.workers@[w1].trace_group.traces@[k].hist());
                    assert(post.workers@[w2].trace_group.traces@[k].hist()
                        == pre.workers@[w2].trace_group.traces@[k].hist());
                    assert(pre.workers@[w1].trace_group.traces@[k].hist()
                        == pre.workers@[w2].trace_group.traces@[k].hist());
                } else {
                    assert(pre.workers@[w1].trace_group.traces@[k].hist()
                        == pre.workers@[w2].trace_group.traces@[k].hist());
                }
            },
            ClientCommand::Query { name, key } => {
                assert(post.workers@[w1].trace_group.traces@[k].hist()
                    == pre.workers@[w1].trace_group.traces@[k].hist());
                assert(post.workers@[w2].trace_group.traces@[k].hist()
                    == pre.workers@[w2].trace_group.traces@[k].hist());
                assert(pre.workers@[w1].trace_group.traces@[k].hist()
                    == pre.workers@[w2].trace_group.traces@[k].hist());
            },
            ClientCommand::CollectInternal => {
                assert(post.workers@[w1].trace_group.traces@[k].hist()
                    == pre.workers@[w1].trace_group.traces@[k].hist());
                assert(post.workers@[w2].trace_group.traces@[k].hist()
                    == pre.workers@[w2].trace_group.traces@[k].hist());
                assert(pre.workers@[w1].trace_group.traces@[k].hist()
                    == pre.workers@[w2].trace_group.traces@[k].hist());
            },
            ClientCommand::Shutdown => {
                assert(post.workers@[w1].trace_group == pre.workers@[w1].trace_group);
                assert(post.workers@[w2].trace_group == pre.workers@[w2].trace_group);
                assert(pre.workers@[w1].trace_group.traces@[k].hist()
                    == pre.workers@[w2].trace_group.traces@[k].hist());
            },
        }
    }
}

/// A run: the successive engine states as one command sequence is
/// dispatched, each state well-formed and each step a dispatch transition.
pub open spec fn run_rel(states: Seq<System>, cmds: Seq<ClientCommand>) -> bool {
    &&& states.len() == cmds.len() + 1
    &&& forall|i: int| 0 <= i <= cmds.len() ==> (#[trigger] states[i]).wf()
    &&& forall|i: int| 0 <= i < cmds.len() ==> step_rel(states[i], states[i + 1], #[trigger] cmds[i])
}

proof fn lemma_replay_deterministic_prefix(
    s1: Seq<System>,
    s2: Seq<System>,
    c1: Seq<ClientCommand>,
    c2: Seq<ClientCommand>,
    i: int,
)
    requires
        run_rel(s1, c1),
        run_rel(s2, c2),
        obs_eq(s1[0], s2[0]),
        c1.len() == c2.len(),
        forall|j: int| 0 <= j < c1.len() ==> cmd_eq(#[trigger] c1[j], c2[j]),
        0 <= i <= c1.len(),
    ensures
        obs_eq(s1[i], s2[i]),
    decreases i,
{
    if i > 0 {
        lemma_replay_deterministic_prefix(s1, s2, c1, c2, i - 1);
        lemma_replay_deterministic(s1[i - 1], s1[i], s2[i - 1], s2[i], c1[i - 1], c2[i - 1]);
    }
}

/// Determinism under replay, over whole runs: two runs driven by the same
/// command sequence pass through observably equal states throughout — at
/// every point, every trace holds identical contents at every logical time.
pub proof fn lemma_replay_deterministic_runs(
    s1: Seq<System>,
    s2: Seq<System>,
    c1: Seq<ClientCommand>,
    c2: Seq<ClientCommand>,
)
    requires
        run_rel(s1, c1),
        run_rel(s2, c2),
        obs_eq(s1[0], s2[0]),
        c1.len() == c2.len(),
        forall|j: int| 0 <= j < c1.len() ==> cmd_eq(#[trigger] c1[j], c2[j]),
    ensures
        forall|i: int| 0 <= i <= c1.len() ==> obs_eq(#[trigger] s1[i], s2[i]),
{
    assert forall|i: int| 0 <= i <= c1.len() implies obs_eq(#[trigger] s1[i], s2[i]) by {
        lemma_replay_deterministic_prefix(s1, s2, c1, c2, i);
    }
}

/// Graceful shutdown: after the shutdown command is dispatched, every worker
/// has observed it — each one's shutdown flag is set, so each loop exits,
/// and no deferred query is left behind in a well-formed engine.
pub proof fn lemma_graceful_shutdown(pre: System, post: System)
    requires
        step_rel(pre, post, ClientCommand::Shutdown),
        post.wf(),
    ensures
        post.coord.closed,
        forall|w: int| 0 <= w < post.workers@.len() ==> (#[trigger] post.workers@[w]).shutdown,
        forall|w: int| 0 <= w < post.workers@.len() ==> (#[trigger] post.workers@[w]).peeks@.len()
            == 0,
{
}

} // verus!

