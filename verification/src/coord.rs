//! The coordinator's own state: the logical epoch counter, the catalog, the
//! query identifier generator and the read-transaction registry. The
//! coordinator alone advances the epoch; workers follow it in lockstep.

use crate::catalog::Catalog;
use crate::gid::GIDGen;
use crate::timestamp::SysTime;
use crate::txn_manager::TxnManager;
use vstd::prelude::*;

verus! {

/// The coordinator: it owns the epoch, broadcasts commands and never
/// touches per-worker state.
pub struct Coord {
    /// The global input frontier; each update advances it by one.
    pub epoch: SysTime,
    /// Fresh identifiers for dispatched queries.
    pub gid_gen: GIDGen,
    /// The name table.
    pub catalog: Catalog,
    /// The reads in flight.
    pub txn_manager: TxnManager,
    /// The size of the worker pool.
    pub workers: usize,
    /// Set once shutdown was requested.
    pub closed: bool,
}

impl Coord {
    /// The coordinator invariant.
    pub open spec fn wf(&self) -> bool {
        &&& self.workers > 0
        &&& self.catalog.wf()
        &&& self.catalog.workers == self.workers
        &&& self.txn_manager.wf()
    }

    /// A fresh coordinator over a pool of the given size, with the epoch at
    /// the least time.
    pub fn new(workers: usize) -> (r: Coord)
        requires
            workers > 0,
        ensures
            r.wf(),
            r.workers == workers,
            r.epoch.internal == 0,
            r.closed == false,
            r.catalog.input@.len() == 0,
            r.catalog.trace@.len() == 0,
            r.gid_gen.0 == 0,
            r.txn_manager.read_txns@.len() == 0,
    {
        Coord {
            epoch: SysTime::minimum(),
            gid_gen: GIDGen::new(),
            catalog: Catalog::new(workers),
            txn_manager: TxnManager::new(),
            workers,
            closed: false,
        }
    }

    /// Advance the epoch by one and return the previous value: the time the
    /// update that caused this advance is stamped with.
    pub fn advance_epoch(&mut self) -> (r: SysTime)
        requires
            old(self).epoch.internal < u64::MAX,
        ensures
            r == old(self).epoch,
            final(self).epoch.internal == old(self).epoch.internal + 1,
            final(self).gid_gen == old(self).gid_gen,
            final(self).catalog == old(self).catalog,
            final(self).txn_manager == old(self).txn_manager,
            final(self).workers == old(self).workers,
            final(self).closed == old(self).closed,
    {
        let ret = self.epoch;
        self.epoch = self.epoch.step_forward();
        ret
    }

    /// The time a query dispatched now reads at: one step behind the epoch.
    /// The epoch must have been advanced at least once.
    pub fn query_time(&self) -> (r: SysTime)
        requires
            self.epoch.internal > 0,
        ensures
            r.internal == self.epoch.internal - 1,
    {
        match self.epoch.step_back() {
            Some(t) => t,
            None => {
                proof {
                    assert(false);
                }
                SysTime::minimum()
            },
        }
    }
}

} // verus!
