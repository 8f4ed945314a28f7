//! The trace group: a keyed registry of trace handles. It drives physical
//! compaction every worker tick and logical compaction once per epoch
//! advance, across every registered trace.

use crate::internal::SysInternalTrace;
use crate::name::Name;
use crate::timestamp::SysTime;
use crate::trace::Trace;
use vstd::prelude::*;

verus! {

/// The registry of traces, addressed by name.
pub struct TraceGroup {
    /// The registered traces, in registration order.
    pub traces: Vec<Trace>,
}

impl TraceGroup {
    /// Whether a trace of the given name is registered.
    pub open spec fn has_trace(&self, n: Seq<char>) -> bool {
        exists|i: int| 0 <= i < self.traces@.len() && (#[trigger] self.traces@[i]).name@ == n
    }

    /// Every trace is well-formed and names are pairwise distinct.
    pub open spec fn wf(&self) -> bool {
        &&& forall|i: int| 0 <= i < self.traces@.len() ==> (#[trigger] self.traces@[i]).wf()
        &&& forall|i: int, j: int|
            0 <= i < j < self.traces@.len() ==> (#[trigger] self.traces@[i]).name@
                != (#[trigger] self.traces@[j]).name@
    }

    /// An empty registry.
    pub fn new() -> (r: TraceGroup)
        ensures
            r.wf(),
            r.traces@ == Seq::<Trace>::empty(),
    {
        TraceGroup { traces: Vec::new() }
    }

    /// Register a trace. Registering a name twice is a coordinator bug, so
    /// a trace of the same name must not already be present.
    pub fn register_trace(&mut self, trace: Trace)
        requires
            old(self).wf(),
            trace.wf(),
            !old(self).has_trace(trace.name@),
        ensures
            final(self).wf(),
            final(self).traces@ == old(self).traces@.push(trace),
    {
        self.traces.push(trace);
        proof {
            assert(self.traces@.last() == trace);
            assert(self.traces@.drop_last() =~= old(self).traces@);
        }
    }

    /// Look up the trace of the given name.
    pub fn get(&self, name: &Name) -> (r: Option<&Trace>)
        ensures
            match r {
                Some(tr) => tr.name@ == name@ && self.traces@.contains(*tr),
                None => !self.has_trace(name@),
            },
    {
        let mut i: usize = 0;
        while i < self.traces.len()
            invariant
                0 <= i <= self.traces@.len(),
                forall|j: int| 0 <= j < i ==> (#[trigger] self.traces@[j]).name@ != name@,
            decreases self.traces@.len() - i,
        {
            if self.traces[i].name == *name {
                proof {
                    assert(self.traces@.contains(self.traces@[i as int]));
                }
                return Some(&self.traces[i]);
            }
            i = i + 1;
        }
        None
    }

    /// Look up the trace of the given name for mutation.
    pub fn get_mut(&mut self, name: &Name) -> (r: Option<&mut Trace>)
        ensures
            match r {
                Some(tr) => {
                    &&& (*tr).name@ == name@
                    &&& exists|i: int|
                        0 <= i < old(self).traces@.len() && old(self).traces@[i] == *tr
                            && final(self).traces@ == old(self).traces@.update(i, *final(tr))
                },
                None => !old(self).has_trace(name@) && *final(self) == *old(self),
            },
    {
        let n = self.traces.len();
        let mut i: usize = 0;
        while i < n
            invariant
                n == self.traces@.len(),
                0 <= i <= n,
                self == old(self),
                forall|j: int| 0 <= j < i ==> (#[trigger] self.traces@[j]).name@ != name@,
            decreases n - i,
        {
            if self.traces[i].name == *name {
                return Some(&mut self.traces[i]);
            }
            i = i + 1;
        }
        None
    }

    /// For every trace, advance its physical compaction frontier to its
    /// upper frontier. Called each worker tick.
    pub fn physical_compaction(&mut self)
        requires
            old(self).wf(),
        ensures
            final(self).wf(),
            final(self).traces@.len() == old(self).traces@.len(),
            forall|i: int|
                0 <= i < old(self).traces@.len() ==> {
                    &&& (#[trigger] final(self).traces@[i]).physical == old(self).traces@[i].upper
                    &&& final(self).traces@[i].hist() == old(self).traces@[i].hist()
                    &&& final(self).traces@[i].upper == old(self).traces@[i].upper
                    &&& final(self).traces@[i].logical == old(self).traces@[i].logical
                    &&& final(self).traces@[i].name == old(self).traces@[i].name
                },
    {
        let n = self.traces.len();
        let mut i: usize = 0;
        while i < n
            invariant
                n == self.traces@.len(),
                0 <= i <= n,
                forall|j: int| 0 <= j < n ==> (#[trigger] self.traces@[j]).wf(),
                forall|j: int|
                    0 <= j < i ==> {
                        &&& (#[trigger] self.traces@[j]).physical == old(self).traces@[j].upper
                        &&& self.traces@[j].hist() == old(self).traces@[j].hist()
                        &&& self.traces@[j].upper == old(self).traces@[j].upper
                        &&& self.traces@[j].logical == old(self).traces@[j].logical
                        &&& self.traces@[j].name == old(self).traces@[j].name
                    },
                forall|j: int| i <= j < n ==> (#[trigger] self.traces@[j]) == old(self).traces@[j],
            decreases n - i,
        {
            let trace = &mut self.traces[i];
            trace.set_physical_compaction_to_upper();
            i = i + 1;
        }
        proof {
            assert forall|a: int, b: int|
                0 <= a < b < self.traces@.len() implies (#[trigger] self.traces@[a]).name@
                != (#[trigger] self.traces@[b]).name@ by {
                assert(old(self).traces@[a].name@ != old(self).traces@[b].name@);
            }
        }
    }

    /// For every trace, advance its logical compaction frontier to
    /// `frontier`, as the coordinator authorized. Called once per epoch
    /// advance.
    pub fn logical_compaction(&mut self, frontier: SysTime)
        requires
            old(self).wf(),
            forall|i: int|
                0 <= i < old(self).traces@.len() ==> {
                    &&& (#[trigger] old(self).traces@[i]).logical.internal <= frontier.internal
                    &&& frontier.internal <= old(self).traces@[i].upper.internal
                },
        ensures
            final(self).wf(),
            final(self).traces@.len() == old(self).traces@.len(),
            forall|i: int|
                0 <= i < old(self).traces@.len() ==> {
                    &&& (#[trigger] final(self).traces@[i]).logical == frontier
                    &&& final(self).traces@[i].hist() == old(self).traces@[i].hist()
                    &&& final(self).traces@[i].upper == old(self).traces@[i].upper
                    &&& final(self).traces@[i].physical == old(self).traces@[i].physical
                    &&& final(self).traces@[i].name == old(self).traces@[i].name
                },
    {
        let n = self.traces.len();
        let mut i: usize = 0;
        while i < n
            invariant
                n == self.traces@.len(),
                0 <= i <= n,
                forall|j: int| 0 <= j < n ==> (#[trigger] self.traces@[j]).wf(),
                forall|j: int|
                    i <= j < n ==> {
                        &&& (#[trigger] self.traces@[j]) == old(self).traces@[j]
                        &&& self.traces@[j].logical.internal <= frontier.internal
                        &&& frontier.internal <= self.traces@[j].upper.internal
                    },
                forall|j: int|
                    0 <= j < i ==> {
                        &&& (#[trigger] self.traces@[j]).logical == frontier
                        &&& self.traces@[j].hist() == old(self).traces@[j].hist()
                        &&& self.traces@[j].upper == old(self).traces@[j].upper
                        &&& self.traces@[j].physical == old(self).traces@[j].physical
                        &&& self.traces@[j].name == old(self).traces@[j].name
                    },
            decreases n - i,
        {
            let trace = &mut self.traces[i];
            trace.set_logical_compaction(frontier);
            i = i + 1;
        }
        proof {
            assert forall|a: int, b: int|
                0 <= a < b < self.traces@.len() implies (#[trigger] self.traces@[a]).name@
                != (#[trigger] self.traces@[b]).name@ by {
                assert(old(self).traces@[a].name@ != old(self).traces@[b].name@);
            }
        }
    }

    /// Report every trace's name and compaction frontiers, in registration
    /// order.
    pub fn collect_info(&self) -> (r: Vec<SysInternalTrace>)
        ensures
            r@.len() == self.traces@.len(),
            forall|i: int|
                0 <= i < self.traces@.len() ==> {
                    &&& (#[trigger] r@[i]).name@ == self.traces@[i].name@
                    &&& r@[i].logical_compaction == self.traces@[i].logical
                    &&& r@[i].physical_compaction == self.traces@[i].physical
                },
    {
        let mut ret: Vec<SysInternalTrace> = Vec::new();
        let mut i: usize = 0;
        while i < self.traces.len()
            invariant
                0 <= i <= self.traces@.len(),
                ret@.len() == i,
                forall|j: int|
                    0 <= j < i ==> {
                        &&& (#[trigger] ret@[j]).name@ == self.traces@[j].name@
                        &&& ret@[j].logical_compaction == self.traces@[j].logical
                        &&& ret@[j].physical_compaction == self.traces@[j].physical
                    },
            decreases self.traces@.len() - i,
        {
            let info = SysInternalTrace {
                name: self.traces[i].name.text(),
                logical_compaction: self.traces[i].logical,
                physical_compaction: self.traces[i].physical,
            };
            ret.push(info);
            i = i + 1;
        }
        ret
    }
}

} // verus!
