//! The coordinator's name table: which inputs and traces exist, and which
//! worker a sharded query is routed to. Name uniqueness within a kind is
//! enforced here, before any command reaches a worker.

use crate::error::Error;
use crate::name::Name;
use crate::row::{hash_row, Row};
use vstd::prelude::*;

verus! {

/// The name table. Workers never consult it; only the coordinator does.
pub struct Catalog {
    /// The size of the worker pool queries are routed over.
    pub workers: usize,
    /// The names of the existing inputs.
    pub input: Vec<Name>,
    /// The names of the existing traces.
    pub trace: Vec<Name>,
}

impl Catalog {
    /// Whether an input of the given name exists.
    pub open spec fn has_input(&self, n: Seq<char>) -> bool {
        exists|i: int| 0 <= i < self.input@.len() && (#[trigger] self.input@[i])@ == n
    }

    /// Whether a trace of the given name exists.
    pub open spec fn has_trace(&self, n: Seq<char>) -> bool {
        exists|i: int| 0 <= i < self.trace@.len() && (#[trigger] self.trace@[i])@ == n
    }

    /// The pool is not empty and names are unique within each kind.
    pub open spec fn wf(&self) -> bool {
        &&& self.workers > 0
        &&& forall|i: int, j: int|
            0 <= i < j < self.input@.len() ==> (#[trigger] self.input@[i])@
                != (#[trigger] self.input@[j])@
        &&& forall|i: int, j: int|
            0 <= i < j < self.trace@.len() ==> (#[trigger] self.trace@[i])@
                != (#[trigger] self.trace@[j])@
    }

    /// An empty catalog over a pool of the given size.
    pub fn new(workers: usize) -> (r: Catalog)
        requires
            workers > 0,
        ensures
            r.wf(),
            r.workers == workers,
            r.input@ == Seq::<Name>::empty(),
            r.trace@ == Seq::<Name>::empty(),
    {
        Catalog { workers, input: Vec::new(), trace: Vec::new() }
    }

    /// Whether an input of the given name exists.
    pub fn input_exists(&self, name: &Name) -> (r: bool)
        ensures
            r == self.has_input(name@),
    {
        let mut i: usize = 0;
        while i < self.input.len()
            invariant
                0 <= i <= self.input@.len(),
                forall|j: int| 0 <= j < i ==> (#[trigger] self.input@[j])@ != name@,
            decreases self.input@.len() - i,
        {
            if self.input[i] == *name {
                proof {
                    assert((self.input@[i as int])@ == name@);
                }
                return true;
            }
            i = i + 1;
        }
        false
    }

    /// Whether a trace of the given name exists.
    pub fn trace_exists(&self, name: &Name) -> (r: bool)
        ensures
            r == self.has_trace(name@),
    {
        let mut i: usize = 0;
        while i < self.trace.len()
            invariant
                0 <= i <= self.trace@.len(),
                forall|j: int| 0 <= j < i ==> (#[trigger] self.trace@[j])@ != name@,
            decreases self.trace@.len() - i,
        {
            if self.trace[i] == *name {
                proof {
                    assert((self.trace@[i as int])@ == name@);
                }
                return true;
            }
            i = i + 1;
        }
        false
    }

    /// Create an input and a trace under one name. Fails, changing nothing,
    /// if either kind already uses the name.
    pub fn create_input_and_trace(&mut self, name: Name) -> (r: Result<(), Error>)
        requires
            old(self).wf(),
        ensures
            final(self).wf(),
            final(self).workers == old(self).workers,
            match r {
                Ok(()) => {
                    &&& !old(self).has_input(name@)
                    &&& !old(self).has_trace(name@)
                    &&& final(self).input@.len() == old(self).input@.len() + 1
                    &&& final(self).trace@.len() == old(self).trace@.len() + 1
                    &&& (final(self).input@.last())@ == name@
                    &&& (final(self).trace@.last())@ == name@
                    &&& forall|i: int| 0 <= i < old(self).input@.len() ==> final(self).input@[i]
                        == old(self).input@[i]
                    &&& forall|i: int| 0 <= i < old(self).trace@.len() ==> final(self).trace@[i]
                        == old(self).trace@[i]
                },
                Err(e) => {
                    &&& *final(self) == *old(self)
                    &&& match e {
                        Error::InputAlreadyExists(n) => old(self).has_input(name@) && n@ == name@,
                        Error::TraceAlreadyExists(n) => !old(self).has_input(name@) && old(
                            self,
                        ).has_trace(name@) && n@ == name@,
                        _ => false,
                    }
                },
            },
    {
        if self.input_exists(&name) {
            Err(Error::InputAlreadyExists(name))
        } else if self.trace_exists(&name) {
            Err(Error::TraceAlreadyExists(name))
        } else {
            let copy = name.clone();
            self.input.push(copy);
            self.trace.push(name);
            proof {
                assert(self.input@.drop_last() =~= old(self).input@);
                assert(self.trace@.drop_last() =~= old(self).trace@);
            }
            Ok(())
        }
    }

    /// Create an input. Fails, changing nothing, if the name is in use.
    pub fn create_input(&mut self, name: Name) -> (r: Result<(), Error>)
        requires
            old(self).wf(),
        ensures
            final(self).wf(),
            final(self).workers == old(self).workers,
            final(self).trace == old(self).trace,
            match r {
                Ok(()) => {
                    &&& !old(self).has_input(name@)
                    &&& final(self).input@.len() == old(self).input@.len() + 1
                    &&& (final(self).input@.last())@ == name@
                    &&& forall|i: int| 0 <= i < old(self).input@.len() ==> final(self).input@[i]
                        == old(self).input@[i]
                },
                Err(e) => {
                    &&& *final(self) == *old(self)
                    &&& match e {
                        Error::InputAlreadyExists(n) => old(self).has_input(name@) && n@ == name@,
                        _ => false,
                    }
                },
            },
    {
        if self.input_exists(&name) {
            Err(Error::InputAlreadyExists(name))
        } else {
            self.input.push(name);
            proof {
                assert(self.input@.drop_last() =~= old(self).input@);
            }
            Ok(())
        }
    }

    /// Create a trace. Fails, changing nothing, if the name is in use.
    pub fn create_trace(&mut self, name: Name) -> (r: Result<(), Error>)
        requires
            old(self).wf(),
        ensures
            final(self).wf(),
            final(self).workers == old(self).workers,
            final(self).input == old(self).input,
            match r {
                Ok(()) => {
                    &&& !old(self).has_trace(name@)
                    &&& final(self).trace@.len() == old(self).trace@.len() + 1
                    &&& (final(self).trace@.last())@ == name@
                    &&& forall|i: int| 0 <= i < old(self).trace@.len() ==> final(self).trace@[i]
                        == old(self).trace@[i]
                },
                Err(e) => {
                    &&& *final(self) == *old(self)
                    &&& match e {
                        Error::TraceAlreadyExists(n) => old(self).has_trace(name@) && n@ == name@,
                        _ => false,
                    }
                },
            },
    {
        if self.trace_exists(&name) {
            Err(Error::TraceAlreadyExists(name))
        } else {
            self.trace.push(name);
            proof {
                assert(self.trace@.drop_last() =~= old(self).trace@);
            }
            Ok(())
        }
    }

    /// Route a query on `key` against the named trace to one worker of the
    /// pool. Fails if the trace does not exist.
    pub fn determine_trace_worker(&self, name: &Name, key: &Row) -> (r: Result<usize, Error>)
        requires
            self.wf(),
        ensures
            match r {
                Ok(idx) => self.has_trace(name@) && idx < self.workers,
                Err(e) => {
                    &&& !self.has_trace(name@)
                    &&& match e {
                        Error::TraceNotExist(n) => n@ == name@,
                        _ => false,
                    }
                },
            },
    {
        if self.trace_exists(name) {
            let h = hash_row(key);
            Ok((h % (self.workers as u64)) as usize)
        } else {
            Err(Error::TraceNotExist(name.clone()))
        }
    }
}

} // verus!
