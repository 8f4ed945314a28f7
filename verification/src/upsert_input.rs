//! The upsert input group: a registry of input sessions that accept
//! `(key, Some(value) | None, time)` triples. A session buffers changes at
//! its current time; the worker drains the buffer into the matching trace
//! when the frontier advances.

use crate::internal::SysInternalInput;
use crate::name::Name;
use crate::row::Row;
use crate::timestamp::SysTime;
use vstd::prelude::*;

verus! {

/// A record type whose values an upsert input accepts: each record derives
/// the key it is stored under.
pub trait UpsertInput {
    /// The key this record is stored under.
    spec fn key_spec(&self) -> Row;

    /// Derive the key from the record.
    fn get_key(&self) -> (r: Row)
        ensures
            r == self.key_spec(),
    ;
}

impl UpsertInput for Row {
    /// A bare record is stored under itself.
    open spec fn key_spec(&self) -> Row {
        *self
    }

    fn get_key(&self) -> (r: Row) {
        *self
    }
}

/// The time a session sits at after `advance_to(t)`: `t` if it lies ahead,
/// else unchanged.
pub open spec fn advanced_time(current: SysTime, t: SysTime) -> SysTime {
    if t.internal > current.internal {
        t
    } else {
        current
    }
}

/// One upsert input session: a current time and a buffer of changes at that
/// time, not yet arranged into the trace.
pub struct UpsertSession {
    /// The name the input was created under; the arranged trace shares it.
    pub name: Name,
    /// The session's current time; it never decreases.
    pub time: SysTime,
    /// Changes at the current time, in send order.
    pub buffer: Vec<(Row, Option<Row>)>,
}

impl UpsertSession {
    /// A fresh session at the given time, with nothing buffered.
    pub fn new(name: Name, at: SysTime) -> (r: UpsertSession)
        ensures
            r.name@ == name@,
            r.time == at,
            r.buffer@ == Seq::<(Row, Option<Row>)>::empty(),
    {
        UpsertSession { name, time: at, buffer: Vec::new() }
    }

    /// Buffer one change at the session's current time: a new value for the
    /// key, or `None` to delete it.
    pub fn send(&mut self, key: Row, value: Option<Row>)
        ensures
            final(self).buffer@ == old(self).buffer@.push((key, value)),
            final(self).time == old(self).time,
            final(self).name == old(self).name,
    {
        self.buffer.push((key, value));
    }

    /// Advance the session's current time to `t`; a no-op if `t` is not
    /// ahead of it.
    pub fn advance_to(&mut self, t: SysTime)
        ensures
            final(self).time == advanced_time(old(self).time, t),
            final(self).buffer == old(self).buffer,
            final(self).name == old(self).name,
    {
        if self.time.internal < t.internal {
            self.time = t;
        }
    }

    /// Drain the buffered changes, leaving the session empty at the same
    /// time.
    pub fn take_buffer(&mut self) -> (r: Vec<(Row, Option<Row>)>)
        ensures
            r@ == old(self).buffer@,
            final(self).buffer@ == Seq::<(Row, Option<Row>)>::empty(),
            final(self).time == old(self).time,
            final(self).name == old(self).name,
    {
        let mut taken: Vec<(Row, Option<Row>)> = Vec::new();
        core::mem::swap(&mut taken, &mut self.buffer);
        taken
    }
}

/// The registry of upsert input sessions, addressed by name.
pub struct UpsertInputGroup {
    /// The registered sessions, in registration order.
    pub sessions: Vec<UpsertSession>,
}

impl UpsertInputGroup {
    /// Whether a session of the given name is registered.
    pub open spec fn has_session(&self, n: Seq<char>) -> bool {
        exists|i: int| 0 <= i < self.sessions@.len() && (#[trigger] self.sessions@[i]).name@ == n
    }

    /// Registered names are pairwise distinct.
    pub open spec fn wf(&self) -> bool {
        forall|i: int, j: int|
            0 <= i < j < self.sessions@.len() ==> (#[trigger] self.sessions@[i]).name@
                != (#[trigger] self.sessions@[j]).name@
    }

    /// One buffered change was appended to the session of the given name;
    /// everything else is as it was.
    pub open spec fn sent_to(&self, prior: Self, n: Seq<char>, key: Row, value: Option<Row>) -> bool {
        &&& self.sessions@.len() == prior.sessions@.len()
        &&& exists|i: int|
            {
                &&& 0 <= i < prior.sessions@.len()
                &&& (#[trigger] prior.sessions@[i]).name@ == n
                &&& self.sessions@[i].buffer@ == prior.sessions@[i].buffer@.push((key, value))
                &&& self.sessions@[i].time == prior.sessions@[i].time
                &&& self.sessions@[i].name@ == prior.sessions@[i].name@
                &&& forall|j: int|
                    0 <= j < prior.sessions@.len() && j != i ==> (#[trigger] self.sessions@[j])
                        == prior.sessions@[j]
            }
    }

    /// An empty registry.
    pub fn new() -> (r: UpsertInputGroup)
        ensures
            r.wf(),
            r.sessions@ == Seq::<UpsertSession>::empty(),
    {
        UpsertInputGroup { sessions: Vec::new() }
    }

    /// Register a session. Registering a name twice is a coordinator bug,
    /// so a session of the same name must not already be present.
    pub fn register(&mut self, session: UpsertSession)
        requires
            old(self).wf(),
            !old(self).has_session(session.name@),
        ensures
            final(self).wf(),
            final(self).sessions@ == old(self).sessions@.push(session),
    {
        self.sessions.push(session);
        proof {
            assert(self.sessions@.last() == session);
            assert(self.sessions@.drop_last() =~= old(self).sessions@);
        }
    }

    /// Look up the session of the given name.
    pub fn get(&self, name: &Name) -> (r: Option<&UpsertSession>)
        ensures
            match r {
                Some(s) => s.name@ == name@ && self.sessions@.contains(*s),
                None => !self.has_session(name@),
            },
    {
        let mut i: usize = 0;
        while i < self.sessions.len()
            invariant
                0 <= i <= self.sessions@.len(),
                forall|j: int| 0 <= j < i ==> (#[trigger] self.sessions@[j]).name@ != name@,
            decreases self.sessions@.len() - i,
        {
            if self.sessions[i].name == *name {
                proof {
                    assert(self.sessions@.contains(self.sessions@[i as int]));
                }
                return Some(&self.sessions[i]);
            }
            i = i + 1;
        }
        None
    }

    /// Look up the session of the given name for mutation.
    pub fn get_mut(&mut self, name: &Name) -> (r: Option<&mut UpsertSession>)
        ensures
            match r {
                Some(s) => {
                    &&& (*s).name@ == name@
                    &&& exists|i: int|
                        0 <= i < old(self).sessions@.len() && old(self).sessions@[i] == *s
                            && final(self).sessions@ == old(self).sessions@.update(i, *final(s))
                },
                None => !old(self).has_session(name@) && *final(self) == *old(self),
            },
    {
        let n = self.sessions.len();
        let mut i: usize = 0;
        while i < n
            invariant
                n == self.sessions@.len(),
                0 <= i <= n,
                self == old(self),
                forall|j: int| 0 <= j < i ==> (#[trigger] self.sessions@[j]).name@ != name@,
            decreases n - i,
        {
            if self.sessions[i].name == *name {
                return Some(&mut self.sessions[i]);
            }
            i = i + 1;
        }
        None
    }

    /// Buffer an upsert of `value` under its derived key in the session of
    /// the given name, which must be registered.
    pub fn upsert(&mut self, name: &Name, value: Row)
        requires
            old(self).wf(),
            old(self).has_session(name@),
        ensures
            final(self).wf(),
            final(self).sent_to(*old(self), name@, value.key_spec(), Some(value)),
    {
        let key = value.get_key();
        self.send_to(name, key, Some(value));
    }

    /// Buffer a deletion of `key` in the session of the given name, which
    /// must be registered.
    pub fn delete(&mut self, name: &Name, key: Row)
        requires
            old(self).wf(),
            old(self).has_session(name@),
        ensures
            final(self).wf(),
            final(self).sent_to(*old(self), name@, key, None),
    {
        self.send_to(name, key, None);
    }

    /// Buffer one change in the session of the given name, which must be
    /// registered.
    pub fn send_to(&mut self, name: &Name, key: Row, value: Option<Row>)
        requires
            old(self).wf(),
            old(self).has_session(name@),
        ensures
            final(self).wf(),
            final(self).sent_to(*old(self), name@, key, value),
    {
        let n = self.sessions.len();
        let mut i: usize = 0;
        while i < n
            invariant
                n == self.sessions@.len(),
                0 <= i <= n,
                self == old(self),
                old(self).wf(),
                old(self).has_session(name@),
                forall|j: int| 0 <= j < i ==> (#[trigger] self.sessions@[j]).name@ != name@,
            decreases n - i,
        {
            if self.sessions[i].name == *name {
                let ghost idx = i as int;
                let session = &mut self.sessions[i];
                session.send(key, value);
                proof {
                    assert forall|a: int, b: int|
                        0 <= a < b < self.sessions@.len() implies (#[trigger] self.sessions@[a]).name@
                        != (#[trigger] self.sessions@[b]).name@ by {
                        assert(old(self).sessions@[a].name@ != old(self).sessions@[b].name@);
                    }
                    assert(self.sessions@[idx].buffer@ == old(self).sessions@[idx].buffer@.push(
                        (key, value),
                    ));
                }
                return ;
            }
            i = i + 1;
        }
        proof {
            assert(!old(self).has_session(name@));
        }
    }

    /// Advance every session's current time to `t`; sessions already at or
    /// past `t` stay put.
    pub fn advance_to(&mut self, t: SysTime)
        ensures
            final(self).sessions@.len() == old(self).sessions@.len(),
            forall|i: int|
                0 <= i < old(self).sessions@.len() ==> {
                    &&& (#[trigger] final(self).sessions@[i]).time == advanced_time(
                        old(self).sessions@[i].time,
                        t,
                    )
                    &&& final(self).sessions@[i].buffer == old(self).sessions@[i].buffer
                    &&& final(self).sessions@[i].name == old(self).sessions@[i].name
                },
    {
        let n = self.sessions.len();
        let mut i: usize = 0;
        while i < n
            invariant
                n == self.sessions@.len(),
                0 <= i <= n,
                forall|j: int|
                    0 <= j < i ==> {
                        &&& (#[trigger] self.sessions@[j]).time == advanced_time(
                            old(self).sessions@[j].time,
                            t,
                        )
                        &&& self.sessions@[j].buffer == old(self).sessions@[j].buffer
                        &&& self.sessions@[j].name == old(self).sessions@[j].name
                    },
                forall|j: int| i <= j < n ==> (#[trigger] self.sessions@[j]) == old(
                    self,
                ).sessions@[j],
            decreases n - i,
        {
            let session = &mut self.sessions[i];
            session.advance_to(t);
            i = i + 1;
        }
    }

    /// Report every session's name and current time, in registration order.
    pub fn collect_info(&self) -> (r: Vec<SysInternalInput>)
        ensures
            r@.len() == self.sessions@.len(),
            forall|i: int|
                0 <= i < self.sessions@.len() ==> {
                    &&& (#[trigger] r@[i]).name@ == self.sessions@[i].name@
                    &&& r@[i].time == self.sessions@[i].time
                },
    {
        let mut ret: Vec<SysInternalInput> = Vec::new();
        let mut i: usize = 0;
        while i < self.sessions.len()
            invariant
                0 <= i <= self.sessions@.len(),
                ret@.len() == i,
                forall|j: int|
                    0 <= j < i ==> {
                        &&& (#[trigger] ret@[j]).name@ == self.sessions@[j].name@
                        &&& ret@[j].time == self.sessions@[j].time
                    },
            decreases self.sessions@.len() - i,
        {
            let info = SysInternalInput {
                name: self.sessions[i].name.text(),
                time: self.sessions[i].time,
            };
            ret.push(info);
            i = i + 1;
        }
        ret
    }
}

} // verus!
