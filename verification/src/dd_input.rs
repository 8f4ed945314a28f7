//! The batch input group: a registry of append-only input sessions that
//! accept values with signed diff weights. A session buffers updates and
//! flushes them when the frontier advances.

use crate::internal::SysInternalInput;
use crate::name::Name;
use crate::row::Row;
use crate::timestamp::SysTime;
use crate::upsert_input::advanced_time;
use vstd::prelude::*;

verus! {

/// One batch input session: a current time, a buffer of pending updates and
/// the log of updates already flushed into the dataflow.
pub struct DDSession {
    /// The name the input was created under.
    pub name: Name,
    /// The session's current time; it never decreases.
    pub time: SysTime,
    /// Updates not yet flushed, in send order.
    pub buffer: Vec<(Row, SysTime, i64)>,
    /// Updates already flushed, in flush order.
    pub log: Vec<(Row, SysTime, i64)>,
}

impl DDSession {
    /// A fresh session at the given time, with nothing buffered.
    pub fn new(name: Name, at: SysTime) -> (r: DDSession)
        ensures
            r.name@ == name@,
            r.time == at,
            r.buffer@ == Seq::<(Row, SysTime, i64)>::empty(),
            r.log@ == Seq::<(Row, SysTime, i64)>::empty(),
    {
        DDSession { name, time: at, buffer: Vec::new(), log: Vec::new() }
    }
}

/// The registry of batch input sessions, addressed by name.
pub struct DDInputGroup {
    /// The registered sessions, in registration order.
    pub sessions: Vec<DDSession>,
}

impl DDInputGroup {
    /// Whether a session of the given name is registered.
    pub open spec fn has_session(&self, n: Seq<char>) -> bool {
        exists|i: int| 0 <= i < self.sessions@.len() && (#[trigger] self.sessions@[i]).name@ == n
    }

    /// Registered names are pairwise distinct.
    pub open spec fn wf(&self) -> bool {
        forall|i: int, j: int|
            0 <= i < j < self.sessions@.len() ==> (#[trigger] self.sessions@[i]).name@
                != (#[trigger] self.sessions@[j]).name@
    }

    /// The given updates were appended to the buffer of the session of the
    /// given name; everything else is as it was.
    pub open spec fn buffered_to(
        &self,
        prior: Self,
        n: Seq<char>,
        updates: Seq<(Row, SysTime, i64)>,
    ) -> bool {
        &&& self.sessions@.len() == prior.sessions@.len()
        &&& exists|i: int|
            {
                &&& 0 <= i < prior.sessions@.len()
                &&& (#[trigger] prior.sessions@[i]).name@ == n
                &&& self.sessions@[i].buffer@ == prior.sessions@[i].buffer@ + updates
                &&& self.sessions@[i].time == prior.sessions@[i].time
                &&& self.sessions@[i].log == prior.sessions@[i].log
                &&& self.sessions@[i].name@ == prior.sessions@[i].name@
                &&& forall|j: int|
                    0 <= j < prior.sessions@.len() && j != i ==> (#[trigger] self.sessions@[j])
                        == prior.sessions@[j]
            }
    }

    /// An empty registry.
    pub fn new() -> (r: DDInputGroup)
        ensures
            r.wf(),
            r.sessions@ == Seq::<DDSession>::empty(),
    {
        DDInputGroup { sessions: Vec::new() }
    }

    /// Register a session. Registering a name twice is a coordinator bug,
    /// so a session of the same name must not already be present.
    pub fn register(&mut self, session: DDSession)
        requires
            old(self).wf(),
            !old(self).has_session(session.name@),
        ensures
            final(self).wf(),
            final(self).sessions@ == old(self).sessions@.push(session),
    {
        self.sessions.push(session);
        proof {
            assert(self.sessions@.last() == session);
            assert(self.sessions@.drop_last() =~= old(self).sessions@);
        }
    }

    /// Look up the session of the given name.
    pub fn get(&self, name: &Name) -> (r: Option<&DDSession>)
        ensures
            match r {
                Some(s) => s.name@ == name@ && self.sessions@.contains(*s),
                None => !self.has_session(name@),
            },
    {
        let mut i: usize = 0;
        while i < self.sessions.len()
            invariant
                0 <= i <= self.sessions@.len(),
                forall|j: int| 0 <= j < i ==> (#[trigger] self.sessions@[j]).name@ != name@,
            decreases self.sessions@.len() - i,
        {
            if self.sessions[i].name == *name {
                proof {
                    assert(self.sessions@.contains(self.sessions@[i as int]));
                }
                return Some(&self.sessions[i]);
            }
            i = i + 1;
        }
        None
    }

    /// Look up the session of the given name for mutation.
    pub fn get_mut(&mut self, name: &Name) -> (r: Option<&mut DDSession>)
        ensures
            match r {
                Some(s) => {
                    &&& (*s).name@ == name@
                    &&& exists|i: int|
                        0 <= i < old(self).sessions@.len() && old(self).sessions@[i] == *s
                            && final(self).sessions@ == old(self).sessions@.update(i, *final(s))
                },
                None => !old(self).has_session(name@) && *final(self) == *old(self),
            },
    {
        let n = self.sessions.len();
        let mut i: usize = 0;
        while i < n
            invariant
                n == self.sessions@.len(),
                0 <= i <= n,
                self == old(self),
                forall|j: int| 0 <= j < i ==> (#[trigger] self.sessions@[j]).name@ != name@,
            decreases n - i,
        {
            if self.sessions[i].name == *name {
                return Some(&mut self.sessions[i]);
            }
            i = i + 1;
        }
        None
    }

    /// Buffer `value` with weight `change` at the session's current time.
    /// The session must be registered.
    pub fn update(&mut self, name: &Name, value: Row, change: i64)
        requires
            old(self).wf(),
            old(self).has_session(name@),
        ensures
            final(self).wf(),
            exists|i: int|
                {
                    &&& 0 <= i < old(self).sessions@.len()
                    &&& (#[trigger] old(self).sessions@[i]).name@ == name@
                    &&& final(self).buffered_to(
                        *old(self),
                        name@,
                        seq![(value, old(self).sessions@[i].time, change)],
                    )
                },
    {
        let n = self.sessions.len();
        let mut i: usize = 0;
        while i < n
            invariant
                n == self.sessions@.len(),
                0 <= i <= n,
                self == old(self),
                old(self).wf(),
                forall|j: int| 0 <= j < i ==> (#[trigger] self.sessions@[j]).name@ != name@,
            decreases n - i,
        {
            if self.sessions[i].name == *name {
                let ghost idx = i as int;
                let at = self.sessions[i].time;
                let session = &mut self.sessions[i];
                session.buffer.push((value, at, change));
                proof {
                    assert(self.sessions@[idx].buffer@ =~= old(self).sessions@[idx].buffer@ + seq![
                        (value, old(self).sessions@[idx].time, change),
                    ]);
                    assert forall|a: int, b: int|
                        0 <= a < b < self.sessions@.len() implies (#[trigger] self.sessions@[a]).name@
                        != (#[trigger] self.sessions@[b]).name@ by {
                        assert(old(self).sessions@[a].name@ != old(self).sessions@[b].name@);
                    }
                }
                return ;
            }
            i = i + 1;
        }
        proof {
            assert(!old(self).has_session(name@));
        }
    }

    /// Buffer `value` with weight `change` at the given time, which must not
    /// lie before the session's current time. The session must be
    /// registered.
    pub fn update_at(&mut self, name: &Name, value: Row, time: SysTime, change: i64)
        requires
            old(self).wf(),
            old(self).has_session(name@),
            forall|i: int|
                0 <= i < old(self).sessions@.len() && (#[trigger] old(self).sessions@[i]).name@
                    == name@ ==> old(self).sessions@[i].time.internal <= time.internal,
        ensures
            final(self).wf(),
            final(self).buffered_to(*old(self), name@, seq![(value, time, change)]),
    {
        let n = self.sessions.len();
        let mut i: usize = 0;
        while i < n
            invariant
                n == self.sessions@.len(),
                0 <= i <= n,
                self == old(self),
                old(self).wf(),
                forall|j: int| 0 <= j < i ==> (#[trigger] self.sessions@[j]).name@ != name@,
            decreases n - i,
        {
            if self.sessions[i].name == *name {
                let ghost idx = i as int;
                let session = &mut self.sessions[i];
                session.buffer.push((value, time, change));
                proof {
                    assert(self.sessions@[idx].buffer@ =~= old(self).sessions@[idx].buffer@ + seq![
                        (value, time, change),
                    ]);
                    assert forall|a: int, b: int|
                        0 <= a < b < self.sessions@.len() implies (#[trigger] self.sessions@[a]).name@
                        != (#[trigger] self.sessions@[b]).name@ by {
                        assert(old(self).sessions@[a].name@ != old(self).sessions@[b].name@);
                    }
                }
                return ;
            }
            i = i + 1;
        }
        proof {
            assert(!old(self).has_session(name@));
        }
    }

    /// Buffer every value of the batch with weight one at the session's
    /// current time. The session must be registered.
    pub fn insert_batch(&mut self, name: &Name, batch: Vec<Row>)
        requires
            old(self).wf(),
            old(self).has_session(name@),
        ensures
            final(self).wf(),
            exists|i: int|
                {
                    &&& 0 <= i < old(self).sessions@.len()
                    &&& (#[trigger] old(self).sessions@[i]).name@ == name@
                    &&& final(self).buffered_to(
                        *old(self),
                        name@,
                        batch@.map_values(
                            |v: Row| (v, old(self).sessions@[i].time, 1i64),
                        ),
                    )
                },
    {
        let n = self.sessions.len();
        let mut i: usize = 0;
        while i < n
            invariant
                n == self.sessions@.len(),
                0 <= i <= n,
                self == old(self),
                old(self).wf(),
                forall|j: int| 0 <= j < i ==> (#[trigger] self.sessions@[j]).name@ != name@,
            decreases n - i,
        {
            if self.sessions[i].name == *name {
                let ghost idx = i as int;
                let at = self.sessions[i].time;
                let session = &mut self.sessions[i];
                let ghost stamped = batch@.map_values(|v: Row| (v, at, 1i64));
                let mut k: usize = 0;
                while k < batch.len()
                    invariant
                        0 <= k <= batch@.len(),
                        stamped == batch@.map_values(|v: Row| (v, at, 1i64)),
                        session.buffer@ == old(self).sessions@[idx].buffer@ + stamped.take(k as int),
                        session.time == old(self).sessions@[idx].time,
                        session.name == old(self).sessions@[idx].name,
                        session.log == old(self).sessions@[idx].log,
                        at == old(self).sessions@[idx].time,
                    decreases batch@.len() - k,
                {
                    session.buffer.push((batch[k], at, 1i64));
                    proof {
                        assert(stamped.take(k + 1) =~= stamped.take(k as int).push(
                            (batch@[k as int], at, 1i64),
                        ));
                    }
                    k = k + 1;
                }
                proof {
                    assert(stamped.take(batch@.len() as int) =~= stamped);
                    assert forall|a: int, b: int|
                        0 <= a < b < self.sessions@.len() implies (#[trigger] self.sessions@[a]).name@
                        != (#[trigger] self.sessions@[b]).name@ by {
                        assert(old(self).sessions@[a].name@ != old(self).sessions@[b].name@);
                    }
                }
                return ;
            }
            i = i + 1;
        }
        proof {
            assert(!old(self).has_session(name@));
        }
    }

    /// Advance every session to `t` and flush its pending updates into the
    /// log. Sessions already at or past `t` keep their time.
    pub fn advance_and_flush(&mut self, frontier: SysTime)
        ensures
            final(self).sessions@.len() == old(self).sessions@.len(),
            forall|i: int|
                0 <= i < old(self).sessions@.len() ==> {
                    &&& (#[trigger] final(self).sessions@[i]).time == advanced_time(
                        old(self).sessions@[i].time,
                        frontier,
                    )
                    &&& final(self).sessions@[i].log@ == old(self).sessions@[i].log@ + old(
                        self,
                    ).sessions@[i].buffer@
                    &&& final(self).sessions@[i].buffer@ == Seq::<(Row, SysTime, i64)>::empty()
                    &&& final(self).sessions@[i].name == old(self).sessions@[i].name
                },
    {
        let n = self.sessions.len();
        let mut i: usize = 0;
        while i < n
            invariant
                n == self.sessions@.len(),
                0 <= i <= n,
                forall|j: int|
                    0 <= j < i ==> {
                        &&& (#[trigger] self.sessions@[j]).time == advanced_time(
                            old(self).sessions@[j].time,
                            frontier,
                        )
                        &&& self.sessions@[j].log@ == old(self).sessions@[j].log@ + old(
                            self,
                        ).sessions@[j].buffer@
                        &&& self.sessions@[j].buffer@ == Seq::<(Row, SysTime, i64)>::empty()
                        &&& self.sessions@[j].name == old(self).sessions@[j].name
                    },
                forall|j: int| i <= j < n ==> (#[trigger] self.sessions@[j]) == old(
                    self,
                ).sessions@[j],
            decreases n - i,
        {
            let session = &mut self.sessions[i];
            let mut pending: Vec<(Row, SysTime, i64)> = Vec::new();
            core::mem::swap(&mut pending, &mut session.buffer);
            let mut k: usize = 0;
            let ghost idx = i as int;
            while k < pending.len()
                invariant
                    0 <= k <= pending@.len(),
                    pending@ == old(self).sessions@[idx].buffer@,
                    session.log@ == old(self).sessions@[idx].log@ + pending@.take(k as int),
                    session.buffer@ == Seq::<(Row, SysTime, i64)>::empty(),
                    session.time == old(self).sessions@[idx].time,
                    session.name == old(self).sessions@[idx].name,
                decreases pending@.len() - k,
            {
                session.log.push(pending[k]);
                proof {
                    assert(pending@.take(k + 1) =~= pending@.take(k as int).push(
                        pending@[k as int],
                    ));
                }
                k = k + 1;
            }
            proof {
                assert(pending@.take(pending@.len() as int) =~= pending@);
            }
            if session.time.internal < frontier.internal {
                session.time = frontier;
            }
            i = i + 1;
        }
    }

    /// Report every session's name and current time, in registration order.
    pub fn collect_info(&self) -> (r: Vec<SysInternalInput>)
        ensures
            r@.len() == self.sessions@.len(),
            forall|i: int|
                0 <= i < self.sessions@.len() ==> {
                    &&& (#[trigger] r@[i]).name@ == self.sessions@[i].name@
                    &&& r@[i].time == self.sessions@[i].time
                },
    {
        let mut ret: Vec<SysInternalInput> = Vec::new();
        let mut i: usize = 0;
        while i < self.sessions.len()
            invariant
                0 <= i <= self.sessions@.len(),
                ret@.len() == i,
                forall|j: int|
                    0 <= j < i ==> {
                        &&& (#[trigger] ret@[j]).name@ == self.sessions@[j].name@
                        &&& ret@[j].time == self.sessions@[j].time
                    },
            decreases self.sessions@.len() - i,
        {
            let info = SysInternalInput {
                name: self.sessions[i].name.text(),
                time: self.sessions[i].time,
            };
            ret.push(info);
            i = i + 1;
        }
        ret
    }
}

} // verus!
