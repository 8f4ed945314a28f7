//! The trace: the append-only, compacted history of a derived collection.
//!
//! A trace holds `(key, value, time, diff)` updates produced by arranging an
//! upsert input: at any time `q`, the multiplicity of `(k, v)` is `1` exactly
//! when the most recent upsert for `k` at a time `<= q` supplied `v`, and `0`
//! otherwise. The upsert history itself is carried as ghost state, and the
//! well-formedness invariant ties the stored updates to it.

use crate::name::Name;
use crate::row::Row;
use crate::timestamp::SysTime;
use crate::SysDiff;
use vstd::prelude::*;

verus! {

/// One upsert operation as the input session observed it: a new value for
/// the key, or `None` for a deletion.
#[derive(Clone, Copy, Debug)]
pub struct UpsertOp {
    pub key: Row,
    pub value: Option<Row>,
    pub time: SysTime,
}

/// One stored update of a trace.
#[derive(Clone, Copy, Debug)]
pub struct TraceEntry {
    pub key: Row,
    pub val: Row,
    pub time: SysTime,
    pub diff: SysDiff,
}

/// The accumulated weight of `(key, val)` over all stored updates whose time
/// is at or before `q`.
pub open spec fn entry_accum(s: Seq<TraceEntry>, key: Row, val: Row, q: int) -> int
    decreases s.len(),
{
    if s.len() == 0 {
        0
    } else {
        entry_accum(s.drop_last(), key, val, q) + if s.last().key == key && s.last().val == val
            && s.last().time.internal <= q {
            s.last().diff as int
        } else {
            0
        }
    }
}

/// The value the most recent upsert for `key` at a time `<= q` supplied, or
/// `None` if there is none or it was a deletion.
pub open spec fn last_value_at(h: Seq<UpsertOp>, key: Row, q: int) -> Option<Row>
    decreases h.len(),
{
    if h.len() == 0 {
        None
    } else if h.last().key == key && h.last().time.internal <= q {
        h.last().value
    } else {
        last_value_at(h.drop_last(), key, q)
    }
}

/// The value the most recent upsert for `key` supplied, at any time.
pub open spec fn state_of(h: Seq<UpsertOp>, key: Row) -> Option<Row>
    decreases h.len(),
{
    if h.len() == 0 {
        None
    } else if h.last().key == key {
        h.last().value
    } else {
        state_of(h.drop_last(), key)
    }
}

/// The latest recorded value for `key` in the running state list.
pub open spec fn current_value(c: Seq<(Row, Option<Row>)>, key: Row) -> Option<Row>
    decreases c.len(),
{
    if c.len() == 0 {
        None
    } else if c.last().0 == key {
        c.last().1
    } else {
        current_value(c.drop_last(), key)
    }
}

/// A batch of raw upserts stamped with one time.
pub open spec fn ops_at(ops: Seq<(Row, Option<Row>)>, t: SysTime) -> Seq<UpsertOp> {
    ops.map_values(|p: (Row, Option<Row>)| (UpsertOp { key: p.0, value: p.1, time: t }))
}

/// What reading `key` at time `q` must yield: one copy of the live value, or
/// nothing.
pub open spec fn reading(h: Seq<UpsertOp>, key: Row, q: int) -> Seq<Row> {
    match last_value_at(h, key, q) {
        Some(v) => seq![v],
        None => Seq::empty(),
    }
}

/// Appending one update shifts the accumulated weight by that update's
/// contribution.
pub proof fn lemma_accum_push(s: Seq<TraceEntry>, e: TraceEntry, key: Row, val: Row, q: int)
    ensures
        entry_accum(s.push(e), key, val, q) == entry_accum(s, key, val, q) + if e.key == key
            && e.val == val && e.time.internal <= q {
            e.diff as int
        } else {
            0
        },
{
    assert(s.push(e).drop_last() =~= s);
    assert(s.push(e).last() == e);
}

/// Appending one upsert either answers for its own key at late enough times
/// or leaves the answer unchanged.
pub proof fn lemma_last_value_push(h: Seq<UpsertOp>, op: UpsertOp, key: Row, q: int)
    ensures
        last_value_at(h.push(op), key, q) == if op.key == key && op.time.internal <= q {
            op.value
        } else {
            last_value_at(h, key, q)
        },
{
    assert(h.push(op).drop_last() =~= h);
    assert(h.push(op).last() == op);
}

/// Appending one upsert updates the running state of its own key only.
pub proof fn lemma_state_push(h: Seq<UpsertOp>, op: UpsertOp, key: Row)
    ensures
        state_of(h.push(op), key) == if op.key == key {
            op.value
        } else {
            state_of(h, key)
        },
{
    assert(h.push(op).drop_last() =~= h);
    assert(h.push(op).last() == op);
}

/// At a time at or past every upsert, the answer is the running state.
pub proof fn lemma_last_value_total(h: Seq<UpsertOp>, key: Row, q: int)
    requires
        forall|i: int| 0 <= i < h.len() ==> (#[trigger] h[i]).time.internal <= q,
    ensures
        last_value_at(h, key, q) == state_of(h, key),
    decreases h.len(),
{
    if h.len() > 0 {
        assert(h.last() == h[h.len() - 1]);
        assert(forall|i: int|
            0 <= i < h.drop_last().len() ==> (#[trigger] h.drop_last()[i]).time.internal <= q);
        lemma_last_value_total(h.drop_last(), key, q);
    }
}

/// A positive accumulated weight is witnessed by a stored addition.
pub proof fn lemma_accum_pos_exists(s: Seq<TraceEntry>, key: Row, val: Row, q: int)
    requires
        entry_accum(s, key, val, q) > 0,
        forall|i: int| 0 <= i < s.len() ==> (#[trigger] s[i]).diff == 1 || s[i].diff == -1,
    ensures
        exists|j: int|
            0 <= j < s.len() && (#[trigger] s[j]).key == key && s[j].val == val
                && s[j].time.internal <= q && s[j].diff == 1,
    decreases s.len(),
{
    assert(s.len() > 0);
    let last = s.last();
    assert(last == s[s.len() - 1]);
    if last.key == key && last.val == val && last.time.internal <= q && last.diff == 1 {
        assert(0 <= s.len() - 1 < s.len() && s[s.len() - 1].key == key && s[s.len() - 1].val == val
            && s[s.len() - 1].time.internal <= q && s[s.len() - 1].diff == 1);
    } else {
        assert(forall|i: int|
            0 <= i < s.drop_last().len() ==> (#[trigger] s.drop_last()[i]).diff == 1
                || s.drop_last()[i].diff == -1);
        lemma_accum_pos_exists(s.drop_last(), key, val, q);
        let j = choose|j: int|
            0 <= j < s.drop_last().len() && (#[trigger] s.drop_last()[j]).key == key
                && s.drop_last()[j].val == val && s.drop_last()[j].time.internal <= q
                && s.drop_last()[j].diff == 1;
        assert(s[j] == s.drop_last()[j]);
    }
}

/// Upsert semantics: the answer at time `q` is the value of the last upsert
/// for the key at a time at or before `q` — none if there was none, and none
/// if that last upsert was a deletion.
pub proof fn lemma_upsert_semantics(h: Seq<UpsertOp>, key: Row, q: int)
    ensures
        (forall|i: int|
            0 <= i < h.len() ==> !((#[trigger] h[i]).key == key && h[i].time.internal <= q))
            ==> last_value_at(h, key, q) is None,
        (exists|i: int| 0 <= i < h.len() && (#[trigger] h[i]).key == key && h[i].time.internal <= q)
            ==> exists|i: int|
            {
                &&& 0 <= i < h.len()
                &&& (#[trigger] h[i]).key == key
                &&& h[i].time.internal <= q
                &&& last_value_at(h, key, q) == h[i].value
                &&& forall|j: int|
                    i < j < h.len() ==> !((#[trigger] h[j]).key == key && h[j].time.internal <= q)
            },
    decreases h.len(),
{
    if h.len() > 0 {
        let last = h.last();
        assert(last == h[h.len() - 1]);
        if last.key == key && last.time.internal <= q {
            assert(0 <= h.len() - 1 < h.len() && h[h.len() - 1].key == key && h[h.len()
                - 1].time.internal <= q && last_value_at(h, key, q) == h[h.len() - 1].value);
        } else {
            lemma_upsert_semantics(h.drop_last(), key, q);
            assert(forall|i: int| 0 <= i < h.drop_last().len() ==> (#[trigger] h.drop_last()[i])
                == h[i]);
            if exists|i: int|
                0 <= i < h.len() && (#[trigger] h[i]).key == key && h[i].time.internal <= q {
                let i0 = choose|i: int|
                    0 <= i < h.len() && (#[trigger] h[i]).key == key && h[i].time.internal <= q;
                assert(i0 < h.len() - 1);
                assert(h.drop_last()[i0] == h[i0]);
                let i1 = choose|i: int|
                    {
                        &&& 0 <= i < h.drop_last().len()
                        &&& (#[trigger] h.drop_last()[i]).key == key
                        &&& h.drop_last()[i].time.internal <= q
                        &&& last_value_at(h.drop_last(), key, q) == h.drop_last()[i].value
                        &&& forall|j: int|
                            i < j < h.drop_last().len() ==> !((#[trigger] h.drop_last()[j]).key
                                == key && h.drop_last()[j].time.internal <= q)
                    };
                assert forall|j: int|
                    i1 < j < h.len() implies !((#[trigger] h[j]).key == key && h[j].time.internal
                    <= q) by {
                    if j < h.len() - 1 {
                        assert(h.drop_last()[j] == h[j]);
                    }
                }
                assert(0 <= i1 < h.len() && (#[trigger] h[i1]).key == key && h[i1].time.internal
                    <= q && last_value_at(h, key, q) == h[i1].value);
            }
        }
    }
}

/// Round trip: after an upsert of any record under a key and then a deletion
/// of that key, a read at or past the deletion's time yields nothing.
pub proof fn lemma_upsert_delete_round_trip(
    h: Seq<UpsertOp>,
    r: Row,
    key: Row,
    t1: SysTime,
    t2: SysTime,
    q: int,
)
    requires
        t2.internal <= q,
    ensures
        reading(
            h.push(UpsertOp { key, value: Some(r), time: t1 }).push(
                UpsertOp { key, value: None, time: t2 },
            ),
            key,
            q,
        ) == Seq::<Row>::empty(),
{
    lemma_last_value_push(
        h.push(UpsertOp { key, value: Some(r), time: t1 }),
        UpsertOp { key, value: None, time: t2 },
        key,
        q,
    );
}

/// An arranged, compacted history of one derived collection. The frontiers
/// are single times: this trace is never closed.
pub struct Trace {
    /// The name the collection was created under.
    pub name: Name,
    /// The stored updates, in the order they were produced.
    pub entries: Vec<TraceEntry>,
    /// The running latest value per key, used to produce retractions.
    pub current: Vec<(Row, Option<Row>)>,
    /// No update at a time at or past this one has been produced yet.
    pub upper: SysTime,
    /// Reads below this time are no longer answered consistently.
    pub logical: SysTime,
    /// Batches below this time may have been coalesced.
    pub physical: SysTime,
    /// The upserts arranged into this trace, in application order.
    pub history: Ghost<Seq<UpsertOp>>,
}

impl Trace {
    /// The arranged upsert history.
    pub open spec fn hist(&self) -> Seq<UpsertOp> {
        self.history@
    }

    /// The invariant every engine operation preserves, except that the upper
    /// frontier is still at `t` while a batch at `t` is being applied.
    pub open spec fn inv_at(&self, t: SysTime) -> bool {
        &&& self.logical.internal <= t.internal
        &&& forall|i: int| 0 <= i < self.hist().len() ==> (#[trigger] self.hist()[i]).time.internal
            <= t.internal
        &&& forall|i: int, j: int|
            0 <= i <= j < self.hist().len() ==> (#[trigger] self.hist()[i]).time.internal
                <= (#[trigger] self.hist()[j]).time.internal
        &&& forall|i: int| 0 <= i < self.entries@.len() ==> (#[trigger] self.entries@[i]).diff == 1
            || self.entries@[i].diff == -1
        &&& forall|k: Row, v: Row, q: int|
            #[trigger] entry_accum(self.entries@, k, v, q) == if last_value_at(self.hist(), k, q)
                == Some(v) {
                1int
            } else {
                0int
            }
        &&& forall|k: Row| #[trigger] current_value(self.current@, k) == state_of(self.hist(), k)
    }

    /// Well-formedness: every stored update lies strictly below the upper
    /// frontier, the accumulated weights encode the upsert history, and the
    /// running state agrees with it.
    pub open spec fn wf(&self) -> bool {
        &&& self.logical.internal <= self.upper.internal
        &&& forall|i: int| 0 <= i < self.hist().len() ==> (#[trigger] self.hist()[i]).time.internal
            < self.upper.internal
        &&& forall|i: int, j: int|
            0 <= i <= j < self.hist().len() ==> (#[trigger] self.hist()[i]).time.internal
                <= (#[trigger] self.hist()[j]).time.internal
        &&& forall|i: int| 0 <= i < self.entries@.len() ==> (#[trigger] self.entries@[i]).diff == 1
            || self.entries@[i].diff == -1
        &&& forall|k: Row, v: Row, q: int|
            #[trigger] entry_accum(self.entries@, k, v, q) == if last_value_at(self.hist(), k, q)
                == Some(v) {
                1int
            } else {
                0int
            }
        &&& forall|k: Row| #[trigger] current_value(self.current@, k) == state_of(self.hist(), k)
    }

    /// An empty trace created while the worker's frontier is `at`: its upper
    /// frontier starts there, and reads are allowed from the least time on.
    pub fn new(name: Name, at: SysTime) -> (r: Trace)
        ensures
            r.wf(),
            r.hist() == Seq::<UpsertOp>::empty(),
            r.upper == at,
            r.logical.internal == 0,
            r.physical == at,
            r.name@ == name@,
    {
        Trace {
            name,
            entries: Vec::new(),
            current: Vec::new(),
            upper: at,
            logical: SysTime::minimum(),
            physical: at,
            history: Ghost(Seq::empty()),
        }
    }

    /// Whether the trace has advanced strictly past `time`, so that a read
    /// at `time` sees every update it must.
    pub fn beyond(&self, time: &SysTime) -> (r: bool)
        ensures
            r == (time.internal < self.upper.internal),
    {
        time.internal < self.upper.internal
    }

    /// Arrange one upsert at time `t` into the trace: retract the previous
    /// value for the key, if any, and add the new one, if any.
    fn apply_one(&mut self, key: Row, value: Option<Row>, t: SysTime)
        requires
            old(self).inv_at(t),
        ensures
            final(self).inv_at(t),
            final(self).hist() == old(self).hist().push(UpsertOp { key, value, time: t }),
            final(self).upper == old(self).upper,
            final(self).logical == old(self).logical,
            final(self).physical == old(self).physical,
            final(self).name == old(self).name,
    {
        let ghost op = UpsertOp { key, value, time: t };
        let ghost h0 = self.hist();
        let ghost e0 = self.entries@;
        let prev = lookup_current(&self.current, &key);
        match prev {
            Some(ov) => {
                self.entries.push(TraceEntry { key, val: ov, time: t, diff: -1i64 });
            },
            None => {},
        }
        match value {
            Some(nv) => {
                self.entries.push(TraceEntry { key, val: nv, time: t, diff: 1i64 });
            },
            None => {},
        }
        self.current.push((key, value));
        proof {
            self.history@ = h0.push(op);
            assert forall|k: Row| #[trigger] current_value(self.current@, k) == state_of(
                self.hist(),
                k,
            ) by {
                assert(self.current@.drop_last() =~= old(self).current@);
                assert(self.current@.last() == (key, value));
                assert(current_value(old(self).current@, k) == state_of(h0, k));
                lemma_state_push(h0, op, k);
            }
            assert forall|k: Row, v: Row, q: int| #[trigger]
                entry_accum(self.entries@, k, v, q) == (if last_value_at(self.hist(), k, q)
                    == Some(v) {
                    1int
                } else {
                    0int
                }) by {
                lemma_last_value_push(h0, op, k, q);
                let with_retract = if prev is Some {
                    e0.push(TraceEntry { key, val: prev->0, time: t, diff: -1i64 })
                } else {
                    e0
                };
                if prev is Some {
                    lemma_accum_push(
                        e0,
                        TraceEntry { key, val: prev->0, time: t, diff: -1i64 },
                        k,
                        v,
                        q,
                    );
                }
                if value is Some {
                    lemma_accum_push(
                        with_retract,
                        TraceEntry { key, val: value->0, time: t, diff: 1i64 },
                        k,
                        v,
                        q,
                    );
                    assert(self.entries@ == with_retract.push(
                        TraceEntry { key, val: value->0, time: t, diff: 1i64 },
                    ));
                } else {
                    assert(self.entries@ == with_retract);
                }
                if k == key && t.internal <= q {
                    lemma_last_value_total(h0, k, q);
                }
            }
            assert(forall|i: int|
                0 <= i < self.hist().len() ==> (#[trigger] self.hist()[i]).time.internal
                    <= t.internal);
        }
    }

    /// Arrange a batch of upserts at time `t` and advance the upper frontier
    /// to its successor. The batch must arrive exactly at the trace's upper
    /// frontier, in command order.
    pub fn advance(&mut self, ops: &Vec<(Row, Option<Row>)>, t: SysTime)
        requires
            old(self).wf(),
            old(self).upper == t,
            t.internal < u64::MAX,
        ensures
            final(self).wf(),
            final(self).hist() == old(self).hist() + ops_at(ops@, t),
            final(self).upper.internal == t.internal + 1,
            final(self).logical == old(self).logical,
            final(self).physical == old(self).physical,
            final(self).name == old(self).name,
    {
        let ghost h0 = self.hist();
        let mut i: usize = 0;
        proof {
            assert(h0 + ops_at(ops@.take(0), t) =~= h0);
        }
        while i < ops.len()
            invariant
                0 <= i <= ops@.len(),
                self.inv_at(t),
                self.hist() == h0 + ops_at(ops@.take(i as int), t),
                self.upper == old(self).upper,
                self.logical == old(self).logical,
                self.physical == old(self).physical,
                self.name == old(self).name,
                old(self).upper == t,
            decreases ops@.len() - i,
        {
            let (key, value) = ops[i];
            let ghost h_before = self.hist();
            self.apply_one(key, value, t);
            proof {
                assert(ops_at(ops@.take(i + 1), t) =~= ops_at(ops@.take(i as int), t).push(
                    UpsertOp { key, value, time: t },
                ));
                assert(self.hist() =~= h0 + ops_at(ops@.take(i + 1), t));
            }
            i = i + 1;
        }
        proof {
            assert(ops@.take(ops@.len() as int) =~= ops@);
        }
        self.upper = t.step_forward();
    }

    /// Advance the logical compaction frontier to `t`, as the coordinator
    /// authorized. Reads below `t` are no longer served.
    pub fn set_logical_compaction(&mut self, t: SysTime)
        requires
            old(self).wf(),
            old(self).logical.internal <= t.internal,
            t.internal <= old(self).upper.internal,
        ensures
            final(self).wf(),
            final(self).logical == t,
            final(self).hist() == old(self).hist(),
            final(self).upper == old(self).upper,
            final(self).physical == old(self).physical,
            final(self).name == old(self).name,
    {
        self.logical = t;
    }

    /// Advance the physical compaction frontier to the trace's upper
    /// frontier; batches below it may now be coalesced.
    pub fn set_physical_compaction_to_upper(&mut self)
        requires
            old(self).wf(),
        ensures
            final(self).wf(),
            final(self).physical == old(self).upper,
            final(self).hist() == old(self).hist(),
            final(self).upper == old(self).upper,
            final(self).logical == old(self).logical,
            final(self).name == old(self).name,
    {
        self.physical = self.upper;
    }
}

/// Look up the latest recorded value for `key` in the running state list.
fn lookup_current(c: &Vec<(Row, Option<Row>)>, key: &Row) -> (r: Option<Row>)
    ensures
        r == current_value(c@, *key),
{
    let mut i: usize = c.len();
    proof {
        assert(c@.take(c@.len() as int) =~= c@);
    }
    while i > 0
        invariant
            0 <= i <= c@.len(),
            current_value(c@, *key) == current_value(c@.take(i as int), *key),
        decreases i,
    {
        i = i - 1;
        let (k, v) = c[i];
        proof {
            assert(c@.take(i + 1).last() == c@[i as int]);
            assert(c@.take(i + 1).drop_last() =~= c@.take(i as int));
        }
        if k.data == key.data {
            proof {
                assert(c@[i as int].0 == *key);
            }
            return v;
        }
    }
    None
}

/// Whether the trace has advanced strictly past `time`; a deferred query at
/// `time` may be answered only once this holds.
pub fn trace_beyond(tr: &Trace, time: &SysTime) -> (r: bool)
    ensures
        r == (time.internal < tr.upper.internal),
{
    tr.beyond(time)
}

/// Whether `(key, val)` accumulates to exactly one appearance over the
/// updates at or before `q`.
fn accum_is_one(entries: &Vec<TraceEntry>, key: &Row, val: &Row, q: &SysTime) -> (r: bool)
    requires
        forall|i: int| 0 <= i < entries@.len() ==> (#[trigger] entries@[i]).diff == 1
            || entries@[i].diff == -1,
    ensures
        r == (entry_accum(entries@, *key, *val, q.internal as int) == 1),
{
    let mut pos: usize = 0;
    let mut neg: usize = 0;
    let mut i: usize = 0;
    proof {
        assert(entries@.take(0) =~= Seq::<TraceEntry>::empty());
    }
    while i < entries.len()
        invariant
            0 <= i <= entries@.len(),
            pos <= i,
            neg <= i,
            pos - neg == entry_accum(entries@.take(i as int), *key, *val, q.internal as int),
            forall|j: int| 0 <= j < entries@.len() ==> (#[trigger] entries@[j]).diff == 1
                || entries@[j].diff == -1,
        decreases entries@.len() - i,
    {
        let e = entries[i];
        proof {
            assert(entries@.take(i + 1).last() == entries@[i as int]);
            assert(entries@.take(i + 1).drop_last() =~= entries@.take(i as int));
        }
        if e.key == *key && e.val == *val && e.time.internal <= q.internal {
            if e.diff == 1 {
                pos = pos + 1;
            } else {
                neg = neg + 1;
            }
        }
        i = i + 1;
    }
    proof {
        assert(entries@.take(entries@.len() as int) =~= entries@);
    }
    pos > neg && pos - neg == 1
}

/// Read `key` from the trace at `time`: the value the most recent upsert at
/// or before `time` supplied, or nothing if there is none or it was deleted.
/// `time` must lie at or past the logical compaction frontier and strictly
/// below the upper frontier.
pub fn read_key(trace: &Trace, key: &Row, time: &SysTime) -> (r: Vec<Row>)
    requires
        trace.wf(),
        trace.logical.internal <= time.internal,
        time.internal < trace.upper.internal,
    ensures
        r@ == reading(trace.hist(), *key, time.internal as int),
{
    let ghost q = time.internal as int;
    let mut ret: Vec<Row> = Vec::new();
    let mut i: usize = 0;
    while i < trace.entries.len()
        invariant
            0 <= i <= trace.entries@.len(),
            trace.wf(),
            q == time.internal as int,
            ret@.len() <= 1,
            ret@.len() == 1 ==> entry_accum(trace.entries@, *key, ret@[0], q) == 1,
            ret@.len() == 0 ==> forall|j: int|
                0 <= j < i ==> !((#[trigger] trace.entries@[j]).key == *key
                    && trace.entries@[j].diff == 1 && trace.entries@[j].time.internal <= q
                    && entry_accum(trace.entries@, *key, trace.entries@[j].val, q) == 1),
        decreases trace.entries@.len() - i,
    {
        let e = trace.entries[i];
        if ret.len() == 0 && e.key == *key && e.diff == 1 && e.time.internal <= time.internal {
            if accum_is_one(&trace.entries, key, &e.val, time) {
                ret.push(e.val);
            }
        }
        i = i + 1;
    }
    proof {
        if ret@.len() == 1 {
            assert(last_value_at(trace.hist(), *key, q) == Some(ret@[0]));
            assert(ret@ =~= reading(trace.hist(), *key, q));
        } else {
            if last_value_at(trace.hist(), *key, q) is Some {
                let v = last_value_at(trace.hist(), *key, q)->0;
                assert(entry_accum(trace.entries@, *key, v, q) == 1);
                lemma_accum_pos_exists(trace.entries@, *key, v, q);
                let j = choose|j: int|
                    0 <= j < trace.entries@.len() && (#[trigger] trace.entries@[j]).key == *key
                        && trace.entries@[j].val == v && trace.entries@[j].time.internal <= q
                        && trace.entries@[j].diff == 1;
                assert(false);
            }
            assert(ret@ =~= reading(trace.hist(), *key, q));
        }
    }
    ret
}

/// Whether the list already holds the given record.
fn contains_row(v: &Vec<Row>, x: &Row) -> (r: bool)
    ensures
        r == v@.contains(*x),
{
    let mut i: usize = 0;
    while i < v.len()
        invariant
            0 <= i <= v@.len(),
            forall|j: int| 0 <= j < i ==> v@[j] != *x,
        decreases v@.len() - i,
    {
        if v[i] == *x {
            return true;
        }
        i = i + 1;
    }
    false
}

/// Collect every key that is live in the trace at `time`, each once. `time`
/// must lie at or past the logical compaction frontier and strictly below
/// the upper frontier.
pub fn collect_key_trace(trace: &Trace, time: &SysTime) -> (r: Vec<Row>)
    requires
        trace.wf(),
        trace.logical.internal <= time.internal,
        time.internal < trace.upper.internal,
    ensures
        forall|k: Row| #[trigger] r@.contains(k) <==> last_value_at(
            trace.hist(),
            k,
            time.internal as int,
        ) is Some,
        forall|a: int, b: int| 0 <= a < b < r@.len() ==> r@[a] != r@[b],
{
    let ghost q = time.internal as int;
    let mut ret: Vec<Row> = Vec::new();
    let mut i: usize = 0;
    while i < trace.entries.len()
        invariant
            0 <= i <= trace.entries@.len(),
            trace.wf(),
            q == time.internal as int,
            forall|a: int| 0 <= a < ret@.len() ==> last_value_at(
                trace.hist(),
                #[trigger] ret@[a],
                q,
            ) is Some,
            forall|a: int, b: int| 0 <= a < b < ret@.len() ==> ret@[a] != ret@[b],
            forall|j: int|
                0 <= j < i ==> !((#[trigger] trace.entries@[j]).diff == 1
                    && trace.entries@[j].time.internal <= q && entry_accum(
                    trace.entries@,
                    trace.entries@[j].key,
                    trace.entries@[j].val,
                    q,
                ) == 1) || ret@.contains(trace.entries@[j].key),
        decreases trace.entries@.len() - i,
    {
        let e = trace.entries[i];
        if e.diff == 1 && e.time.internal <= time.internal {
            if accum_is_one(&trace.entries, &e.key, &e.val, time) {
                if !contains_row(&ret, &e.key) {
                    let ghost ret0 = ret@;
                    ret.push(e.key);
                    proof {
                        assert(ret@.last() == e.key);
                        assert forall|x: Row| ret0.contains(x) implies ret@.contains(x) by {
                            let w = choose|w: int| 0 <= w < ret0.len() && ret0[w] == x;
                            assert(ret@[w] == x);
                        }
                        assert(ret@.contains(e.key)) by {
                            assert(ret@[ret@.len() - 1] == e.key);
                        }
                    }
                }
            }
        }
        proof {
            if trace.entries@[i as int].diff == 1 && trace.entries@[i as int].time.internal <= q
                && entry_accum(
                trace.entries@,
                trace.entries@[i as int].key,
                trace.entries@[i as int].val,
                q,
            ) == 1 {
                assert(ret@.contains(trace.entries@[i as int].key));
            }
        }
        i = i + 1;
    }
    proof {
        assert forall|k: Row|
            last_value_at(trace.hist(), k, q) is Some implies #[trigger] ret@.contains(k) by {
            let v = last_value_at(trace.hist(), k, q)->0;
            assert(entry_accum(trace.entries@, k, v, q) == 1);
            lemma_accum_pos_exists(trace.entries@, k, v, q);
            let j = choose|j: int|
                0 <= j < trace.entries@.len() && (#[trigger] trace.entries@[j]).key == k
                    && trace.entries@[j].val == v && trace.entries@[j].time.internal <= q
                    && trace.entries@[j].diff == 1;
        }
        assert forall|k: Row| #[trigger]
            ret@.contains(k) implies last_value_at(trace.hist(), k, q) is Some by {
            let a = choose|a: int| 0 <= a < ret@.len() && ret@[a] == k;
        }
    }
    ret
}

} // verus!
