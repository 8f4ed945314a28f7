//! Read transactions: the coordinator hands every dispatched query a token
//! carrying a fresh identifier and the query time, and records it until the
//! read completes.

use crate::timestamp::SysTime;
use vstd::prelude::*;

verus! {

/// Declares `uuid::Uuid` so it can stand in fields; the value is opaque,
/// described only through `uuid_bytes`.
#[verifier::external_type_specification]
#[verifier::external_body]
pub struct ExUuid(uuid::Uuid);

/// The sixteen bytes a `Uuid` holds, in order.
pub uninterp spec fn uuid_bytes(u: uuid::Uuid) -> Seq<u8>;

/// Relies on `Uuid::new_v4`, which draws a random identifier; nothing is
/// promised of its value.
#[verifier::external_body]
fn uuid_new_v4() -> uuid::Uuid {
    uuid::Uuid::new_v4()
}

/// Relies on the derived equality of `Uuid`: two identifiers are equal
/// exactly when they hold the same bytes.
#[verifier::external_body]
fn uuid_eq(a: &uuid::Uuid, b: &uuid::Uuid) -> (r: bool)
    ensures
        r == (uuid_bytes(*a) == uuid_bytes(*b)),
{
    a == b
}

/// Relies on `Uuid` being `Copy`: the copy holds the same bytes.
#[verifier::external_body]
fn uuid_copy(a: &uuid::Uuid) -> (r: uuid::Uuid)
    ensures
        uuid_bytes(r) == uuid_bytes(*a),
{
    *a
}

/// One read in flight: its identifier and the time it reads at.
pub struct ReadTxn {
    pub uuid: uuid::Uuid,
    pub time: SysTime,
}

impl ReadTxn {
    /// A copy of the transaction record.
    pub fn duplicate(&self) -> (r: ReadTxn)
        ensures
            uuid_bytes(r.uuid) == uuid_bytes(self.uuid),
            r.time == self.time,
    {
        ReadTxn { uuid: uuid_copy(&self.uuid), time: self.time }
    }
}

/// The token a dispatched query carries; dropping it reports the read as
/// complete.
pub struct ReadToken {
    pub txn: ReadTxn,
}

/// The registry of reads in flight, addressed by identifier.
pub struct TxnManager {
    /// The outstanding read transactions.
    pub read_txns: Vec<ReadTxn>,
}

impl TxnManager {
    /// Whether an outstanding read carries the given identifier bytes.
    pub open spec fn has_txn(&self, b: Seq<u8>) -> bool {
        exists|i: int|
            0 <= i < self.read_txns@.len() && uuid_bytes((#[trigger] self.read_txns@[i]).uuid) == b
    }

    /// Outstanding identifiers are pairwise distinct.
    pub open spec fn wf(&self) -> bool {
        forall|i: int, j: int|
            0 <= i < j < self.read_txns@.len() ==> uuid_bytes((#[trigger] self.read_txns@[i]).uuid)
                != uuid_bytes((#[trigger] self.read_txns@[j]).uuid)
    }

    /// An empty registry.
    pub fn new() -> (r: TxnManager)
        ensures
            r.wf(),
            r.read_txns@.len() == 0,
    {
        TxnManager { read_txns: Vec::new() }
    }

    /// Record a fresh read at the given time and hand out its token. The
    /// identifier is drawn at random; if it collides with an outstanding
    /// one, the older record is replaced.
    pub fn allocate_read_token(&mut self, time: SysTime) -> (r: ReadToken)
        requires
            old(self).wf(),
        ensures
            final(self).wf(),
            r.txn.time == time,
            exists|i: int|
                0 <= i < final(self).read_txns@.len() && uuid_bytes(
                    (#[trigger] final(self).read_txns@[i]).uuid,
                ) == uuid_bytes(r.txn.uuid) && final(self).read_txns@[i].time == time,
    {
        let u = uuid_new_v4();
        let token_uuid = uuid_copy(&u);
        let n = self.read_txns.len();
        let mut i: usize = 0;
        while i < n
            invariant
                n == self.read_txns@.len(),
                0 <= i <= n,
                self == old(self),
                old(self).wf(),
                uuid_bytes(token_uuid) == uuid_bytes(u),
                forall|j: int|
                    0 <= j < i ==> uuid_bytes((#[trigger] self.read_txns@[j]).uuid) != uuid_bytes(
                        u,
                    ),
            decreases n - i,
        {
            if uuid_eq(&self.read_txns[i].uuid, &u) {
                let ghost idx = i as int;
                let slot = &mut self.read_txns[i];
                *slot = ReadTxn { uuid: u, time };
                proof {
                    assert(uuid_bytes(self.read_txns@[idx].uuid) == uuid_bytes(
                        old(self).read_txns@[idx].uuid,
                    ));
                    assert(uuid_bytes(self.read_txns@[idx].uuid) == uuid_bytes(token_uuid));
                    assert forall|a: int, b: int|
                        0 <= a < b < self.read_txns@.len() implies uuid_bytes(
                        (#[trigger] self.read_txns@[a]).uuid,
                    ) != uuid_bytes((#[trigger] self.read_txns@[b]).uuid) by {
                        assert(uuid_bytes(old(self).read_txns@[a].uuid) != uuid_bytes(
                            old(self).read_txns@[b].uuid,
                        ));
                    }
                }
                return ReadToken { txn: ReadTxn { uuid: token_uuid, time } };
            }
            i = i + 1;
        }
        self.read_txns.push(ReadTxn { uuid: u, time });
        proof {
            let last = self.read_txns@.len() - 1;
            assert(self.read_txns@.drop_last() =~= old(self).read_txns@);
            assert(uuid_bytes(self.read_txns@[last].uuid) == uuid_bytes(u));
            assert forall|a: int, b: int|
                0 <= a < b < self.read_txns@.len() implies uuid_bytes(
                (#[trigger] self.read_txns@[a]).uuid,
            ) != uuid_bytes((#[trigger] self.read_txns@[b]).uuid) by {
                if b < last {
                    assert(uuid_bytes(old(self).read_txns@[a].uuid) != uuid_bytes(
                        old(self).read_txns@[b].uuid,
                    ));
                } else {
                    assert(self.read_txns@[a] == old(self).read_txns@[a]);
                }
            }
        }
        ReadToken { txn: ReadTxn { uuid: token_uuid, time } }
    }

    /// Mark the given read as complete and forget it. The read must be
    /// outstanding, recorded at the same time; anything else is a
    /// coordinator bug.
    pub fn read_complete(&mut self, txn: ReadTxn)
        requires
            old(self).wf(),
            exists|i: int|
                0 <= i < old(self).read_txns@.len() && uuid_bytes(
                    (#[trigger] old(self).read_txns@[i]).uuid,
                ) == uuid_bytes(txn.uuid) && old(self).read_txns@[i].time == txn.time,
        ensures
            final(self).wf(),
            final(self).read_txns@.len() == old(self).read_txns@.len() - 1,
            !final(self).has_txn(uuid_bytes(txn.uuid)),
    {
        let n = self.read_txns.len();
        let mut i: usize = 0;
        while i < n
            invariant
                n == self.read_txns@.len(),
                0 <= i <= n,
                self == old(self),
                old(self).wf(),
                exists|k: int|
                    0 <= k < old(self).read_txns@.len() && uuid_bytes(
                        (#[trigger] old(self).read_txns@[k]).uuid,
                    ) == uuid_bytes(txn.uuid) && old(self).read_txns@[k].time == txn.time,
                forall|j: int|
                    0 <= j < i ==> uuid_bytes((#[trigger] self.read_txns@[j]).uuid) != uuid_bytes(
                        txn.uuid,
                    ),
            decreases n - i,
        {
            if uuid_eq(&self.read_txns[i].uuid, &txn.uuid) {
                let ghost idx = i as int;
                let removed = self.read_txns.remove(i);
                proof {
                    assert(removed.time == txn.time);
                    assert forall|a: int, b: int|
                        0 <= a < b < self.read_txns@.len() implies uuid_bytes(
                        (#[trigger] self.read_txns@[a]).uuid,
                    ) != uuid_bytes((#[trigger] self.read_txns@[b]).uuid) by {
                        let a0 = if a < idx {
                            a
                        } else {
                            a + 1
                        };
                        let b0 = if b < idx {
                            b
                        } else {
                            b + 1
                        };
                        assert(self.read_txns@[a] == old(self).read_txns@[a0]);
                        assert(self.read_txns@[b] == old(self).read_txns@[b0]);
                        assert(uuid_bytes(old(self).read_txns@[a0].uuid) != uuid_bytes(
                            old(self).read_txns@[b0].uuid,
                        ));
                    }
                    assert forall|a: int|
                        0 <= a < self.read_txns@.len() implies uuid_bytes(
                        (#[trigger] self.read_txns@[a]).uuid,
                    ) != uuid_bytes(txn.uuid) by {
                        let a0 = if a < idx {
                            a
                        } else {
                            a + 1
                        };
                        assert(self.read_txns@[a] == old(self).read_txns@[a0]);
                        if a0 != idx {
                            assert(uuid_bytes(old(self).read_txns@[a0].uuid) != uuid_bytes(
                                old(self).read_txns@[idx].uuid,
                            ));
                        }
                    }
                }
                return ;
            }
            i = i + 1;
        }
        proof {
            let k = choose|k: int|
                0 <= k < old(self).read_txns@.len() && uuid_bytes(
                    (#[trigger] old(self).read_txns@[k]).uuid,
                ) == uuid_bytes(txn.uuid) && old(self).read_txns@[k].time == txn.time;
            assert(false);
        }
    }
}

} // verus!
