//! The record type the engine routes and stores. A record carries no
//! identity beyond its payload; the engine only compares, hashes and copies
//! it.

use vstd::prelude::*;

verus! {

/// One record payload. Derived collections are multimaps from a key `Row` to
/// a value `Row`, stamped with a time.
#[derive(Clone, Copy, PartialEq, Eq, Structural, PartialOrd, Ord, Hash, Debug)]
pub struct Row {
    pub data: i64,
}

impl Row {
    /// Wrap a payload as a record.
    pub fn new(data: i64) -> (r: Self)
        ensures
            r.data == data,
    {
        Row { data }
    }
}

/// Relies on `differential_dataflow::hashable::Hashable::hashed`, which for
/// any `Hash` type feeds the value to an FNV hasher with a fixed initial
/// state. The result goes through the platform's native byte order, so
/// nothing is promised of its value; callers route on whatever comes back.
#[verifier::external_body]
pub(crate) fn hash_row(row: &Row) -> u64 {
    differential_dataflow::hashable::Hashable::hashed(&row.data)
}

} // verus!
