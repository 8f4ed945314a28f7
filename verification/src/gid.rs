//! Global identifiers for in-flight queries: a counter hands out one fresh
//! identifier per allocation.

use vstd::prelude::*;

verus! {

/// An identifier of one dispatched query.
#[derive(Clone, Copy, PartialEq, Eq, Structural, Hash, Debug)]
pub struct GID(pub u64);

/// A generator of fresh identifiers, counting up from zero.
pub struct GIDGen(pub u64);

impl GIDGen {
    /// A generator whose first identifier is zero.
    pub fn new() -> (r: GIDGen)
        ensures
            r.0 == 0,
    {
        GIDGen(0)
    }

    /// Hand out the next identifier. Each call returns a value no earlier
    /// call returned.
    pub fn next(&mut self) -> (r: GID)
        requires
            old(self).0 < u64::MAX,
        ensures
            r.0 == old(self).0,
            final(self).0 == old(self).0 + 1,
    {
        let ret = GID(self.0);
        self.0 = self.0 + 1;
        ret
    }
}

} // verus!
