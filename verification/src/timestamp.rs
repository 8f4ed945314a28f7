//! The logical clock: a totally ordered timestamp over a non-negative 64-bit
//! counter, with a least element, successor and predecessor, lattice join and
//! meet, and a stable little-endian byte encoding.

use vstd::prelude::*;

verus! {

/// A logical time. The engine stamps every update with one and advances a
/// frontier of them; ordering is the order of the wrapped counter.
#[derive(Clone, Copy, PartialEq, Eq, Structural, Hash, Debug)]
pub struct SysTime {
    pub internal: u64,
}

/// The value a little-endian byte octet denotes.
pub open spec fn le_bytes_value(b: Seq<u8>) -> int {
    b[0] + 256 * (b[1] + 256 * (b[2] + 256 * (b[3] + 256 * (b[4] + 256 * (b[5] + 256 * (b[6]
        + 256 * b[7]))))))
}

impl SysTime {
    /// Wrap a counter value as a logical time.
    pub fn new(timestamp: u64) -> (r: Self)
        ensures
            r.internal == timestamp,
    {
        SysTime { internal: timestamp }
    }

    /// The least logical time.
    pub fn minimum() -> (r: Self)
        ensures
            r.internal == 0,
    {
        SysTime { internal: 0 }
    }

    /// The greatest logical time.
    pub fn maximum() -> (r: Self)
        ensures
            r.internal == u64::MAX,
    {
        SysTime { internal: u64::MAX }
    }

    /// `self <= other` in the total order of times.
    pub fn less_equal(&self, other: &Self) -> (r: bool)
        ensures
            r == (self.internal <= other.internal),
    {
        self.internal <= other.internal
    }

    /// `self < other` in the total order of times.
    pub fn less_than(&self, other: &Self) -> (r: bool)
        ensures
            r == (self.internal < other.internal),
    {
        self.internal < other.internal
    }

    /// Lattice join: the maximum of the two times.
    pub fn join(&self, other: &Self) -> (r: Self)
        ensures
            r.internal == if self.internal >= other.internal {
                self.internal
            } else {
                other.internal
            },
    {
        if self.internal >= other.internal {
            *self
        } else {
            *other
        }
    }

    /// Lattice meet: the minimum of the two times.
    pub fn meet(&self, other: &Self) -> (r: Self)
        ensures
            r.internal == if self.internal <= other.internal {
                self.internal
            } else {
                other.internal
            },
    {
        if self.internal <= other.internal {
            *self
        } else {
            *other
        }
    }

    /// The stable fixed-width little-endian encoding of the time.
    pub fn to_bytes(&self) -> (r: [u8; 8])
        ensures
            le_bytes_value(r@) == self.internal,
            r@.len() == 8,
    {
        let x0: u64 = self.internal;
        let b0: u8 = (x0 % 256) as u8;
        let x1: u64 = x0 / 256;
        let b1: u8 = (x1 % 256) as u8;
        let x2: u64 = x1 / 256;
        let b2: u8 = (x2 % 256) as u8;
        let x3: u64 = x2 / 256;
        let b3: u8 = (x3 % 256) as u8;
        let x4: u64 = x3 / 256;
        let b4: u8 = (x4 % 256) as u8;
        let x5: u64 = x4 / 256;
        let b5: u8 = (x5 % 256) as u8;
        let x6: u64 = x5 / 256;
        let b6: u8 = (x6 % 256) as u8;
        let x7: u64 = x6 / 256;
        let b7: u8 = (x7 % 256) as u8;
        let r: [u8; 8] = [b0, b1, b2, b3, b4, b5, b6, b7];
        proof {
            assert(x7 == b7) by {
                assert(x7 < 256);
            }
            assert(le_bytes_value(r@) == self.internal);
        }
        r
    }

    /// Decode a time from its little-endian encoding; inverse of `to_bytes`.
    pub fn from_bytes(bytes: [u8; 8]) -> (r: Self)
        ensures
            r.internal == le_bytes_value(bytes@),
    {
        let b0: u64 = bytes[0] as u64;
        let b1: u64 = bytes[1] as u64;
        let b2: u64 = bytes[2] as u64;
        let b3: u64 = bytes[3] as u64;
        let b4: u64 = bytes[4] as u64;
        let b5: u64 = bytes[5] as u64;
        let b6: u64 = bytes[6] as u64;
        let b7: u64 = bytes[7] as u64;
        let v: u64 = b0 + 256 * (b1 + 256 * (b2 + 256 * (b3 + 256 * (b4 + 256 * (b5 + 256 * (b6
            + 256 * b7))))));
        SysTime { internal: v }
    }

    /// Subtraction clamped at the least time.
    pub fn saturating_sub(self, rhs: Self) -> (r: Self)
        ensures
            r.internal == if self.internal >= rhs.internal {
                self.internal - rhs.internal
            } else {
                0
            },
    {
        SysTime { internal: self.internal.saturating_sub(rhs.internal) }
    }

    /// Addition clamped at the greatest time.
    pub fn saturating_add(self, rhs: Self) -> (r: Self)
        ensures
            r.internal == if self.internal + rhs.internal <= u64::MAX {
                self.internal + rhs.internal
            } else {
                u64::MAX as int
            },
    {
        SysTime { internal: self.internal.saturating_add(rhs.internal) }
    }

    /// Multiplication clamped at the greatest time.
    pub fn saturating_mul(self, rhs: Self) -> (r: Self)
        ensures
            r.internal == if self.internal * rhs.internal <= u64::MAX {
                self.internal * rhs.internal
            } else {
                u64::MAX as int
            },
    {
        match self.internal.checked_mul(rhs.internal) {
            Some(v) => SysTime { internal: v },
            None => SysTime { internal: u64::MAX },
        }
    }

    /// Addition that reports overflow instead of clamping.
    pub fn checked_add(self, rhs: Self) -> (r: Option<Self>)
        ensures
            self.internal + rhs.internal <= u64::MAX ==> r == Some(
                SysTime { internal: (self.internal + rhs.internal) as u64 },
            ),
            self.internal + rhs.internal > u64::MAX ==> r is None,
    {
        match self.internal.checked_add(rhs.internal) {
            Some(v) => Some(SysTime { internal: v }),
            None => None,
        }
    }

    /// Subtraction that reports underflow instead of clamping.
    pub fn checked_sub(self, rhs: Self) -> (r: Option<Self>)
        ensures
            self.internal >= rhs.internal ==> r == Some(
                SysTime { internal: (self.internal - rhs.internal) as u64 },
            ),
            self.internal < rhs.internal ==> r is None,
    {
        match self.internal.checked_sub(rhs.internal) {
            Some(v) => Some(SysTime { internal: v }),
            None => None,
        }
    }

    /// Advance by the least amount possible, so that
    /// `self.less_than(self.step_forward())` holds. The greatest time cannot
    /// be stepped forward.
    pub fn step_forward(&self) -> (r: Self)
        requires
            self.internal < u64::MAX,
        ensures
            r.internal == self.internal + 1,
    {
        SysTime { internal: self.internal + 1 }
    }

    /// Advance by the given amount; the sum must not overflow.
    pub fn step_forward_by(&self, amount: &Self) -> (r: Self)
        requires
            self.internal + amount.internal <= u64::MAX,
        ensures
            r.internal == self.internal + amount.internal,
    {
        SysTime { internal: self.internal + amount.internal }
    }

    /// Advance by the least amount possible, or report that the greatest time
    /// was reached.
    pub fn try_step_forward(&self) -> (r: Option<Self>)
        ensures
            self.internal < u64::MAX ==> r == Some(SysTime { internal: (self.internal + 1) as u64 }),
            self.internal == u64::MAX ==> r is None,
    {
        self.checked_add(SysTime { internal: 1 })
    }

    /// Advance by the given amount, or report overflow.
    pub fn try_step_forward_by(&self, amount: &Self) -> (r: Option<Self>)
        ensures
            self.internal + amount.internal <= u64::MAX ==> r == Some(
                SysTime { internal: (self.internal + amount.internal) as u64 },
            ),
            self.internal + amount.internal > u64::MAX ==> r is None,
    {
        self.checked_add(*amount)
    }

    /// Retreat by the least amount possible, or report that this is the least
    /// time, which has no predecessor.
    pub fn step_back(&self) -> (r: Option<Self>)
        ensures
            self.internal > 0 ==> r == Some(SysTime { internal: (self.internal - 1) as u64 }),
            self.internal == 0 ==> r is None,
    {
        self.checked_sub(SysTime { internal: 1 })
    }
}

} // verus!
