//! The stack's pseudorandom numbers.

use vstd::prelude::*;

verus! {

/// A small pseudorandom number generator (PCG family). Not suited for
/// cryptography.
#[derive(Debug, Clone, Copy, PartialEq, Eq, Structural)]
pub struct Rand {
    pub state: u64,
}

/// The multiplier of the state recurrence.
pub const MULTIPLIER: u64 = 0xbb2e_fcec_3c39_611d;

/// The increment of the state recurrence.
pub const INCREMENT: u64 = 0x7590_ef39;

impl Rand {
    /// The generator after producing one number.
    pub open spec fn next(self) -> Rand {
        Rand { state: self.state.wrapping_mul(MULTIPLIER).wrapping_add(INCREMENT) }
    }

    /// The number the generator produces next.
    pub open spec fn value(self) -> u32 {
        let s = self.next().state;
        (s >> ((29 - (s >> 61)) as u64)) as u32
    }

    /// A generator that starts from `seed`.
    pub fn new(seed: u64) -> (r: Self)
        ensures
            r.state == seed,
    {
        Rand { state: seed }
    }

    /// Produce a number.
    pub fn rand_u32(&mut self) -> (r: u32)
        ensures
            r == old(self).value(),
            *final(self) == old(self).next(),
    {
        let s: u64 = self.state.wrapping_mul(MULTIPLIER).wrapping_add(INCREMENT);
        self.state = s;
        assert(s >> 61u64 <= 7) by (bit_vector);
        let shift: u64 = 29 - (s >> 61);
        #[verifier::truncate]
        ((s >> shift) as u32)
    }
}

} // verus!
