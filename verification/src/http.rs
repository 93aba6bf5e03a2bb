//! The piece of the static-file service that carries logic worth
//! verifying: the round-robin picker that spreads requests over a pool
//! of file workers. The service itself is I/O and lives outside the
//! library.

use vstd::prelude::*;

verus! {

/// Deals out `0, 1, …, max-1, 0, …` on successive calls.
#[derive(Debug)]
pub struct RoundRobin {
    counter: u64,
    max: u64,
}

impl RoundRobin {
    pub closed spec fn spec_counter(self) -> u64 {
        self.counter
    }

    pub closed spec fn spec_max(self) -> u64 {
        self.max
    }

    pub fn new(max: u64) -> (r: RoundRobin)
        requires
            max > 0,
        ensures
            r.spec_counter() == 0,
            r.spec_max() == max,
    {
        RoundRobin { counter: 0, max }
    }

    /// The next index, wrapping modulo `max`. The counter itself wraps
    /// at the end of its range, which makes one pick discontinuous
    /// after 2^64 calls.
    pub fn get_next(&mut self) -> (r: u64)
        requires
            old(self).spec_max() > 0,
        ensures
            r == old(self).spec_counter() % old(self).spec_max(),
            r < old(self).spec_max(),
            final(self).spec_max() == old(self).spec_max(),
            final(self).spec_counter() == (if old(self).spec_counter() == u64::MAX {
                0u64
            } else {
                (old(self).spec_counter() + 1) as u64
            }),
    {
        let r = self.counter % self.max;
        if self.counter == u64::MAX {
            self.counter = 0;
        } else {
            self.counter = self.counter + 1;
        }
        r
    }
}

} // verus!
