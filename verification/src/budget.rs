//! The in-flight budget: the sole cross-task rate limiter of a scan.
//!
//! Every outbound network I/O holds one permit for the duration of that
//! I/O and gives it back on completion.  The driver enforces this with a
//! semaphore; this is the verified model of its discipline, whose
//! invariant says the permits in use never exceed the configured maximum —
//! so the observed peak of concurrent outbound I/O is bounded by it.

use vstd::prelude::*;

verus! {

/// The permit accounting of one scan.
pub struct InFlightBudget {
    max: u32,
    in_use: u32,
}

impl InFlightBudget {
    /// The configured maximum number of concurrent permits.
    pub closed spec fn spec_max(&self) -> u32 {
        self.max
    }

    /// How many permits are held right now.
    pub closed spec fn spec_in_use(&self) -> u32 {
        self.in_use
    }

    /// The budget's invariant: the permits in use never exceed the
    /// configured maximum.
    pub open spec fn well_formed(&self) -> bool {
        self.spec_in_use() <= self.spec_max()
    }

    /// A fresh budget with no permit held.
    pub fn new(max_in_flight: u32) -> (r: Self)
        ensures
            r.spec_max() == max_in_flight,
            r.spec_in_use() == 0,
            r.well_formed(),
    {
        InFlightBudget { max: max_in_flight, in_use: 0 }
    }

    /// Take one permit if any is free.  A permit is granted exactly when
    /// the budget is not exhausted, and the count of held permits can
    /// never pass the maximum.
    pub fn try_acquire(&mut self) -> (granted: bool)
        requires
            old(self).well_formed(),
        ensures
            final(self).spec_max() == old(self).spec_max(),
            final(self).well_formed(),
            granted == (old(self).spec_in_use() < old(self).spec_max()),
            granted ==> final(self).spec_in_use() == old(self).spec_in_use() + 1,
            !granted ==> final(self).spec_in_use() == old(self).spec_in_use(),
    {
        if self.in_use < self.max {
            self.in_use = self.in_use + 1;
            true
        } else {
            false
        }
    }

    /// Give a permit back.  Only a held permit can be given back.
    pub fn release(&mut self)
        requires
            old(self).well_formed(),
            old(self).spec_in_use() > 0,
        ensures
            final(self).spec_max() == old(self).spec_max(),
            final(self).spec_in_use() == old(self).spec_in_use() - 1,
            final(self).well_formed(),
    {
        self.in_use = self.in_use - 1;
    }

    /// How many permits are held right now.
    pub fn in_use(&self) -> (r: u32)
        ensures
            r == self.spec_in_use(),
    {
        self.in_use
    }
}

} // verus!
