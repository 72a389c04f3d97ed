//! The throttle: random inter-item delays drawn from a configured range.
//!
//! A throttle wraps a source of items.  After handing an item on, it
//! schedules a sleep of a random number of milliseconds inside the
//! configured inclusive-exclusive range before the following item; at most
//! one sleep is ever outstanding.  With the range set to zero the throttle
//! is a pass-through.  The sleeping itself happens in the driver; the
//! state machine here decides the delays.

use vstd::prelude::*;

use crate::rng::random_in_range;

verus! {

/// The throttle's configuration and sleep state.
pub struct Throttle {
    min_ms: u64,
    max_ms: u64,
    sleeping: bool,
}

impl Throttle {
    /// The inclusive lower bound of the delay range, in milliseconds.
    pub closed spec fn spec_min_ms(&self) -> u64 {
        self.min_ms
    }

    /// The exclusive upper bound of the delay range, in milliseconds.
    pub closed spec fn spec_max_ms(&self) -> u64 {
        self.max_ms
    }

    /// Whether a sleep is outstanding.  There is never more than one.
    pub closed spec fn spec_sleeping(&self) -> bool {
        self.sleeping
    }

    /// The range is sensible: a real interval, or zero on both ends for a
    /// pass-through.
    pub open spec fn well_formed(&self) -> bool {
        self.spec_min_ms() < self.spec_max_ms() || (self.spec_min_ms() == 0 && self.spec_max_ms()
            == 0)
    }

    /// With both bounds zero the throttle delays nothing.
    pub open spec fn is_pass_through(&self) -> bool {
        self.spec_min_ms() == 0 && self.spec_max_ms() == 0
    }

    /// A throttle for the given range, with no sleep outstanding.
    pub fn new(min_ms: u64, max_ms: u64) -> (r: Self)
        requires
            min_ms < max_ms || (min_ms == 0 && max_ms == 0),
        ensures
            r.spec_min_ms() == min_ms,
            r.spec_max_ms() == max_ms,
            !r.spec_sleeping(),
            r.well_formed(),
    {
        Throttle { min_ms, max_ms, sleeping: false }
    }

    /// Whether the driver must await an outstanding sleep before pulling
    /// the next item.
    pub fn is_sleeping(&self) -> (r: bool)
        ensures
            r == self.spec_sleeping(),
    {
        self.sleeping
    }

    /// Note that the outstanding sleep has elapsed.
    pub fn on_sleep_complete(&mut self)
        ensures
            final(self).spec_min_ms() == old(self).spec_min_ms(),
            final(self).spec_max_ms() == old(self).spec_max_ms(),
            !final(self).spec_sleeping(),
    {
        self.sleeping = false;
    }

    /// An item was pulled from upstream: pick the delay to sleep before
    /// the following item.  The delay always lies inside the configured
    /// inclusive-exclusive range; a pass-through throttle yields none.
    pub fn on_item(&mut self) -> (delay: Option<u64>)
        requires
            old(self).well_formed(),
        ensures
            final(self).spec_min_ms() == old(self).spec_min_ms(),
            final(self).spec_max_ms() == old(self).spec_max_ms(),
            final(self).well_formed(),
            match delay {
                Some(d) => {
                    &&& !old(self).is_pass_through()
                    &&& old(self).spec_min_ms() <= d < old(self).spec_max_ms()
                    &&& final(self).spec_sleeping()
                },
                None => old(self).is_pass_through() && final(self).spec_sleeping() == old(
                    self,
                ).spec_sleeping(),
            },
    {
        if self.max_ms == 0 {
            None
        } else {
            let d = random_in_range(self.min_ms, self.max_ms);
            self.sleeping = true;
            Some(d)
        }
    }
}

} // verus!
