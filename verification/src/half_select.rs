//! The state machine of the two-way alternating stream merge.
//!
//! The merge polls its two input streams in strict alternation, and ends
//! as soon as the main stream ends, or once both have ended.  The polling
//! itself happens in the driver; the two little state machines here decide
//! which side to poll next and when the merge is finished.

use vstd::prelude::*;

verus! {

/// Which input stream to poll next.
#[derive(Clone, Copy, Debug, PartialEq, Eq, Structural)]
pub enum PollNext {
    /// Poll the first stream.
    Main,
    /// Poll the second stream.
    Secondary,
}

impl PollNext {
    /// The opposite side.
    pub open spec fn spec_other(self) -> PollNext {
        match self {
            PollNext::Main => PollNext::Secondary,
            PollNext::Secondary => PollNext::Main,
        }
    }

    /// Toggle the value and return the old one.
    pub fn toggle(&mut self) -> (r: Self)
        ensures
            r == *old(self),
            *final(self) == old(self).spec_other(),
    {
        let old_value = *self;
        *self = self.other();
        old_value
    }

    /// The opposite side.
    pub fn other(&self) -> (r: PollNext)
        ensures
            r == self.spec_other(),
    {
        match self {
            PollNext::Main => PollNext::Secondary,
            PollNext::Secondary => PollNext::Main,
        }
    }
}

impl Default for PollNext {
    /// The merge starts by polling the main stream.
    fn default() -> (r: Self)
        ensures
            r == PollNext::Main,
    {
        PollNext::Main
    }
}

/// How far the merge has run down.
#[derive(Clone, Copy, Debug, PartialEq, Eq, Structural)]
pub enum InternalState {
    /// Both streams are still live.
    Start,
    /// The secondary stream has ended; only the main stream is polled.
    SecondaryFinished,
    /// The main stream has ended; the merge is over.
    MainFinished,
}

impl InternalState {
    /// Note that one side's stream has ended.  The main side ending ends
    /// the merge.
    pub fn finish(&mut self, side: PollNext)
        ensures
            *final(self) == match side {
                PollNext::Main => InternalState::MainFinished,
                PollNext::Secondary => InternalState::SecondaryFinished,
            },
    {
        match side {
            PollNext::Main => *self = InternalState::MainFinished,
            PollNext::Secondary => *self = InternalState::SecondaryFinished,
        }
    }
}

impl Default for InternalState {
    /// The merge starts with both streams live.
    fn default() -> (r: Self)
        ensures
            r == InternalState::Start,
    {
        InternalState::Start
    }
}

} // verus!
