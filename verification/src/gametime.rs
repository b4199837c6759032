//! The frame clock: remembers the clock reading of the last update and the
//! time that passed between the two most recent readings.

use vstd::prelude::*;

verus! {

/// A frame clock fed with readings of a monotonic clock.
///
/// The clock is handed in rather than read: every reading is a count of ticks
/// in whatever unit the caller's clock counts, and the delta is in that unit.
pub struct GameTime {
    last: u64,
    delta: u64,
    ticking: bool,
}

impl GameTime {
    /// The reading taken at construction or at the last update.
    pub closed spec fn last(&self) -> nat {
        self.last as nat
    }

    /// The stored delta, in ticks.
    pub closed spec fn delta(&self) -> nat {
        self.delta as nat
    }

    /// Whether the clock has been updated since it was made.
    pub closed spec fn ticking(&self) -> bool {
        self.ticking
    }

    /// The delta that an update at reading `now` stores after a reading
    /// `last`: the ticks between them, or zero if the clock went backward.
    pub open spec fn elapsed(last: nat, now: nat) -> nat {
        if now >= last {
            (now - last) as nat
        } else {
            0
        }
    }

    /// A clock made at reading `now`: not yet ticking, with a delta of zero.
    pub fn new(now: u64) -> (clock: GameTime)
        ensures
            clock.last() == now,
            clock.delta() == 0,
            !clock.ticking(),
    {
        GameTime { last: now, delta: 0, ticking: false }
    }

    /// Stores the ticks since the previous reading as the delta and
    /// remembers `now` as the last reading.
    pub fn update(&mut self, now: u64)
        ensures
            final(self).last() == now,
            final(self).delta() == Self::elapsed(old(self).last(), now as nat),
            final(self).ticking(),
    {
        self.delta = if now >= self.last {
            now - self.last
        } else {
            0
        };
        self.last = now;
        self.ticking = true;
    }

    /// The stored delta. Reads only.
    pub fn dt(&self) -> (ticks: u64)
        ensures
            ticks == self.delta(),
    {
        self.delta
    }

    /// Whether `update` has been called at least once.
    pub fn is_ticking(&self) -> (t: bool)
        ensures
            t == self.ticking(),
    {
        self.ticking
    }
}

} // verus!
