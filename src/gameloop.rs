//! A fixed-rate tick timer. Time is a nanosecond count supplied by the
//! caller; a span of time is a nanosecond count too.
use vstd::prelude::*;

verus! {

pub const NANOS_PER_SEC: u128 = 1_000_000_000;

/// A span of time, in nanoseconds.
#[derive(Clone, Copy, Debug, PartialEq, Eq, Structural)]
pub struct TimeDelta(pub u128);

/// What a timer holds: its rate, the span between ticks, when it was last
/// updated, the time accumulated towards the next ticks, and whether the
/// latest update was followed by a tick.
pub struct TimerView {
    pub target_ticks: u16,
    pub target_delta: u128,
    pub last_tick: u128,
    pub accumulated_delta: u128,
    pub has_ticked: bool,
}

pub struct Timer {
    target_ticks: u16,
    target_delta: u128,
    last_tick: u128,
    accumulated_delta: u128,
    has_ticked: bool,
}

impl View for Timer {
    type V = TimerView;

    closed spec fn view(&self) -> TimerView {
        TimerView {
            target_ticks: self.target_ticks,
            target_delta: self.target_delta,
            last_tick: self.last_tick,
            accumulated_delta: self.accumulated_delta,
            has_ticked: self.has_ticked,
        }
    }
}

/// The span between ticks at `ticks_per_second`: a second divided by the
/// rate, rounded down; at rate zero, the longest span a duration holds.
pub open spec fn tick_span(ticks_per_second: u16) -> u128 {
    if ticks_per_second == 0 {
        (u64::MAX as u128 * NANOS_PER_SEC) as u128
    } else {
        (NANOS_PER_SEC / ticks_per_second as u128) as u128
    }
}

impl Timer {
    /// A timer for `ticks_per_second`, started at `now`.
    pub fn new(ticks_per_second: u16, now: u128) -> (r: Timer)
        ensures
            r@ == (TimerView {
                target_ticks: ticks_per_second,
                target_delta: tick_span(ticks_per_second),
                last_tick: now,
                accumulated_delta: 0,
                has_ticked: false,
            }),
    {
        let target_delta: u128 = if ticks_per_second == 0 {
            u64::MAX as u128 * NANOS_PER_SEC
        } else {
            NANOS_PER_SEC / ticks_per_second as u128
        };
        Timer {
            target_ticks: ticks_per_second,
            target_delta,
            last_tick: now,
            accumulated_delta: 0,
            has_ticked: false,
        }
    }

    /// The span between ticks.
    pub fn delta(&self) -> (r: TimeDelta)
        ensures
            r.0 == self@.target_delta,
    {
        TimeDelta(self.target_delta)
    }

    /// Adds the time passed since the last update, at `now`, to the time
    /// accumulated. A `now` before the last update adds nothing.
    pub fn update(&mut self, now: u128)
        ensures
            final(self)@ == (TimerView {
                last_tick: now,
                accumulated_delta: if now >= old(self)@.last_tick {
                    if old(self)@.accumulated_delta + (now - old(self)@.last_tick) > u128::MAX {
                        u128::MAX
                    } else {
                        (old(self)@.accumulated_delta + (now - old(self)@.last_tick)) as u128
                    }
                } else {
                    old(self)@.accumulated_delta
                },
                has_ticked: false,
                ..old(self)@
            }),
    {
        let diff = now.saturating_sub(self.last_tick);
        self.last_tick = now;
        self.accumulated_delta = self.accumulated_delta.saturating_add(diff);
        self.has_ticked = false;
    }

    /// Takes one tick out of the accumulated time, where a whole one is
    /// there.
    pub fn tick(&mut self) -> (r: bool)
        ensures
            r == (old(self)@.accumulated_delta >= old(self)@.target_delta),
            r ==> final(self)@ == (TimerView {
                accumulated_delta: (old(self)@.accumulated_delta - old(self)@.target_delta) as u128,
                has_ticked: true,
                ..old(self)@
            }),
            !r ==> final(self)@ == old(self)@,
    {
        if self.accumulated_delta >= self.target_delta {
            self.accumulated_delta = self.accumulated_delta - self.target_delta;
            self.has_ticked = true;
            true
        } else {
            false
        }
    }

    /// Whether a tick was taken since the latest update.
    pub fn has_ticked(&self) -> (r: bool)
        ensures
            r == self@.has_ticked,
    {
        self.has_ticked
    }

    /// The rate the timer was made for.
    pub fn target_ticks(&self) -> (r: u16)
        ensures
            r == self@.target_ticks,
    {
        self.target_ticks
    }

    /// The time accumulated towards the next tick.
    pub fn accumulated(&self) -> (r: TimeDelta)
        ensures
            r.0 == self@.accumulated_delta,
    {
        TimeDelta(self.accumulated_delta)
    }
}

} // verus!
