//! Countdown timers scaled at 60 ticks per second.
//!
//! A timer records the wall-clock instant (in milliseconds) at which it was
//! set together with the target duration; its current value is derived on
//! demand from the elapsed time rather than ticked by a background thread.
//! The caller supplies the current wall-clock reading, so the arithmetic
//! here is fully deterministic.

use vstd::prelude::*;

verus! {

/// The state of a countdown timer: a target duration and the instant
/// (milliseconds of wall-clock time) at which it was set.
pub ghost struct TimerV {
    pub duration_millis: u64,
    pub initial_millis: u64,
}

impl TimerV {
    /// The stored duration is small enough that converting the remaining
    /// milliseconds back to ticks cannot overflow.
    pub open spec fn wf(self) -> bool {
        self.duration_millis <= u64::MAX as int / 60
    }
}

/// The number of whole ticks a timer with state `t` reports when queried at
/// wall-clock time `now_millis`: the 60 Hz-scaled remaining duration,
/// floored at zero once the target duration has elapsed.
pub open spec fn remaining_ticks(t: TimerV, now_millis: u64) -> int {
    let elapsed = if now_millis >= t.initial_millis {
        now_millis - t.initial_millis
    } else {
        0
    };
    if elapsed >= t.duration_millis {
        0
    } else {
        (t.duration_millis - elapsed) * 60 / 1000
    }
}

/// Converts a tick count at 60 Hz into the equivalent wall-clock duration in
/// whole milliseconds (`hz / 60` seconds).
pub fn hz_to_millis(hz: u64) -> (r: u64)
    requires
        hz <= u64::MAX as int / 1000,
    ensures
        r == hz * 1000 / 60,
{
    hz * 1000 / 60
}

/// Converts a wall-clock duration in milliseconds into whole ticks at 60 Hz.
pub fn millis_to_hz(millis: u64) -> (r: u64)
    requires
        millis <= u64::MAX as int / 60,
    ensures
        r == millis * 60 / 1000,
{
    millis * 60 / 1000
}

/// A 60 Hz countdown timer whose value is computed lazily from wall-clock
/// elapsed time.
pub struct Timer {
    duration_millis: u64,
    initial_millis: u64,
}

impl View for Timer {
    type V = TimerV;

    closed spec fn view(&self) -> TimerV {
        TimerV { duration_millis: self.duration_millis, initial_millis: self.initial_millis }
    }
}

impl Timer {
    /// A fresh timer that has already expired.
    pub fn new() -> (r: Timer)
        ensures
            r@ == (TimerV { duration_millis: 0, initial_millis: 0 }),
            r@.wf(),
    {
        Timer { duration_millis: 0, initial_millis: 0 }
    }

    /// Starts a countdown of `time` ticks (at 60 Hz) from the wall-clock
    /// instant `now_millis`.
    pub fn set(&mut self, time: u64, now_millis: u64)
        requires
            time <= u64::MAX as int / 1000,
        ensures
            final(self)@ == (TimerV {
                duration_millis: (time * 1000 / 60) as u64,
                initial_millis: now_millis,
            }),
            final(self)@.wf(),
    {
        self.duration_millis = hz_to_millis(time);
        self.initial_millis = now_millis;
    }

    /// The remaining tick count at wall-clock time `now_millis`: a pure
    /// query with no side effect.
    pub fn get(&self, now_millis: u64) -> (r: u64)
        requires
            self@.wf(),
        ensures
            r == remaining_ticks(self@, now_millis),
    {
        let elapsed: u64 = if now_millis >= self.initial_millis {
            now_millis - self.initial_millis
        } else {
            0
        };
        if elapsed >= self.duration_millis {
            0
        } else {
            millis_to_hz(self.duration_millis - elapsed)
        }
    }
}

/// Repeated queries of one timer without an intervening `set` are
/// monotonically non-increasing as wall-clock time advances.
pub proof fn lemma_timer_monotone(t: TimerV, n1: u64, n2: u64)
    requires
        n1 <= n2,
    ensures
        remaining_ticks(t, n2) <= remaining_ticks(t, n1),
{
    let e1 = if n1 >= t.initial_millis { n1 - t.initial_millis } else { 0 };
    let e2 = if n2 >= t.initial_millis { n2 - t.initial_millis } else { 0 };
    assert(e1 <= e2);
    if e2 < t.duration_millis {
        vstd::arithmetic::div_mod::lemma_div_is_ordered(
            (t.duration_millis - e2) * 60,
            (t.duration_millis - e1) * 60,
            1000,
        );
    }
}

/// The delay timer: the countdown the interpreter reads back into a
/// register on demand.
pub struct DelayTimer {
    timer: Timer,
}

impl View for DelayTimer {
    type V = TimerV;

    closed spec fn view(&self) -> TimerV {
        self.timer@
    }
}

impl DelayTimer {
    /// A fresh, already-expired delay timer.
    pub fn new() -> (r: DelayTimer)
        ensures
            r@ == (TimerV { duration_millis: 0, initial_millis: 0 }),
            r@.wf(),
    {
        DelayTimer { timer: Timer::new() }
    }

    /// Starts a countdown of `time` ticks from the instant `now_millis`.
    pub fn set(&mut self, time: u64, now_millis: u64)
        requires
            time <= u64::MAX as int / 1000,
        ensures
            final(self)@ == (TimerV {
                duration_millis: (time * 1000 / 60) as u64,
                initial_millis: now_millis,
            }),
            final(self)@.wf(),
    {
        self.timer.set(time, now_millis);
    }

    /// The remaining tick count at wall-clock time `now_millis`.
    pub fn get(&self, now_millis: u64) -> (r: u64)
        requires
            self@.wf(),
        ensures
            r == remaining_ticks(self@, now_millis),
    {
        self.timer.get(now_millis)
    }
}

} // verus!
