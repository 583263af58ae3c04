//! Instants, durations, and the clock of one poll.

use vstd::prelude::*;

verus! {

/// A point in time, in microseconds from some epoch.
#[derive(Clone, Copy, PartialEq, Eq, Structural, Debug)]
pub struct Instant {
    pub micros: i64,
}

/// A span of time, in microseconds.
#[derive(Clone, Copy, PartialEq, Eq, Structural, Debug)]
pub struct Duration {
    pub micros: u64,
}

impl Duration {
    /// The empty span.
    pub fn zero() -> (d: Duration)
        ensures
            d.micros == 0,
    {
        Duration { micros: 0 }
    }

    /// A span of `secs` seconds.
    pub fn from_secs(secs: u64) -> (d: Duration)
        requires
            secs * 1_000_000 <= u64::MAX,
        ensures
            d == Self::of_secs(secs as int),
    {
        Duration { micros: secs * 1_000_000 }
    }

    /// The whole seconds in the span.
    pub fn secs(&self) -> (secs: u64)
        ensures
            secs == self.micros / 1_000_000,
    {
        self.micros / 1_000_000
    }

    /// The span of `secs` seconds, for a number of seconds that fits.
    pub open spec fn of_secs(secs: int) -> Duration {
        Duration { micros: (secs * 1_000_000) as u64 }
    }
}

impl Instant {
    /// The epoch.
    pub fn zero() -> (t: Instant)
        ensures
            t.micros == 0,
    {
        Instant { micros: 0 }
    }

    /// The far end of time, which stands for "never".
    pub fn max_value() -> (t: Instant)
        ensures
            t == Self::never(),
    {
        Instant { micros: i64::MAX }
    }

    /// The instant `micros` microseconds after the epoch.
    pub fn from_micros(micros: i64) -> (t: Instant)
        ensures
            t.micros == micros,
    {
        Instant { micros }
    }

    /// The instant `millis` milliseconds after the epoch.
    pub fn from_millis(millis: i64) -> (t: Instant)
        requires
            i64::MIN <= millis * 1_000 <= i64::MAX,
        ensures
            t.micros == millis * 1_000,
    {
        Instant { micros: millis * 1_000 }
    }

    /// The instant `secs` seconds after the epoch.
    pub fn from_secs(secs: i64) -> (t: Instant)
        requires
            i64::MIN <= secs * 1_000_000 <= i64::MAX,
        ensures
            t.micros == secs * 1_000_000,
    {
        Instant { micros: secs * 1_000_000 }
    }

    /// The microseconds since the epoch.
    pub fn total_micros(&self) -> (micros: i64)
        ensures
            micros == self.micros,
    {
        self.micros
    }

    /// Whether `d` after this instant is still a representable instant.
    pub open spec fn can_add(self, d: Duration) -> bool {
        self.micros + d.micros <= i64::MAX
    }

    /// The instant `d` after this one.
    pub open spec fn plus(self, d: Duration) -> Instant {
        Instant { micros: (self.micros + d.micros) as i64 }
    }

    /// The instant that is never reached.
    pub open spec fn never() -> Instant {
        Instant { micros: i64::MAX }
    }

    /// The earlier of two instants.
    pub open spec fn earlier_of(self, other: Instant) -> Instant {
        if other.micros < self.micros {
            other
        } else {
            self
        }
    }

    /// The instant `d` after this one.
    pub fn after(self, d: Duration) -> (t: Instant)
        requires
            self.can_add(d),
        ensures
            t == self.plus(d),
            t.micros == self.micros + d.micros,
    {
        Instant { micros: (self.micros as i128 + d.micros as i128) as i64 }
    }

    /// The time that passed since `earlier`.
    pub fn since(self, earlier: Instant) -> (d: Duration)
        requires
            earlier.micros <= self.micros,
        ensures
            d.micros == self.micros - earlier.micros,
    {
        Duration { micros: (self.micros as i128 - earlier.micros as i128) as u64 }
    }
}

/// The clock of one poll: the time it runs at, and the earliest deadline that
/// was looked at and has not passed yet.
#[derive(Clone, Copy, PartialEq, Eq, Structural, Debug)]
pub struct Clock {
    pub now: Instant,
    pub next: Instant,
}

impl Clock {
    /// A clock at `now`, with nothing to wait for.
    pub fn new(now: Instant) -> (clock: Clock)
        ensures
            clock.now == now,
            clock.next == Instant::never(),
    {
        Clock { now, next: Instant::max_value() }
    }

    /// The time of the poll.
    pub fn now(&self) -> (t: Instant)
        ensures
            t == self.now,
    {
        self.now
    }

    /// The earliest deadline ahead.
    pub fn next(&self) -> (t: Instant)
        ensures
            t == self.next,
    {
        self.next
    }

    /// The clock once the deadline `at` counts.
    pub open spec fn with_deadline(self, at: Instant) -> Clock {
        Clock { now: self.now, next: self.next.earlier_of(at) }
    }

    /// Whether the deadline `at` has passed.
    pub open spec fn has_passed(self, at: Instant) -> bool {
        at.micros <= self.now.micros
    }

    /// The clock once it was asked about the deadline `at`.
    pub open spec fn asked(self, at: Instant) -> Clock {
        if self.has_passed(at) {
            self
        } else {
            self.with_deadline(at)
        }
    }

    /// Wait for `at` at the latest.
    pub fn schedule(&mut self, at: Instant)
        ensures
            *final(self) == old(self).with_deadline(at),
    {
        if at.micros < self.next.micros {
            self.next = at;
        }
    }

    /// Whether the deadline `at` has passed. If it has not, it counts toward the
    /// deadline of the poll.
    pub fn expired(&mut self, at: Instant) -> (expired: bool)
        ensures
            expired == old(self).has_passed(at),
            *final(self) == old(self).asked(at),
    {
        if at.micros <= self.now.micros {
            true
        } else {
            self.schedule(at);
            false
        }
    }
}

/// A poll never waits past a deadline it was asked about that has not passed, and
/// never past one it waited for before.
pub proof fn asked_deadline_is_kept(clock: Clock, at: Instant)
    ensures
        !clock.has_passed(at) ==> clock.asked(at).next.micros <= at.micros,
        clock.asked(at).next.micros <= clock.next.micros,
        clock.asked(at).next == clock.next || clock.asked(at).next == at,
{
}

/// Seconds are a million microseconds, and an instant is as much later as the span is long. A
/// deadline has passed once its instant has come.
pub proof fn spans_are_in_microseconds(t: Instant, d: Duration, secs: u32, clock: Clock)
    ensures
        Duration::of_secs(secs as int).micros == secs * 1_000_000,
        t.can_add(d) <==> t.micros + d.micros <= 0x7fff_ffff_ffff_ffff,
        t.can_add(d) ==> t.plus(d).micros - t.micros == d.micros,
        Instant::never().micros == 0x7fff_ffff_ffff_ffff,
        clock.has_passed(t) <==> !(clock.now.micros < t.micros),
{
}

/// The earlier of two instants is one of them, and no later than either. A clock waits for the
/// earliest deadline, and stays at its time.
pub proof fn clock_waits_for_the_earliest(clock: Clock, a: Instant, b: Instant)
    ensures
        a.earlier_of(b) == a || a.earlier_of(b) == b,
        a.earlier_of(b).micros <= a.micros,
        a.earlier_of(b).micros <= b.micros,
        clock.with_deadline(a).now == clock.now,
        clock.with_deadline(a).next == clock.next.earlier_of(a),
        clock.with_deadline(a).with_deadline(b) == clock.with_deadline(b).with_deadline(a),
        clock.now.micros < a.micros ==> clock.asked(a) == clock.with_deadline(a),
        clock.now.micros >= a.micros ==> clock.asked(a) == clock,
{
}

} // verus!
