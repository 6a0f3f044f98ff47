//! Search clock: when the search started, how long it may run, and whether it must stop.

use vstd::prelude::*;
use crate::param::{MAX_DEPTH, MAX_NODES, MAX_TIME};

verus! {

/// Milliseconds since the Unix epoch, as `std::time::SystemTime` reports them
/// (`SystemTime::now().duration_since(UNIX_EPOCH)`, then `Duration::as_millis`); 0 when the
/// clock reads earlier than the epoch. Nothing is promised of the value: it is the time.
#[verifier::external_body]
fn system_millis() -> (r: u128) {
    match std::time::SystemTime::now().duration_since(std::time::UNIX_EPOCH) {
        Ok(d) => d.as_millis(),
        Err(_) => 0,
    }
}

/// A time the clock can read: milliseconds since the epoch, capped at `i64::MAX`.
pub open spec fn clock_reading(now: int) -> bool {
    0 <= now <= i64::MAX
}

/// Search clock and limits.
#[derive(Debug)]
pub struct Timer {
    start: i64,
    duration: i64,
    stopped: bool,
    pub max_nodes: i64,
    pub max_depth: i8,
    pub opt_time: i64,
}

impl Timer {
    pub closed spec fn start_spec(&self) -> i64 {
        self.start
    }

    pub closed spec fn duration_spec(&self) -> i64 {
        self.duration
    }

    pub closed spec fn stopped_spec(&self) -> bool {
        self.stopped
    }

    pub closed spec fn limits(&self) -> (i64, i8, i64) {
        (self.max_nodes, self.max_depth, self.opt_time)
    }

    /// The start time never precedes the epoch.
    pub closed spec fn wf(&self) -> bool {
        self.start >= 0
    }

    /// A stopped-free clock without limits.
    pub fn new() -> (r: Self)
        ensures
            r.wf(),
            r.start_spec() == 0,
            r.duration_spec() == MAX_TIME,
            !r.stopped_spec(),
            r.limits() == (MAX_NODES, MAX_DEPTH, MAX_TIME as i64),
    {
        Self {
            start: 0,
            duration: 1_000_000_000_000_000,
            stopped: false,
            max_depth: MAX_DEPTH,
            max_nodes: MAX_NODES,
            opt_time: 1_000_000_000_000_000,
        }
    }

    /// The current time in milliseconds, capped at `i64::MAX`.
    fn now() -> (r: i64)
        ensures
            r >= 0,
    {
        let t = system_millis();
        if t > 9_223_372_036_854_775_807u128 {
            i64::MAX
        } else {
            t as i64
        }
    }

    /// Starts the clock at time `now` with a budget of `duration` milliseconds.
    pub fn start_at(&mut self, now: i64, duration: i64)
        requires
            now >= 0,
        ensures
            final(self).wf(),
            final(self).start_spec() == now,
            final(self).duration_spec() == duration,
            !final(self).stopped_spec(),
            final(self).limits() == old(self).limits(),
    {
        self.start = now;
        self.duration = duration;
        self.stopped = false;
    }

    /// Starts the clock now with a budget of `duration` milliseconds.
    pub fn start(&mut self, duration: i64)
        ensures
            final(self).wf(),
            final(self).start_spec() >= 0,
            exists|now: int| #[trigger] clock_reading(now) && final(self).start_spec() == now,
            final(self).duration_spec() == duration,
            !final(self).stopped_spec(),
            final(self).limits() == old(self).limits(),
    {
        let now = Self::now();
        self.start_at(now, duration);
        assert(clock_reading(now as int));
    }

    /// Marks the clock stopped once time `now` reaches the end of the budget.
    pub fn check_at(&mut self, now: i64)
        ensures
            final(self).stopped_spec() == (old(self).stopped_spec() || now as int >= old(
                self,
            ).start_spec() + old(self).duration_spec()),
            final(self).start_spec() == old(self).start_spec(),
            final(self).duration_spec() == old(self).duration_spec(),
            final(self).limits() == old(self).limits(),
    {
        if self.stopped {
            return;
        }
        if now as i128 >= self.start as i128 + self.duration as i128 {
            self.stopped = true;
        }
    }

    /// Marks the clock stopped once the budget is used up at the time the clock reads; a
    /// stopped clock stays stopped.
    pub fn check(&mut self)
        ensures
            exists|now: int| #[trigger] clock_reading(now) && final(self).stopped_spec() == (old(self).stopped_spec()
                || now >= old(self).start_spec() + old(self).duration_spec()),
            old(self).stopped_spec() ==> final(self).stopped_spec(),
            final(self).start_spec() == old(self).start_spec(),
            final(self).duration_spec() == old(self).duration_spec(),
            final(self).limits() == old(self).limits(),
    {
        let now = Self::now();
        self.check_at(now);
        assert(clock_reading(now as int));
    }

    pub fn stopped(&self) -> (r: bool)
        ensures
            r == self.stopped_spec(),
    {
        self.stopped
    }

    pub fn force_stop(&mut self)
        ensures
            final(self).stopped_spec(),
            final(self).start_spec() == old(self).start_spec(),
            final(self).duration_spec() == old(self).duration_spec(),
            final(self).limits() == old(self).limits(),
    {
        self.stopped = true;
    }

    /// Whether `duration` milliseconds have passed since the start at time `now`.
    pub fn test_at(&self, now: i64, duration: i64) -> (r: bool)
        ensures
            r == (now as int >= self.start_spec() + duration),
    {
        now as i128 >= self.start as i128 + duration as i128
    }

    /// Whether `duration` milliseconds have passed since the start, at the time the clock
    /// reads.
    pub fn test(&self, duration: i64) -> (r: bool)
        ensures
            exists|now: int| #[trigger] clock_reading(now) && r == (now >= self.start_spec() + duration),
    {
        let now = Self::now();
        let r = self.test_at(now, duration);
        assert(clock_reading(now as int));
        r
    }

    /// Milliseconds from the start to time `now`.
    pub fn delta_at(&self, now: i64) -> (r: i64)
        requires
            self.wf(),
            now >= 0,
        ensures
            r == now - self.start_spec(),
    {
        now - self.start
    }

    /// Milliseconds since the start, at the time the clock reads.
    pub fn delta(&self) -> (r: i64)
        requires
            self.wf(),
        ensures
            exists|now: int| #[trigger] clock_reading(now) && r == now - self.start_spec(),
    {
        let now = Self::now();
        let r = self.delta_at(now);
        assert(clock_reading(now as int));
        r
    }

    /// The time left to spread over the moves still to come: the clock, plus the increments
    /// of the next 29 moves, less 10 ms of overhead for each of 60 moves.
    pub fn budget_left(time: i64, inc: i64) -> (r: i64)
        requires
            i64::MIN <= time + inc * 29 - 600 <= i64::MAX,
            i64::MIN <= inc * 29 <= i64::MAX,
            i64::MIN <= time + inc * 29 <= i64::MAX,
        ensures
            r == time + inc * 29 - 600,
    {
        let overhead: i64 = 10;
        let moves_left: i64 = 30;
        time + inc * (moves_left - 1) - overhead * (2 * moves_left)
    }

    /// The (optimal, maximal) search time from the clock `time` and the scaled share
    /// `scaled` of the time left: the optimum is at least 10 ms, the maximum at most four times
    /// the optimum and 80% of the clock less 10 ms overhead, and at least 10 ms.
    pub fn plan_limits(time: i64, scaled: i64) -> (r: (i64, i64))
        requires
            i64::MIN <= time * 80 <= i64::MAX,
            scaled * 4 <= i64::MAX,
        ensures
            r.0 == (if scaled > 10 { scaled } else { 10 }),
            r.1 == ({
                let cap = time * 80 / 100 - 10;
                let m = if r.0 * 4 < cap { r.0 * 4 } else { cap };
                if m > 10 { m } else { 10 }
            }),
    {
        let overhead: i64 = 10;
        let opt_time = if scaled > 10 { scaled } else { 10 };
        let cap = time * 80 / 100 - overhead;
        let m = if opt_time * 4 < cap { opt_time * 4 } else { cap };
        let max_time = if m > 10 { m } else { 10 };
        (opt_time, max_time)
    }
}

} // verus!
