use vstd::prelude::*;

verus! {

/// The tick clock of the live bus: ticks fall every `interval` time units,
/// the next one at `next_tick`. Times are counted in nanoseconds.
pub struct TickSchedule {
    interval: u64,
    next_tick: u64,
}

/// What the dispatch loop does next.
pub enum Decision {
    /// Shutdown was requested: leave the loop.
    Exit,
    /// Tick every subscriber at each of these times, in order.
    Fire(Vec<u64>),
    /// Nothing is due: poll the lanes, waiting at most this long.
    Poll(u64),
}

/// The ticks due at `now` when the next falls at `next` and they fall every
/// `interval`: all of `next`, `next + interval`, ... up to `now`.
pub open spec fn due_count(next: int, interval: int, now: int) -> int {
    if now < next {
        0
    } else {
        (now - next) / interval + 1
    }
}

impl TickSchedule {
    pub closed spec fn interval_spec(&self) -> u64 {
        self.interval
    }

    pub closed spec fn next_tick_spec(&self) -> u64 {
        self.next_tick
    }

    pub open spec fn wf(&self) -> bool {
        self.interval_spec() >= 1
    }

    /// A clock started at `start`: the first tick after the initial one is
    /// due one interval later.
    pub fn new(start: u64, interval: u64) -> (r: Self)
        requires
            interval >= 1,
            start + interval <= u64::MAX,
        ensures
            r.wf(),
            r.interval_spec() == interval,
            r.next_tick_spec() == start + interval,
    {
        TickSchedule { interval, next_tick: start + interval }
    }

    /// The time of the next tick.
    pub fn next_tick(&self) -> (r: u64)
        ensures
            r == self.next_tick_spec(),
    {
        self.next_tick
    }

    /// Whether a tick is due at `now`.
    pub fn is_due(&self, now: u64) -> (r: bool)
        ensures
            r == (now >= self.next_tick_spec()),
    {
        now >= self.next_tick
    }

    /// How long to wait for an envelope at `now`: until the next tick, or one
    /// interval where the clock reads past it (it moved backwards or the loop
    /// fell behind).
    pub fn wait_timeout(&self, now: u64) -> (r: u64)
        ensures
            now <= self.next_tick_spec() ==> r == self.next_tick_spec() - now,
            now > self.next_tick_spec() ==> r == self.interval_spec(),
    {
        if now <= self.next_tick {
            self.next_tick - now
        } else {
            self.interval
        }
    }

    /// Takes every tick due at `now`, in order, none dropped and none
    /// merged: they are spaced by exactly one interval, and the next tick
    /// then falls after `now`.
    pub fn catch_up(&mut self, now: u64) -> (r: Vec<u64>)
        requires
            old(self).wf(),
            now + old(self).interval_spec() <= u64::MAX,
        ensures
            final(self).wf(),
            final(self).interval_spec() == old(self).interval_spec(),
            r@.len() == due_count(
                old(self).next_tick_spec() as int,
                old(self).interval_spec() as int,
                now as int,
            ),
            forall|i: int|
                0 <= i < r@.len() ==> #[trigger] r@[i] == old(self).next_tick_spec() + i
                    * old(self).interval_spec(),
            final(self).next_tick_spec() == old(self).next_tick_spec() + r@.len()
                * old(self).interval_spec(),
            final(self).next_tick_spec() > now || final(self).next_tick_spec() == old(
                self,
            ).next_tick_spec(),
            now >= old(self).next_tick_spec() ==> final(self).next_tick_spec() > now,
    {
        let ghost start = self.next_tick as int;
        let ghost step = self.interval as int;
        let mut r: Vec<u64> = Vec::new();
        assert(r@.len() * step == 0);
        while self.next_tick <= now
            invariant
                self.interval == step,
                step >= 1,
                now + step <= u64::MAX,
                self.next_tick == start + r@.len() * step,
                start <= now + 1 ==> self.next_tick <= now + step,
                r@.len() > 0 ==> self.next_tick <= now + step,
                forall|i: int| 0 <= i < r@.len() ==> #[trigger] r@[i] == start + i * step,
                r@.len() > 0 ==> start + (r@.len() - 1) * step <= now,
            decreases now + step - self.next_tick,
        {
            r.push(self.next_tick);
            self.next_tick = self.next_tick + self.interval;
            proof {
                assert(start + (r@.len() - 1) * step + step == start + r@.len() * step)
                    by (nonlinear_arith);
            }
        }
        proof {
            if now >= start {
                let n = r@.len() as int;
                assert(start + (n - 1) * step <= now);
                assert(start + n * step > now);
                assert(n == (now - start) / step + 1) by (nonlinear_arith)
                    requires
                        start + (n - 1) * step <= now,
                        start + n * step > now,
                        step >= 1,
                        n >= 1,
                        now >= start,
                ;
            }
        }
        r
    }

    /// What the dispatch loop does at `now`: leave where shutdown was
    /// requested, else fire the ticks that are due, else poll until the next
    /// tick.
    pub fn decide(&mut self, shutdown: bool, now: u64) -> (r: Decision)
        requires
            old(self).wf(),
            now + old(self).interval_spec() <= u64::MAX,
        ensures
            final(self).wf(),
            final(self).interval_spec() == old(self).interval_spec(),
            shutdown ==> r is Exit && *final(self) == *old(self),
            !shutdown && now >= old(self).next_tick_spec() ==> (r matches Decision::Fire(ticks)
                && ticks@.len() == due_count(
                old(self).next_tick_spec() as int,
                old(self).interval_spec() as int,
                now as int,
            ) && ticks@.len() >= 1 && (forall|i: int|
                0 <= i < ticks@.len() ==> #[trigger] ticks@[i] == old(self).next_tick_spec() + i
                    * old(self).interval_spec()) && final(self).next_tick_spec()
                == old(self).next_tick_spec() + ticks@.len() * old(self).interval_spec()
                && final(self).next_tick_spec() > now),
            !shutdown && now < old(self).next_tick_spec() ==> r == Decision::Poll(
                (old(self).next_tick_spec() - now) as u64,
            ) && *final(self) == *old(self),
    {
        if shutdown {
            Decision::Exit
        } else if self.is_due(now) {
            Decision::Fire(self.catch_up(now))
        } else {
            Decision::Poll(self.wait_timeout(now))
        }
    }
}

} // verus!
