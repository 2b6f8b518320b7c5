//! When the sidebar scans, moves its signs and wakes up. Times are nanoseconds
//! since some start.

use crate::text;
use vstd::prelude::*;

verus! {

/// How long to the next scan.
pub const SCAN_EVERY: u64 = 2_000_000_000;

/// How long to the next move of the signs.
pub const TICK_EVERY: u64 = 250_000_000;

/// A time `d` after `now`, as far as there is one.
pub open spec fn later(now: int, d: int) -> int {
    if now + d > u64::MAX {
        u64::MAX as int
    } else {
        now + d
    }
}

/// The sidebar's clock.
pub struct Clock {
    pub next_scan: u64,
    pub next_tick: u64,
}

fn after(now: u64, d: u64) -> (r: u64)
    ensures
        r == later(now as int, d as int),
{
    if now > u64::MAX - d {
        u64::MAX
    } else {
        now + d
    }
}

/// How long to sleep, in milliseconds: until the signs move, where any does, and
/// else until the next scan; as long as a poll can last at most.
pub open spec fn sleep(next_scan: int, next_tick: int, animating: bool, now: int) -> int {
    let due = if animating {
        next_tick
    } else {
        next_scan
    };
    let ms = text::over(due, now) / 1_000_000;
    if ms > i32::MAX {
        i32::MAX as int
    } else {
        ms
    }
}

impl Clock {
    /// A clock by which everything is due.
    pub fn new(now: u64) -> (r: Clock)
        ensures
            r.next_scan == now,
            r.next_tick == now,
    {
        Clock { next_scan: now, next_tick: now }
    }

    /// Is a scan due?
    pub fn scan_due(&self, now: u64) -> (r: bool)
        ensures
            r == (now >= self.next_scan),
    {
        now >= self.next_scan
    }

    /// Notes a scan that ended now.
    pub fn scanned(&mut self, now: u64)
        ensures
            final(self).next_scan == later(now as int, SCAN_EVERY as int),
            final(self).next_tick == old(self).next_tick,
    {
        self.next_scan = after(now, SCAN_EVERY);
    }

    /// Makes a scan due: the focus has changed.
    pub fn hurry(&mut self, now: u64)
        ensures
            final(self).next_scan == now,
            final(self).next_tick == old(self).next_tick,
    {
        self.next_scan = now;
    }

    /// Takes the move of the signs that is due, if one is. The time counts, and
    /// not how often the sidebar wakes up: a key that is held wakes it often.
    pub fn tick(&mut self, animating: bool, now: u64) -> (r: bool)
        ensures
            r == (animating && now >= old(self).next_tick),
            final(self).next_tick == (if r {
                later(now as int, TICK_EVERY as int)
            } else {
                old(self).next_tick as int
            }),
            final(self).next_scan == old(self).next_scan,
    {
        if animating && now >= self.next_tick {
            self.next_tick = after(now, TICK_EVERY);
            true
        } else {
            false
        }
    }

    /// How long to sleep, in milliseconds.
    pub fn wait(&self, animating: bool, now: u64) -> (r: i32)
        ensures
            r == sleep(self.next_scan as int, self.next_tick as int, animating, now as int),
    {
        let due: u64 = if animating {
            self.next_tick
        } else {
            self.next_scan
        };
        let left: u64 = if due > now {
            due - now
        } else {
            0
        };
        let ms: u64 = left / 1_000_000;
        if ms > 2_147_483_647 {
            i32::MAX
        } else {
            ms as i32
        }
    }
}

/// Something due is not slept over.
pub proof fn what_is_due_is_not_slept_over(
    next_scan: int,
    next_tick: int,
    animating: bool,
    now: int,
)
    requires
        0 <= now,
    ensures
        animating && now >= next_tick ==> sleep(next_scan, next_tick, animating, now) == 0,
        !animating && now >= next_scan ==> sleep(next_scan, next_tick, animating, now) == 0,
        now + sleep(next_scan, next_tick, animating, now) * 1_000_000 <= (if animating {
            if next_tick > now {
                next_tick
            } else {
                now
            }
        } else {
            if next_scan > now {
                next_scan
            } else {
                now
            }
        }),
{
}

/// How old a saved scan may be, in seconds, for the status line to use it.
pub const FRESH: u64 = 6;

/// Is a saved scan of this age fresh enough? One of unknown age is not.
pub fn is_fresh(age: Option<u64>) -> (r: bool)
    ensures
        r == (age is Some && age->0 < FRESH),
{
    match age {
        Some(a) => a < FRESH,
        None => false,
    }
}

} // verus!
