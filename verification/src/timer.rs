//! Server-authoritative countdown for the active match.

use vstd::prelude::*;

verus! {

/// Countdown for one game. The broadcaster calls `tick()` once a second.
#[derive(Debug, Clone, Copy, PartialEq, Eq, Structural)]
pub struct Timer {
    pub duration_sec: u32,
    pub remaining_sec: u32,
    pub running: bool,
}

/// The timer after one logical second.
pub open spec fn spec_tick(t: Timer) -> Timer {
    if !t.running {
        t
    } else {
        let rem = if t.remaining_sec == 0 {
            0
        } else {
            (t.remaining_sec - 1) as u32
        };
        Timer { duration_sec: t.duration_sec, remaining_sec: rem, running: rem != 0 }
    }
}

/// Whether `tick` on `t` is the tick that reaches zero.
pub open spec fn spec_tick_fires(t: Timer) -> bool {
    t.running && t.remaining_sec <= 1
}

/// The timer restarted at full duration.
pub open spec fn spec_started(t: Timer) -> Timer {
    Timer { duration_sec: t.duration_sec, remaining_sec: t.duration_sec, running: true }
}

impl Timer {
    /// A stopped timer of `duration_sec` seconds, full.
    pub fn new(duration_sec: u32) -> (t: Self)
        ensures
            t == (Timer { duration_sec, remaining_sec: duration_sec, running: false }),
    {
        Self { duration_sec, remaining_sec: duration_sec, running: false }
    }

    /// (Re)start at full duration.
    pub fn start(&mut self)
        ensures
            *final(self) == spec_started(*old(self)),
    {
        self.remaining_sec = self.duration_sec;
        self.running = true;
    }

    /// Advance one second. Returns true on the tick that reaches zero.
    pub fn tick(&mut self) -> (fired: bool)
        ensures
            *final(self) == spec_tick(*old(self)),
            fired == spec_tick_fires(*old(self)),
    {
        if !self.running {
            return false;
        }
        self.remaining_sec = self.remaining_sec.saturating_sub(1);
        if self.remaining_sec == 0 {
            self.running = false;
            true
        } else {
            false
        }
    }
}

/// A stopped timer never fires, and a tick that fires leaves the timer
/// stopped at zero: an expiry is reported exactly once.
pub proof fn law_tick_fires_once(t: Timer)
    ensures
        !t.running ==> !spec_tick_fires(t) && spec_tick(t) == t,
        spec_tick_fires(t) ==> !spec_tick(t).running && spec_tick(t).remaining_sec == 0,
        spec_tick_fires(t) ==> !spec_tick_fires(spec_tick(t)),
{
}

/// A running timer with more than one second left does not fire; it keeps
/// running one second shorter.
pub proof fn law_counts_down(t: Timer)
    requires
        t.running,
        t.remaining_sec > 1,
    ensures
        !spec_tick_fires(t),
        spec_tick(t).running,
        spec_tick(t).remaining_sec == t.remaining_sec - 1,
{
}

} // verus!
