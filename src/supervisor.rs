//! The watchdog that runs one tailing attempt at a time and restarts it when
//! it stalls.

use vstd::prelude::*;

verus! {

/// Polls without a new reading after which a tailing attempt counts as stalled.
pub const STALL_TICKS: u32 = 100;

/// Milliseconds between two polls.
pub const POLL_INTERVAL_MS: u64 = 50;

/// What to do after a poll.
#[derive(Debug, Clone, Copy, PartialEq, Eq, Structural)]
pub enum PollAction {
    /// A reading came: publish it.
    Publish,
    /// Nothing came: wait one interval and poll again.
    Wait,
    /// Nothing came for too long: cancel the attempt and start a new one.
    Restart,
}

/// What to do after publishing.
#[derive(Debug, Clone, Copy, PartialEq, Eq, Structural)]
pub enum PublishOutcome {
    /// Go on polling.
    Continue,
    /// Nobody receives the readings: stop for good.
    Stop,
}

/// The polls an attempt has left before it counts as stalled.
#[derive(Debug, Clone, Copy, PartialEq, Eq, Structural)]
pub struct Watchdog {
    pub ticks_left: u32,
}

impl Watchdog {
    pub open spec fn wf(&self) -> bool {
        0 < self.ticks_left <= STALL_TICKS
    }

    pub fn new() -> (r: Watchdog)
        ensures
            r.ticks_left == STALL_TICKS,
            r.wf(),
    {
        Watchdog { ticks_left: STALL_TICKS }
    }

    /// Takes the result of one poll: whether a new reading was there. A
    /// reading resets the window; the last empty poll of a window asks for a
    /// restart and opens a new window.
    pub fn on_poll(&mut self, got_reading: bool) -> (r: PollAction)
        requires
            old(self).wf(),
        ensures
            final(self).wf(),
            got_reading ==> r == PollAction::Publish && final(self).ticks_left == STALL_TICKS,
            !got_reading && old(self).ticks_left == 1 ==> r == PollAction::Restart
                && final(self).ticks_left == STALL_TICKS,
            !got_reading && old(self).ticks_left > 1 ==> r == PollAction::Wait
                && final(self).ticks_left == old(self).ticks_left - 1,
    {
        if got_reading {
            self.ticks_left = STALL_TICKS;
            PollAction::Publish
        } else if self.ticks_left == 1 {
            self.ticks_left = STALL_TICKS;
            PollAction::Restart
        } else {
            self.ticks_left = self.ticks_left - 1;
            PollAction::Wait
        }
    }
}

/// What follows a publish: `delivered` is false when the receiving side is gone.
pub fn after_publish(delivered: bool) -> (r: PublishOutcome)
    ensures
        r == (if delivered {
            PublishOutcome::Continue
        } else {
            PublishOutcome::Stop
        }),
{
    if delivered {
        PublishOutcome::Continue
    } else {
        PublishOutcome::Stop
    }
}

/// The watchdog after `n` empty polls.
pub open spec fn idle_polls(w: Watchdog, n: nat) -> Watchdog
    decreases n,
{
    if n == 0 {
        w
    } else {
        let p = idle_polls(w, (n - 1) as nat);
        Watchdog {
            ticks_left: if p.ticks_left == 1 {
                STALL_TICKS
            } else {
                (p.ticks_left - 1) as u32
            },
        }
    }
}

/// From a fresh window, the first `STALL_TICKS - 1` empty polls only wait, and
/// the next one restarts.
pub proof fn lemma_restart_after_stall(n: nat)
    requires
        n < STALL_TICKS,
    ensures
        idle_polls(Watchdog { ticks_left: STALL_TICKS }, n).ticks_left == STALL_TICKS - n,
    decreases n,
{
    if n > 0 {
        lemma_restart_after_stall((n - 1) as nat);
    }
}

} // verus!
