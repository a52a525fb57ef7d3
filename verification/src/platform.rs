//! Decisions of the platform event loop.

use vstd::prelude::*;
use crate::application::{TimerToken, Timers};
use crate::keys::MAX_LIVE_KEYS;

verus! {

/// Reason for waking the event loop.
#[derive(Clone, Copy, Debug, Eq, PartialEq, Structural)]
pub enum EventLoopWakeReason {
    /// Triggers an UI update.
    DispatchCallbacks,
    /// Compositor clock tick.
    CompositorClockTick,
    Redraw,
}

/// Whether a wake-up for `reason` is sent when a redraw is `pending`, and
/// whether a redraw is pending afterwards.
pub open spec fn wake_spec(reason: EventLoopWakeReason, pending: bool) -> (bool, bool) {
    if reason == EventLoopWakeReason::CompositorClockTick {
        (!pending, true)
    } else {
        (true, pending)
    }
}

/// Decides whether a wake-up for `reason` is sent to the event loop.
///
/// Compositor clock ticks are not queued twice: a tick is sent only if no
/// redraw is pending yet, and sending it marks a redraw as pending. Other
/// reasons are always sent.
pub fn wake_event_loop(reason: EventLoopWakeReason, pending_redraw: &mut bool) -> (send: bool)
    ensures
        (send, *final(pending_redraw)) == wake_spec(reason, *old(pending_redraw)),
{
    if reason == EventLoopWakeReason::CompositorClockTick {
        // don't queue multiple compositor clock ticks
        let was_pending = *pending_redraw;
        *pending_redraw = true;
        if was_pending {
            return false;
        }
    }
    true
}

/// Two clock ticks in a row wake the event loop at most once.
pub proof fn lemma_clock_ticks_coalesce(pending: bool)
    ensures
        ({
            let first = wake_spec(EventLoopWakeReason::CompositorClockTick, pending);
            let second = wake_spec(EventLoopWakeReason::CompositorClockTick, first.1);
            !second.0
        }),
{
}

/// Time, in milliseconds, left after a compositor clock tick for more input
/// events to arrive before the next redraw starts.
pub const INPUT_DELAY_MS: u64 = 10;

/// On a compositor clock tick at instant `now` (in milliseconds): the next
/// redraw is to start `INPUT_DELAY_MS` later, and a timer is set for that
/// instant so that the event loop wakes up then. Returns the start instant.
pub fn clock_tick(now: u64, timers: &mut Timers) -> (start: u64)
    requires
        old(timers).wf(),
        old(timers).deadlines().len() < MAX_LIVE_KEYS,
        now + INPUT_DELAY_MS <= u64::MAX,
    ensures
        start == now + INPUT_DELAY_MS,
        final(timers).wf(),
        exists|t: u64| !old(timers).deadlines().contains_key(t)
            && final(timers).deadlines() == old(timers).deadlines().insert(t, start),
{
    let start = now + INPUT_DELAY_MS;
    let t = TimerToken::new(start, timers);
    proof {
        assert(!old(timers).deadlines().contains_key(t.spec_id()));
    }
    start
}

/// Whether the windows are redrawn when the event loop wakes at instant
/// `now`: only if a redraw is pending and its start instant has come. A
/// redraw makes room for a new redraw request.
pub fn should_redraw(pending_redraw: &mut bool, render_start: u64, now: u64) -> (redraw: bool)
    ensures
        redraw == (*old(pending_redraw) && render_start <= now),
        *final(pending_redraw) == (*old(pending_redraw) && !redraw),
{
    if *pending_redraw && render_start <= now {
        *pending_redraw = false;
        true
    } else {
        false
    }
}

} // verus!
