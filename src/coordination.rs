use vstd::prelude::*;
use crate::timer::TimerState;

verus! {

/// Overlay suppression with a generation token: each hide raises the flag and starts a
/// new generation; a deferred re-enable clears the flag only if no newer hide happened.
#[derive(Clone, Copy, Debug, PartialEq, Eq, Structural)]
pub struct OverlaySuppression {
    pub suppressed: bool,
    pub generation: u32,
}

/// The generation after `g`, wrapping as an atomic increment does.
pub open spec fn next_generation(g: u32) -> u32 {
    if g == u32::MAX { 0 } else { (g + 1) as u32 }
}

impl OverlaySuppression {
    pub fn new() -> (r: Self)
        ensures
            r == (OverlaySuppression { suppressed: false, generation: 0 }),
    {
        OverlaySuppression { suppressed: false, generation: 0 }
    }

    /// An overlay hide: starts a new generation, raises the flag, and returns the token
    /// that the deferred re-enable must present.
    pub fn begin(&mut self) -> (token: u32)
        ensures
            (*final(self), token) == after_begin(*old(self)),
    {
        let g: u32 = if self.generation == u32::MAX { 0 } else { self.generation + 1 };
        self.generation = g;
        self.suppressed = true;
        g
    }

    /// The deferred re-enable scheduled with `token`: clears the flag only when `token`
    /// is still the current generation. Returns whether it did.
    pub fn expire(&mut self, token: u32) -> (cleared: bool)
        ensures
            cleared == (token == old(self).generation),
            *final(self) == after_expire(*old(self), token),
    {
        if token == self.generation {
            self.suppressed = false;
            true
        } else {
            false
        }
    }
}

/// The suppression after a hide, and the hide's token.
pub open spec fn after_begin(s: OverlaySuppression) -> (OverlaySuppression, u32) {
    let t = next_generation(s.generation);
    (OverlaySuppression { suppressed: true, generation: t }, t)
}

/// The suppression after the deferred re-enable presenting `token`.
pub open spec fn after_expire(s: OverlaySuppression, token: u32) -> OverlaySuppression {
    if token == s.generation { OverlaySuppression { suppressed: false, ..s } } else { s }
}

/// A superseded re-enable does nothing: after a hide with token `t1` and a newer hide
/// with token `t2`, presenting `t1` leaves the overlay suppressed, and only `t2`
/// lifts the suppression.
pub proof fn lemma_stale_expiry_is_noop(s: OverlaySuppression)
    ensures
        ({
            let (s1, t1) = after_begin(s);
            let (s2, t2) = after_begin(s1);
            &&& after_expire(s2, t1) == s2
            &&& after_expire(s2, t1).suppressed
            &&& !after_expire(s2, t2).suppressed
        }),
{
}

/// What the schedule watcher does when the window state is seen.
#[derive(Clone, Copy, Debug, PartialEq, Eq, Structural)]
pub enum ScheduleAction {
    StartFocus,
    StopFocus,
    Nothing,
}

/// Entering a window starts focus once; leaving it stops the focus it started.
/// Returns the action and whether scheduled focus is active afterwards.
pub fn schedule_step(in_schedule: bool, was_active: bool) -> (r: (ScheduleAction, bool))
    ensures
        in_schedule && !was_active ==> r == (ScheduleAction::StartFocus, true),
        !in_schedule && was_active ==> r == (ScheduleAction::StopFocus, false),
        in_schedule == was_active ==> r == (ScheduleAction::Nothing, was_active),
{
    if in_schedule && !was_active {
        (ScheduleAction::StartFocus, true)
    } else if !in_schedule && was_active {
        (ScheduleAction::StopFocus, false)
    } else {
        (ScheduleAction::Nothing, was_active)
    }
}

/// At exit the site block is lifted only when no session is in progress: an active
/// session keeps it across the restart.
pub fn unblock_on_exit(state: TimerState) -> (r: bool)
    ensures
        r == (state == TimerState::Idle),
{
    state == TimerState::Idle
}

/// Whether the configured mode starts focus by schedule.
pub fn is_scheduled_mode(mode: &str) -> (r: bool)
    ensures
        r == (mode@ == "scheduled"@),
{
    let r = crate::text::char_len(mode) == crate::text::char_len("scheduled") && crate::text::starts_with_text(mode, "scheduled");
    proof {
        if mode@.len() == "scheduled"@.len() {
            assert(mode@.subrange(0, mode@.len() as int) =~= mode@);
        }
    }
    r
}

} // verus!
