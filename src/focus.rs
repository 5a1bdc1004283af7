use vstd::prelude::*;
use vstd::string::*;
use crate::config::{PomodoroConfig, calendar_month, quota_left, LAST_MONTH_SECS};
use crate::errors::AppError;
use crate::session::{FocusSession, Recovery, resumed_status, LATEST_START};
use crate::timer::{TimerState, TimerStatus, minutes_to_secs};

verus! {

/// What a session start settled before the countdown is armed.
#[derive(Clone, Copy, Debug, PartialEq, Eq, Structural)]
pub struct StartPlan {
    pub work_minutes: u32,
    pub extra_seconds: u32,
    pub break_minutes: u32,
    pub emergency_remaining: u32,
}

/// Settles a session start in `month`: the explicit or configured work length, the
/// configured break, and the month's override quota (the used count restarts in a new
/// month). The chosen work length is remembered as the last focus duration.
pub fn plan_focus(pomodoro: &mut PomodoroConfig, minutes: Option<u32>, seconds: Option<u32>, month: String) -> (r: StartPlan)
    ensures
        r.work_minutes == match minutes { Some(m) => m, None => old(pomodoro).work_minutes },
        r.extra_seconds == match seconds { Some(x) => x, None => 0 },
        r.break_minutes == old(pomodoro).break_minutes,
        final(pomodoro).emergency_reset_month@ == month@,
        final(pomodoro).emergency_used_count == if old(pomodoro).emergency_reset_month@ == month@ {
            old(pomodoro).emergency_used_count
        } else {
            0
        },
        r.emergency_remaining == quota_left(old(pomodoro).emergency_cancel_limit, final(pomodoro).emergency_used_count),
        final(pomodoro).last_focus_duration == r.work_minutes,
        final(pomodoro).work_minutes == old(pomodoro).work_minutes,
        final(pomodoro).break_minutes == old(pomodoro).break_minutes,
        final(pomodoro).emergency_cancel_limit == old(pomodoro).emergency_cancel_limit,
{
    let work_minutes = match minutes {
        Some(m) => m,
        None => pomodoro.work_minutes,
    };
    let extra_seconds: u32 = match seconds {
        Some(x) => x,
        None => 0,
    };
    let break_minutes = pomodoro.break_minutes;
    let emergency_remaining = pomodoro.monthly_remaining_in(month);
    pomodoro.last_focus_duration = work_minutes;
    StartPlan { work_minutes, extra_seconds, break_minutes, emergency_remaining }
}

/// Length of the work phase of a plan, in seconds.
pub open spec fn work_length(p: StartPlan) -> int {
    p.work_minutes * 60 + p.extra_seconds
}

/// Arms the countdown of a planned session at `now` (epoch seconds): the timer turns
/// to Working with the full work length, and the record to persist is returned.
/// A work length past `u32::MAX` seconds, or a break of zero minutes (the work end
/// must come strictly before the break end), is refused and nothing changes.
pub fn start_focus(status: &mut TimerStatus, plan: StartPlan, now: u64) -> (r: Result<FocusSession, AppError>)
    requires
        now <= LATEST_START,
    ensures
        (work_length(plan) > u32::MAX || plan.break_minutes == 0) <==> r is Err,
        r is Err ==> *final(status) == *old(status),
        r matches Err(e) ==> e matches AppError::TimerError(_),
        r matches Ok(s) ==> {
            &&& s.state@ == "working"@
            &&& s.work_end_time == now + work_length(plan)
            &&& s.break_end_time == s.work_end_time + minutes_to_secs(plan.break_minutes)
            &&& s.wf()
            &&& s.work_minutes == plan.work_minutes
            &&& s.break_minutes == plan.break_minutes
            &&& s.emergency_remaining == plan.emergency_remaining
            &&& *final(status) == (TimerStatus {
                state: TimerState::Working,
                remaining_seconds: work_length(plan) as u32,
                total_seconds: work_length(plan) as u32,
                emergency_remaining: plan.emergency_remaining,
                previous_state: None,
                work_minutes: plan.work_minutes,
                break_minutes: plan.break_minutes,
            })
        },
        final(status).wf() || *final(status) == *old(status),
{
    if plan.work_minutes > u32::MAX / 60 || plan.work_minutes * 60 > u32::MAX - plan.extra_seconds {
        return Err(AppError::TimerError(String::from_str("focus length is too long")));
    }
    if plan.break_minutes == 0 {
        return Err(AppError::TimerError(String::from_str("break length must be at least one minute")));
    }
    let total: u32 = plan.work_minutes * 60 + plan.extra_seconds;
    let session = FocusSession::planned(now, total, plan.work_minutes, plan.break_minutes, plan.emergency_remaining);
    *status = TimerStatus {
        state: TimerState::Working,
        remaining_seconds: total,
        total_seconds: total,
        emergency_remaining: plan.emergency_remaining,
        previous_state: None,
        work_minutes: plan.work_minutes,
        break_minutes: plan.break_minutes,
    };
    Ok(session)
}

/// Pauses a running phase, remembering it. An idle or paused timer is refused, unchanged.
pub fn pause_focus(status: &mut TimerStatus) -> (r: Result<TimerStatus, AppError>)
    requires
        old(status).wf(),
    ensures
        !old(status).state.is_running_phase() ==> *final(status) == *old(status),
        !old(status).state.is_running_phase() ==> r matches Err(AppError::TimerError(_)),
        old(status).state.is_running_phase() ==> *final(status) == (TimerStatus {
            state: TimerState::Paused,
            previous_state: Some(old(status).state),
            ..*old(status)
        }),
        old(status).state.is_running_phase() ==> r == Ok::<TimerStatus, AppError>(*final(status)),
        final(status).wf(),
{
    if status.state == TimerState::Idle {
        return Err(AppError::TimerError(String::from_str("timer is not running")));
    }
    if status.state == TimerState::Paused {
        return Err(AppError::TimerError(String::from_str("timer is already paused")));
    }
    status.previous_state = Some(status.state);
    status.state = TimerState::Paused;
    Ok(*status)
}

/// Resumes the phase that was paused. Anything but a paused timer is refused, unchanged.
pub fn resume_focus(status: &mut TimerStatus) -> (r: Result<TimerStatus, AppError>)
    requires
        old(status).wf(),
    ensures
        old(status).state != TimerState::Paused ==> *final(status) == *old(status),
        old(status).state != TimerState::Paused ==> r matches Err(AppError::TimerError(_)),
        old(status).state == TimerState::Paused ==> *final(status) == (TimerStatus {
            state: old(status).previous_state.unwrap(),
            previous_state: None,
            ..*old(status)
        }),
        old(status).state == TimerState::Paused ==> r == Ok::<TimerStatus, AppError>(*final(status)),
        final(status).wf(),
{
    if status.state != TimerState::Paused {
        return Err(AppError::TimerError(String::from_str("timer is not paused")));
    }
    status.state = match status.previous_state {
        Some(p) => p,
        None => TimerState::Working,
    };
    status.previous_state = None;
    Ok(*status)
}

/// The status after a stop: idle, countdown cleared, quota and durations kept.
pub open spec fn stopped(s: TimerStatus) -> TimerStatus {
    TimerStatus {
        state: TimerState::Idle,
        remaining_seconds: 0,
        total_seconds: 0,
        previous_state: None,
        ..s
    }
}

/// Ends the session unconditionally.
pub fn stop_focus(status: &mut TimerStatus) -> (r: TimerStatus)
    ensures
        *final(status) == stopped(*old(status)),
        r == *final(status),
        final(status).wf(),
{
    status.state = TimerState::Idle;
    status.remaining_seconds = 0;
    status.total_seconds = 0;
    status.previous_state = None;
    *status
}

/// Ends the session early at the cost of one override of the month's quota, recorded
/// in `pomodoro` for `month`. An idle timer, or one without overrides left, is refused,
/// and then nothing changes.
pub fn emergency_cancel(status: &mut TimerStatus, pomodoro: &mut PomodoroConfig, month: String) -> (r: Result<TimerStatus, AppError>)
    ensures
        (old(status).state == TimerState::Idle || old(status).emergency_remaining == 0) ==> {
            &&& r matches Err(AppError::TimerError(_))
            &&& *final(status) == *old(status)
            &&& *final(pomodoro) == *old(pomodoro)
        },
        (old(status).state != TimerState::Idle && old(status).emergency_remaining > 0) ==> {
            &&& *final(status) == stopped(TimerStatus {
                emergency_remaining: (old(status).emergency_remaining - 1) as u32,
                ..*old(status)
            })
            &&& r == Ok::<TimerStatus, AppError>(*final(status))
            &&& final(pomodoro).emergency_reset_month@ == month@
            &&& final(pomodoro).emergency_used_count == if old(pomodoro).emergency_used_count == u32::MAX {
                u32::MAX
            } else {
                (old(pomodoro).emergency_used_count + 1) as u32
            }
            &&& final(pomodoro).emergency_cancel_limit == old(pomodoro).emergency_cancel_limit
        },
        final(status).state == TimerState::Idle || *final(status) == *old(status),
{
    if status.state == TimerState::Idle {
        return Err(AppError::TimerError(String::from_str("timer is not running")));
    }
    if status.emergency_remaining == 0 {
        return Err(AppError::TimerError(String::from_str("no emergency overrides left this month")));
    }
    status.emergency_remaining = status.emergency_remaining - 1;
    pomodoro.record_emergency_use(month);
    Ok(stop_focus(status))
}

/// What startup does with a stored session.
#[derive(Clone, Copy, Debug, PartialEq, Eq, Structural)]
pub enum RestorePlan {
    /// No session was stored.
    Nothing,
    /// The session is over: delete the record and clear any leftover site block.
    Expire,
    /// The session goes on; the sites are blocked again only if `reblock`.
    Resume { reblock: bool },
}

/// Startup recovery at `now` (epoch seconds). A session whose break has not ended is
/// resumed in the phase that `now` falls into, and the sites are blocked again only
/// when no block is currently in place; otherwise nothing is restored.
pub fn restore_focus(stored: &Option<FocusSession>, now: u64, blocking_active: bool, status: &mut TimerStatus) -> (r: RestorePlan)
    ensures
        stored.is_none() ==> r == RestorePlan::Nothing && *final(status) == *old(status),
        stored matches Some(s) ==> now >= s.break_end_time ==> r == RestorePlan::Expire
            && *final(status) == *old(status),
        stored matches Some(s) ==> now < s.break_end_time ==> r == (RestorePlan::Resume { reblock: !blocking_active })
            && *final(status) == resumed_status(*s, now),
        r is Resume ==> final(status).wf(),
{
    match stored {
        None => RestorePlan::Nothing,
        Some(s) => match s.recover(now) {
            Recovery::Expired => RestorePlan::Expire,
            Recovery::Resume(st) => {
                *status = st;
                RestorePlan::Resume { reblock: !blocking_active }
            },
        },
    }
}

/// `plan_focus` in the month of local time `local_secs` (the stored month when it
/// cannot be told).
pub fn plan_focus_now(pomodoro: &mut PomodoroConfig, minutes: Option<u32>, seconds: Option<u32>, local_secs: u64) -> (r: StartPlan)
    ensures
        r.work_minutes == match minutes { Some(m) => m, None => old(pomodoro).work_minutes },
        r.extra_seconds == match seconds { Some(x) => x, None => 0 },
        r.break_minutes == old(pomodoro).break_minutes,
        final(pomodoro).emergency_reset_month@ == calendar_month(local_secs as int)
            || final(pomodoro).emergency_reset_month@ == old(pomodoro).emergency_reset_month@,
        local_secs <= LAST_MONTH_SECS ==> final(pomodoro).emergency_reset_month@ == calendar_month(local_secs as int),
        local_secs <= LAST_MONTH_SECS ==> final(pomodoro).emergency_used_count == if old(pomodoro).emergency_reset_month@
            == calendar_month(local_secs as int) {
            old(pomodoro).emergency_used_count
        } else {
            0
        },
        final(pomodoro).emergency_used_count == 0 || final(pomodoro).emergency_used_count == old(pomodoro).emergency_used_count,
        final(pomodoro).emergency_reset_month@ == old(pomodoro).emergency_reset_month@
            ==> final(pomodoro).emergency_used_count == old(pomodoro).emergency_used_count,
        r.emergency_remaining == quota_left(old(pomodoro).emergency_cancel_limit, final(pomodoro).emergency_used_count),
        final(pomodoro).last_focus_duration == r.work_minutes,
        final(pomodoro).work_minutes == old(pomodoro).work_minutes,
        final(pomodoro).break_minutes == old(pomodoro).break_minutes,
        final(pomodoro).emergency_cancel_limit == old(pomodoro).emergency_cancel_limit,
{
    let month = pomodoro.month_or_stored(local_secs);
    plan_focus(pomodoro, minutes, seconds, month)
}

/// `emergency_cancel`, recording the override in the month of local time `local_secs`
/// (the stored month when it cannot be told).
pub fn emergency_cancel_now(status: &mut TimerStatus, pomodoro: &mut PomodoroConfig, local_secs: u64) -> (r: Result<TimerStatus, AppError>)
    ensures
        (old(status).state == TimerState::Idle || old(status).emergency_remaining == 0) ==> {
            &&& r matches Err(AppError::TimerError(_))
            &&& *final(status) == *old(status)
            &&& *final(pomodoro) == *old(pomodoro)
        },
        (old(status).state != TimerState::Idle && old(status).emergency_remaining > 0) ==> {
            &&& *final(status) == stopped(TimerStatus {
                emergency_remaining: (old(status).emergency_remaining - 1) as u32,
                ..*old(status)
            })
            &&& r == Ok::<TimerStatus, AppError>(*final(status))
            &&& final(pomodoro).emergency_used_count == if old(pomodoro).emergency_used_count == u32::MAX {
                u32::MAX
            } else {
                (old(pomodoro).emergency_used_count + 1) as u32
            }
            &&& (final(pomodoro).emergency_reset_month@ == calendar_month(local_secs as int)
                || final(pomodoro).emergency_reset_month@ == old(pomodoro).emergency_reset_month@)
            &&& (local_secs <= LAST_MONTH_SECS ==> final(pomodoro).emergency_reset_month@ == calendar_month(local_secs as int))
            &&& final(pomodoro).emergency_cancel_limit == old(pomodoro).emergency_cancel_limit
        },
{
    let month = pomodoro.month_or_stored(local_secs);
    emergency_cancel(status, pomodoro, month)
}

} // verus!
