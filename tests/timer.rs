use pomodoro_focus::config::PomodoroConfig;
use pomodoro_focus::focus::{
    emergency_cancel, pause_focus, plan_focus, restore_focus, resume_focus, start_focus,
    stop_focus, RestorePlan, StartPlan,
};
use pomodoro_focus::session::{FocusSession, Recovery};
use pomodoro_focus::timer::{tick, PhaseClock, TickOutcome, TimerState, TimerStatus};
use pomodoro_focus::AppError;

fn pomodoro(month: &str, used: u32) -> PomodoroConfig {
    PomodoroConfig {
        work_minutes: 25,
        break_minutes: 5,
        emergency_cancel_limit: 2,
        last_focus_duration: 25,
        emergency_used_count: used,
        emergency_reset_month: month.to_string(),
    }
}

fn working(remaining: u32, emergency: u32) -> TimerStatus {
    TimerStatus {
        state: TimerState::Working,
        remaining_seconds: remaining,
        total_seconds: 1500,
        emergency_remaining: emergency,
        previous_state: None,
        work_minutes: 25,
        break_minutes: 5,
    }
}

#[test]
fn state_labels() {
    assert_eq!(TimerState::Idle.as_str(), "idle");
    assert_eq!(TimerState::Working.as_str(), "working");
    assert_eq!(TimerState::Breaking.as_str(), "break");
    assert_eq!(TimerState::Paused.as_str(), "paused");
    assert_eq!(TimerState::default(), TimerState::Idle);
}

#[test]
fn default_status() {
    let s = TimerStatus::default();
    assert_eq!(s, TimerStatus::new_with_config(25, 5, 2));
    assert_eq!(s.state, TimerState::Idle);
    assert_eq!(s.emergency_remaining, 2);
}

#[test]
fn plan_uses_explicit_or_configured_length() {
    let mut p = pomodoro("2024-05", 1);
    let plan = plan_focus(&mut p, Some(50), Some(30), "2024-05".to_string());
    assert_eq!(plan, StartPlan { work_minutes: 50, extra_seconds: 30, break_minutes: 5, emergency_remaining: 1 });
    assert_eq!(p.last_focus_duration, 50);
    let plan = plan_focus(&mut p, None, None, "2024-05".to_string());
    assert_eq!(plan.work_minutes, 25);
    assert_eq!(plan.extra_seconds, 0);
}

#[test]
fn quota_resets_in_a_new_month() {
    let mut p = pomodoro("2024-04", 2);
    let plan = plan_focus(&mut p, None, None, "2024-05".to_string());
    assert_eq!(plan.emergency_remaining, 2);
    assert_eq!(p.emergency_used_count, 0);
    assert_eq!(p.emergency_reset_month, "2024-05");
}

#[test]
fn start_arms_working_phase_and_session_times() {
    let mut s = TimerStatus::default();
    let plan = StartPlan { work_minutes: 25, extra_seconds: 0, break_minutes: 5, emergency_remaining: 2 };
    let session = start_focus(&mut s, plan, 1_000_000).unwrap();
    assert_eq!(s.state, TimerState::Working);
    assert_eq!(s.remaining_seconds, 1500);
    assert_eq!(s.total_seconds, 1500);
    assert_eq!(session.state, "working");
    assert_eq!(session.work_end_time, 1_001_500);
    assert_eq!(session.break_end_time, 1_001_800);
    assert!(session.work_end_time < session.break_end_time);
}

#[test]
fn start_refuses_a_length_past_u32() {
    let mut s = TimerStatus::default();
    let plan = StartPlan { work_minutes: u32::MAX, extra_seconds: 0, break_minutes: 5, emergency_remaining: 2 };
    assert!(matches!(start_focus(&mut s, plan, 0), Err(AppError::TimerError(_))));
    assert_eq!(s, TimerStatus::default());
}

#[test]
fn start_refuses_a_zero_break() {
    let mut s = TimerStatus::default();
    let plan = StartPlan { work_minutes: 25, extra_seconds: 0, break_minutes: 0, emergency_remaining: 2 };
    assert!(matches!(start_focus(&mut s, plan, 0), Err(AppError::TimerError(_))));
    assert_eq!(s, TimerStatus::default());
}

#[test]
fn natural_run_goes_working_breaking_idle() {
    let mut s = TimerStatus::default();
    let plan = StartPlan { work_minutes: 1, extra_seconds: 0, break_minutes: 1, emergency_remaining: 2 };
    start_focus(&mut s, plan, 0).unwrap();
    let mut c = PhaseClock::starting(0, s.remaining_seconds);
    assert_eq!(tick(&mut s, &mut c, 500, false, false), TickOutcome::Update);
    assert_eq!(s.remaining_seconds, 59);
    assert_eq!(tick(&mut s, &mut c, 30_000, false, false), TickOutcome::Update);
    assert_eq!(s.remaining_seconds, 30);
    assert_eq!(tick(&mut s, &mut c, 60_000, false, false), TickOutcome::WorkComplete);
    assert_eq!(s.state, TimerState::Breaking);
    assert_eq!(s.remaining_seconds, 60);
    assert_eq!(c.end_ms, 120_000);
    assert_eq!(tick(&mut s, &mut c, 90_500, false, false), TickOutcome::Update);
    assert_eq!(s.remaining_seconds, 29);
    assert_eq!(tick(&mut s, &mut c, 121_000, false, false), TickOutcome::BreakComplete);
    assert_eq!(s.state, TimerState::Idle);
    assert_eq!(s.remaining_seconds, 0);
    assert_eq!(tick(&mut s, &mut c, 121_500, false, false), TickOutcome::Halt);
}

#[test]
fn stop_signal_halts_without_change() {
    let mut s = working(100, 2);
    let mut c = PhaseClock::starting(0, 100);
    assert_eq!(tick(&mut s, &mut c, 10_000, true, false), TickOutcome::Halt);
    assert_eq!(s, working(100, 2));
}

#[test]
fn pause_then_resume_keeps_remaining_time() {
    let mut s = working(1500, 2);
    let mut c = PhaseClock::starting(0, 1500);
    assert_eq!(tick(&mut s, &mut c, 100_000, false, false), TickOutcome::Update);
    assert_eq!(s.remaining_seconds, 1400);
    pause_focus(&mut s).unwrap();
    assert_eq!(tick(&mut s, &mut c, 100_000, false, true), TickOutcome::Hold);
    assert_eq!(tick(&mut s, &mut c, 5_000_000, false, true), TickOutcome::Hold);
    resume_focus(&mut s).unwrap();
    assert_eq!(tick(&mut s, &mut c, 9_000_000, false, false), TickOutcome::Update);
    assert_eq!(s.remaining_seconds, 1400);
    assert_eq!(s.state, TimerState::Working);
}

#[test]
fn pause_and_resume_refusals() {
    let mut idle = TimerStatus::default();
    assert!(matches!(pause_focus(&mut idle), Err(AppError::TimerError(_))));
    assert!(matches!(resume_focus(&mut idle), Err(AppError::TimerError(_))));
    let mut s = working(10, 2);
    assert!(matches!(resume_focus(&mut s), Err(AppError::TimerError(_))));
    let p = pause_focus(&mut s).unwrap();
    assert_eq!(p.state, TimerState::Paused);
    assert_eq!(p.previous_state, Some(TimerState::Working));
    assert!(matches!(pause_focus(&mut s), Err(AppError::TimerError(_))));
    let r = resume_focus(&mut s).unwrap();
    assert_eq!(r.state, TimerState::Working);
    assert_eq!(r.previous_state, None);
}

#[test]
fn stop_resets_to_idle() {
    let mut s = working(10, 1);
    let r = stop_focus(&mut s);
    assert_eq!(r.state, TimerState::Idle);
    assert_eq!(r.remaining_seconds, 0);
    assert_eq!(r.total_seconds, 0);
    assert_eq!(r.emergency_remaining, 1);
}

#[test]
fn cancel_with_override_uses_exactly_one() {
    let mut s = working(10, 2);
    let mut p = pomodoro("2024-05", 0);
    let r = emergency_cancel(&mut s, &mut p, "2024-05".to_string()).unwrap();
    assert_eq!(r.emergency_remaining, 1);
    assert_eq!(r.state, TimerState::Idle);
    assert_eq!(p.emergency_used_count, 1);
}

#[test]
fn cancel_without_quota_changes_nothing() {
    let mut s = working(10, 0);
    let mut p = pomodoro("2024-05", 2);
    assert!(matches!(emergency_cancel(&mut s, &mut p, "2024-05".to_string()), Err(AppError::TimerError(_))));
    assert_eq!(s, working(10, 0));
    assert_eq!(p.emergency_used_count, 2);
    let mut idle = TimerStatus::default();
    assert!(emergency_cancel(&mut idle, &mut p, "2024-05".to_string()).is_err());
}

fn session(work_end: u64, break_end: u64) -> FocusSession {
    FocusSession {
        state: "working".to_string(),
        work_end_time: work_end,
        break_end_time: break_end,
        work_minutes: 25,
        break_minutes: 5,
        emergency_remaining: 1,
    }
}

#[test]
fn recovery_in_break_phase() {
    let s = session(1000, 1300);
    match s.recover(1100) {
        Recovery::Resume(st) => {
            assert_eq!(st.state, TimerState::Breaking);
            assert_eq!(st.remaining_seconds, 200);
            assert_eq!(st.total_seconds, 300);
            assert_eq!(st.emergency_remaining, 1);
        }
        Recovery::Expired => panic!("session should resume"),
    }
}

#[test]
fn recovery_in_work_phase() {
    let s = session(1000, 1300);
    match s.recover(400) {
        Recovery::Resume(st) => {
            assert_eq!(st.state, TimerState::Working);
            assert_eq!(st.remaining_seconds, 600);
            assert_eq!(st.total_seconds, 1500);
        }
        Recovery::Expired => panic!("session should resume"),
    }
}

#[test]
fn recovery_of_expired_session_restores_nothing() {
    let s = session(1000, 1300);
    assert_eq!(s.recover(1300), Recovery::Expired);
    let mut st = TimerStatus::default();
    assert_eq!(restore_focus(&Some(s), 2000, false, &mut st), RestorePlan::Expire);
    assert_eq!(st, TimerStatus::default());
}

#[test]
fn restore_reblocks_only_without_markers() {
    let mut st = TimerStatus::default();
    assert_eq!(restore_focus(&Some(session(1000, 1300)), 1100, false, &mut st), RestorePlan::Resume { reblock: true });
    assert_eq!(st.state, TimerState::Breaking);
    let mut st = TimerStatus::default();
    assert_eq!(restore_focus(&Some(session(1000, 1300)), 1100, true, &mut st), RestorePlan::Resume { reblock: false });
    let mut st = TimerStatus::default();
    assert_eq!(restore_focus(&None, 1100, true, &mut st), RestorePlan::Nothing);
}
