use pomodoro_focus::config::{default_last_focus_duration, default_play_completion_sound, month_at, Config, PomodoroConfig, Schedule};
use pomodoro_focus::focus::{emergency_cancel_now, plan_focus_now};
use pomodoro_focus::scheduler::{minute_of_day_at, Scheduler};
use pomodoro_focus::session::FocusSession;
use pomodoro_focus::timer::{TimerState, TimerStatus};

#[test]
fn default_config_values() {
    let c = Config::default();
    assert_eq!(c.pomodoro.work_minutes, 25);
    assert_eq!(c.pomodoro.break_minutes, 5);
    assert_eq!(c.pomodoro.emergency_cancel_limit, 2);
    assert_eq!(c.blocked_apps, vec!["bilibili".to_string(), "QQ".to_string()]);
    assert_eq!(c.blocked_sites.len(), 19);
    assert_eq!(c.schedules.len(), 3);
    assert!(!c.schedules[2].enabled);
    assert_eq!(c.mode, "manual");
    assert!(c.play_completion_sound);
    assert!(c.custom_bg_path.is_none());
    assert!(default_play_completion_sound());
    assert_eq!(default_last_focus_duration(), 25);
}

#[test]
fn paths_live_under_the_home_directory() {
    if let Ok(p) = Config::config_path() {
        assert!(p.ends_with("/Library/Application Support/pomodoro-focus/config.json"));
    }
    if let Ok(p) = FocusSession::session_path() {
        assert!(p.ends_with("/Library/Application Support/pomodoro-focus/session.json"));
    }
    if let Ok(p) = Config::config_dir() {
        assert!(p.ends_with("/pomodoro-focus"));
    }
}

#[test]
fn monthly_quota_in_a_past_month_restarts() {
    let mut p = PomodoroConfig {
        work_minutes: 25,
        break_minutes: 5,
        emergency_cancel_limit: 2,
        last_focus_duration: 25,
        emergency_used_count: 2,
        emergency_reset_month: "1999-01".to_string(),
    };
    // 2024-05-18 03:20 local time
    assert_eq!(p.get_monthly_emergency_remaining(1_716_002_400), 2);
    assert_eq!(p.emergency_used_count, 0);
    assert_eq!(p.emergency_reset_month, "2024-05");
    assert_eq!(p.month_or_stored(1_716_002_400), "2024-05");
    assert_eq!(p.get_monthly_emergency_remaining(1_716_002_400), 2);
    let plan = plan_focus_now(&mut p, Some(10), None, 1_716_002_400);
    assert_eq!(plan.work_minutes, 10);
    assert_eq!(plan.emergency_remaining, 2);
}

#[test]
fn monthly_quota_same_month_keeps_count() {
    let mut p = PomodoroConfig {
        work_minutes: 25,
        break_minutes: 5,
        emergency_cancel_limit: 2,
        last_focus_duration: 25,
        emergency_used_count: 1,
        emergency_reset_month: "2024-05".to_string(),
    };
    assert_eq!(p.monthly_remaining_in("2024-05".to_string()), 1);
    assert_eq!(p.monthly_remaining_in("2024-06".to_string()), 2);
    p.emergency_used_count = 5;
    assert_eq!(p.monthly_remaining_in("2024-06".to_string()), 0);
}

#[test]
fn cancel_now_records_the_current_month() {
    let mut p = PomodoroConfig {
        work_minutes: 25,
        break_minutes: 5,
        emergency_cancel_limit: 2,
        last_focus_duration: 25,
        emergency_used_count: 0,
        emergency_reset_month: "1999-01".to_string(),
    };
    let mut s = TimerStatus { state: TimerState::Breaking, remaining_seconds: 5, total_seconds: 300, emergency_remaining: 1, previous_state: None, work_minutes: 25, break_minutes: 5 };
    let r = emergency_cancel_now(&mut s, &mut p, 0).unwrap();
    assert_eq!(r.emergency_remaining, 0);
    assert_eq!(r.state, TimerState::Idle);
    assert_eq!(p.emergency_used_count, 1);
    assert_eq!(p.emergency_reset_month, "1970-01");
}

#[test]
fn month_past_chrono_range_keeps_the_stored_one() {
    let p = PomodoroConfig {
        work_minutes: 25,
        break_minutes: 5,
        emergency_cancel_limit: 2,
        last_focus_duration: 25,
        emergency_used_count: 1,
        emergency_reset_month: "2024-05".to_string(),
    };
    assert_eq!(month_at(u64::MAX), None);
    assert_eq!(p.month_or_stored(u64::MAX), "2024-05");
    assert_eq!(month_at(0), Some("1970-01".to_string()));
    assert_eq!(month_at(253_402_300_799), Some("9999-12".to_string()));
    assert_eq!(p.month_or_stored(1_716_002_400), "2024-05");
}

#[test]
fn home_relative_paths() {
    assert_eq!(Config::config_dir_in("/Users/a"), "/Users/a/Library/Application Support/pomodoro-focus");
    assert_eq!(Config::config_path_in("/Users/a"), "/Users/a/Library/Application Support/pomodoro-focus/config.json");
    assert_eq!(FocusSession::session_path_in("/Users/a"), "/Users/a/Library/Application Support/pomodoro-focus/session.json");
}

#[test]
fn schedule_queries_on_the_clock() {
    let s = Scheduler::new(Vec::new());
    assert!(!s.is_in_scheduled_time(36_000));
    assert_eq!(s.get_next_scheduled_start(36_000), None);
    assert_eq!(s.get_current_schedule_end(36_000), None);
    let w = Schedule { enabled: true, start: "09:00".to_string(), end: "12:00".to_string() };
    let s = Scheduler::new(vec![w.clone()]);
    // 10:00 on the second day
    assert!(s.is_in_scheduled_time(86_400 + 36_000));
    assert!(Scheduler::is_in_schedule_static(&vec![w], 86_400 + 36_000));
    assert_eq!(s.get_current_schedule_end(86_400 + 36_000), Some("12:00".to_string()));
    assert_eq!(s.get_next_scheduled_start(8 * 3600), Some("09:00".to_string()));
    assert!(!s.is_in_scheduled_time(12 * 3600));
    assert_eq!(minute_of_day_at(86_400 + 3_600 + 59), 60);
}
