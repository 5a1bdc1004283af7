use pomodoro_focus::config::Schedule;
use pomodoro_focus::scheduler::{clock_text, parse_u32, Scheduler};
use pomodoro_focus::AppError;

fn window(enabled: bool, start: &str, end: &str) -> Schedule {
    Schedule { enabled, start: start.to_string(), end: end.to_string() }
}

#[test]
fn parse_time_reads_hours_and_minutes() {
    assert_eq!(Scheduler::parse_time_static("09:30").unwrap(), 570);
    assert_eq!(Scheduler::parse_time_static("0:0").unwrap(), 0);
    assert_eq!(Scheduler::parse_time_static("23:59").unwrap(), 1439);
    assert_eq!(Scheduler::parse_time_static("+7:05").unwrap(), 425);
}

#[test]
fn parse_time_rejects_bad_text() {
    for bad in ["24:00", "12:60", "1230", "12:30:00", "ab:cd", ":30", "12:", "-1:00", "99999999999:00"] {
        assert!(matches!(Scheduler::parse_time_static(bad), Err(AppError::ConfigError(_))), "{}", bad);
    }
}

#[test]
fn parse_u32_like_std() {
    assert_eq!(parse_u32("4294967295"), Some(u32::MAX));
    assert_eq!(parse_u32("4294967296"), None);
    assert_eq!(parse_u32("+12"), Some(12));
    assert_eq!(parse_u32("+"), None);
    assert_eq!(parse_u32(""), None);
    assert_eq!(parse_u32("007"), Some(7));
}

#[test]
fn windows_hold_from_start_to_before_end() {
    let ss = vec![window(true, "09:00", "12:00"), window(false, "13:00", "14:00")];
    assert!(Scheduler::is_in_schedule_at(&ss, 540));
    assert!(Scheduler::is_in_schedule_at(&ss, 719));
    assert!(!Scheduler::is_in_schedule_at(&ss, 720));
    assert!(!Scheduler::is_in_schedule_at(&ss, 800));
    assert!(!Scheduler::is_in_schedule_at(&Vec::new(), 800));
}

#[test]
fn next_start_is_the_earliest_later_start() {
    let ss = vec![window(true, "14:00", "17:00"), window(true, "09:00", "12:00"), window(false, "10:00", "11:00")];
    assert_eq!(Scheduler::next_start_at(&ss, 480), Some(540));
    assert_eq!(Scheduler::next_start_at(&ss, 600), Some(840));
    assert_eq!(Scheduler::next_start_at(&ss, 900), None);
    assert_eq!(clock_text(540), "09:00");
    assert_eq!(clock_text(1439), "23:59");
}

#[test]
fn current_end_is_the_first_holding_window() {
    let ss = vec![window(true, "09:00", "12:00"), window(true, "10:00", "13:00")];
    assert_eq!(Scheduler::current_end_at(&ss, 630), Some("12:00".to_string()));
    assert_eq!(Scheduler::current_end_at(&ss, 750), Some("13:00".to_string()));
    assert_eq!(Scheduler::current_end_at(&ss, 800), None);
}

#[test]
fn scheduler_list_round_trip() {
    let mut s = Scheduler::new(Vec::new());
    assert!(s.get_schedules().is_empty());
    s.update_schedules(vec![window(true, "09:00", "10:00")]);
    assert_eq!(s.get_schedules().len(), 1);
}
