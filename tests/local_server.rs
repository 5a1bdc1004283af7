use pomodoro_focus::coordination::{is_scheduled_mode, schedule_step, unblock_on_exit, OverlaySuppression, ScheduleAction};
use pomodoro_focus::local_server::LocalServer;
use pomodoro_focus::timer::TimerState;

fn names(v: &[&str]) -> Vec<String> {
    v.iter().map(|s| s.to_string()).collect()
}

#[test]
fn extract_hostname_drops_scheme_path_and_port() {
    assert_eq!(LocalServer::extract_hostname("https://www.example.com:8080/a/b"), "www.example.com");
    assert_eq!(LocalServer::extract_hostname(" example.com/ "), "example.com");
    assert_eq!(LocalServer::extract_hostname("example.com:443"), "example.com");
    assert_eq!(LocalServer::extract_hostname("http://"), "http");
}

#[test]
fn status_sites_add_www_counterparts_once() {
    let out = LocalServer::status_sites(&names(&["bilibili.com", "www.bilibili.com", "https://www.x.org/"]));
    assert_eq!(out, names(&["bilibili.com", "www.bilibili.com", "www.x.org", "x.org"]));
}

#[test]
fn suppression_generation_ignores_stale_expiry() {
    let mut s = OverlaySuppression::new();
    let t1 = s.begin();
    let t2 = s.begin();
    assert!(!s.expire(t1));
    assert!(s.suppressed);
    assert!(s.expire(t2));
    assert!(!s.suppressed);
}

#[test]
fn schedule_steps() {
    assert_eq!(schedule_step(true, false), (ScheduleAction::StartFocus, true));
    assert_eq!(schedule_step(false, true), (ScheduleAction::StopFocus, false));
    assert_eq!(schedule_step(true, true), (ScheduleAction::Nothing, true));
}

#[test]
fn exit_unblocks_only_when_idle() {
    assert!(unblock_on_exit(TimerState::Idle));
    assert!(!unblock_on_exit(TimerState::Working));
    assert!(!unblock_on_exit(TimerState::Paused));
    assert!(is_scheduled_mode("scheduled"));
    assert!(!is_scheduled_mode("manual"));
}
