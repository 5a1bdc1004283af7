use pomodoro_focus::app_blocker::{should_show_overlay, AppBlocker, KillTracker, KillVerdict};

fn names(v: &[&str]) -> Vec<String> {
    v.iter().map(|s| s.to_string()).collect()
}

#[test]
fn test_system_protected() {
    assert!(AppBlocker::is_system_protected("com.apple.Safari"));
    assert!(AppBlocker::is_system_protected("Finder"));
    assert!(AppBlocker::is_system_protected("pomodoro-focus"));
    assert!(!AppBlocker::is_system_protected("bilibili"));
    assert!(!AppBlocker::is_system_protected("QQ"));
}

#[test]
fn finder_is_protected_whatever_the_blocklist() {
    assert!(AppBlocker::is_system_protected("com.apple.Finder"));
    assert!(AppBlocker::is_system_protected("WindowServer"));
    assert!(AppBlocker::is_system_protected("launchd"));
}

#[test]
fn helper_process_of_qq_is_not_matched() {
    let cands = AppBlocker::candidate_names("QQ", None);
    assert_eq!(cands, names(&["qq"]));
    assert!(!AppBlocker::is_blocked_process("qqmusichelper", &cands));
    assert!(!AppBlocker::is_blocked_process("qq helper", &cands));
    assert!(AppBlocker::is_blocked_process("qq", &cands));
}

#[test]
fn helper_suffixes_are_never_matched() {
    let cands = names(&["bilibili"]);
    assert!(!AppBlocker::is_blocked_process("bilibili helper", &cands));
    assert!(!AppBlocker::is_blocked_process("bilibili_renderer", &cands));
    assert!(!AppBlocker::is_blocked_process("bilibili-gpu", &cands));
    assert!(!AppBlocker::is_blocked_process("bilibili-plugin", &cands));
    assert!(AppBlocker::is_blocked_process("bilibili", &cands));
    assert!(AppBlocker::is_blocked_process("bilibili launcher", &cands));
}

#[test]
fn unseparated_helper_words_are_excluded() {
    let cands = names(&["qqmusic"]);
    assert!(!AppBlocker::is_blocked_process("qqmusichelper", &cands));
    assert!(!AppBlocker::is_blocked_process("qqmusicrenderer", &cands));
    assert!(!AppBlocker::is_blocked_process("qqmusicgpu", &cands));
    assert!(!AppBlocker::is_blocked_process("qqmusicutility", &cands));
    assert!(!AppBlocker::is_blocked_process("qqmusicplugin", &cands));
    assert!(AppBlocker::is_blocked_process("qqmusic", &cands));
}

#[test]
fn short_candidates_match_only_exactly() {
    let cands = names(&["qq"]);
    assert!(!AppBlocker::is_blocked_process("qqmusic", &cands));
    let cands = names(&["wechat"]);
    assert!(AppBlocker::is_blocked_process("wechatapp", &cands));
}

#[test]
fn multibyte_candidates_use_byte_length() {
    let cands = names(&["微信"]);
    assert!(AppBlocker::is_blocked_process("微信助手", &cands));
}

#[test]
fn candidate_names_add_distinct_executable() {
    let c = AppBlocker::candidate_names("Google Chrome", Some("Google Chrome".to_string()));
    assert_eq!(c, names(&["google chrome"]));
    let c = AppBlocker::candidate_names("NetEase Music", Some("NeteaseMusic".to_string()));
    assert_eq!(c, names(&["netease music", "neteasemusic"]));
}

#[test]
fn blocker_list_round_trip() {
    let mut b = AppBlocker::new(names(&["a"]));
    assert_eq!(b.get_blocked_apps(), &names(&["a"]));
    b.update_blocked_apps(names(&["b", "c"]));
    assert_eq!(b.get_blocked_apps(), &names(&["b", "c"]));
}

#[test]
fn kill_attempts_are_capped_at_three() {
    let mut t = KillTracker::new();
    assert_eq!(t.verdict(42), KillVerdict::Kill { first_sighting: true });
    assert!(!t.record_attempt(42, false));
    assert_eq!(t.verdict(42), KillVerdict::Kill { first_sighting: false });
    assert!(!t.record_attempt(42, false));
    assert!(t.record_attempt(42, false));
    assert_eq!(t.attempts(42), 3);
    assert_eq!(t.verdict(42), KillVerdict::GiveUp);
}

#[test]
fn kill_success_forgets_the_process() {
    let mut t = KillTracker::new();
    t.record_attempt(7, false);
    assert_eq!(t.attempts(7), 1);
    assert!(!t.record_attempt(7, true));
    assert_eq!(t.attempts(7), 0);
}

#[test]
fn vanished_processes_are_pruned() {
    let mut t = KillTracker::new();
    t.record_attempt(1, false);
    t.record_attempt(2, false);
    t.record_attempt(2, false);
    t.retain_seen(&vec![2, 3]);
    assert_eq!(t.attempts(1), 0);
    assert_eq!(t.attempts(2), 2);
    assert_eq!(t.attempts(3), 0);
}

#[test]
fn overlay_only_on_first_sighting_and_not_suppressed() {
    assert!(should_show_overlay(KillVerdict::Kill { first_sighting: true }, false));
    assert!(!should_show_overlay(KillVerdict::Kill { first_sighting: true }, true));
    assert!(!should_show_overlay(KillVerdict::Kill { first_sighting: false }, false));
    assert!(!should_show_overlay(KillVerdict::GiveUp, false));
}

#[test]
fn matching_pairs_skip_protected_and_follow_scan_order() {
    let procs = names(&["qq", "com.apple.qq", "bilibili", "qq helper", "finder"]);
    let entries = vec![names(&["bilibili"]), names(&["qq"]), names(&["finder"])];
    assert_eq!(AppBlocker::matching_pairs(&procs, &entries), vec![(0, 1), (2, 0)]);
    assert!(AppBlocker::matching_pairs(&Vec::new(), &entries).is_empty());
}

#[test]
fn running_name_contains_a_candidate() {
    assert!(AppBlocker::is_running_name("qqmusic", &names(&["qq"])));
    assert!(!AppBlocker::is_running_name("wechat", &names(&["qq"])));
}
