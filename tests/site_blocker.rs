use pomodoro_focus::site_blocker::{SiteBlocker, BLOCK_MARKER_END, BLOCK_MARKER_START};
use pomodoro_focus::AppError;

fn names(v: &[&str]) -> Vec<String> {
    v.iter().map(|s| s.to_string()).collect()
}

#[test]
fn clean_domain_strips_scheme_path_and_case() {
    assert_eq!(SiteBlocker::clean_domain("https://WWW.Example.com/"), "www.example.com");
    assert_eq!(SiteBlocker::clean_domain("  http://news.example.com/a/b?c=1 "), "news.example.com");
    assert_eq!(SiteBlocker::clean_domain("example.com"), "example.com");
    assert_eq!(SiteBlocker::clean_domain("Example.COM///"), "example.com");
    assert_eq!(SiteBlocker::clean_domain("   "), "");
    assert_eq!(SiteBlocker::clean_domain("https:// a.com"), "a.com");
    assert_eq!(SiteBlocker::clean_domain("a.com /path"), "a.com");
    assert_eq!(SiteBlocker::clean_domain("a.com\u{3000}"), "a.com");
}

#[test]
fn normalization_gives_the_same_pair() {
    let a = SiteBlocker::target_domains(&names(&["https://WWW.Example.com/"])).0;
    let b = SiteBlocker::target_domains(&names(&["example.com"])).0;
    let mut a_sorted = a.clone();
    a_sorted.sort();
    let mut b_sorted = b.clone();
    b_sorted.sort();
    assert_eq!(a_sorted, names(&["example.com", "www.example.com"]));
    assert_eq!(a_sorted, b_sorted);
    let once = SiteBlocker::clean_domain("https://WWW.Example.com/");
    assert_eq!(SiteBlocker::clean_domain(&once), once);
}

#[test]
fn www_variant_toggles() {
    assert_eq!(SiteBlocker::www_variant("www.example.com"), "example.com");
    assert_eq!(SiteBlocker::www_variant("example.com"), "www.example.com");
}

#[test]
fn target_domains_skip_empty_and_avoid_duplicate_siblings() {
    let (domains, lookups) = SiteBlocker::target_domains(&names(&["bilibili.com", "www.bilibili.com", "", "https://x.org/p"]));
    assert_eq!(domains, names(&["bilibili.com", "www.bilibili.com", "x.org", "www.x.org"]));
    let (domains, _) = SiteBlocker::target_domains(&names(&["a.com", "A.com/x", "www.a.com"]));
    assert_eq!(domains, names(&["a.com", "www.a.com"]));
    assert_eq!(lookups, names(&["bilibili.com", "www.bilibili.com", "x.org"]));
    let (domains, lookups) = SiteBlocker::target_domains(&Vec::new());
    assert!(domains.is_empty());
    assert!(lookups.is_empty());
}

#[test]
fn hosts_section_maps_each_domain_twice() {
    let out = SiteBlocker::hosts_with_block("127.0.0.1 localhost", &names(&["a.com", "www.a.com"]));
    let expected = format!(
        "127.0.0.1 localhost\n{}\n0.0.0.0 a.com\n127.0.0.1 a.com\n0.0.0.0 www.a.com\n127.0.0.1 www.a.com\n{}\n",
        BLOCK_MARKER_START, BLOCK_MARKER_END
    );
    assert_eq!(out, expected);
}

#[test]
fn unblock_after_block_restores_the_hosts_file() {
    let before = "127.0.0.1 localhost\n# user entry\n10.0.0.1 intranet\n";
    for list in [names(&["a.com", "www.a.com"]), Vec::new(), names(&["a#b.com"])] {
        let base = SiteBlocker::remove_block_section(before);
        let blocked = SiteBlocker::hosts_with_block(&base, &list);
        assert!(SiteBlocker::has_block_markers(&blocked));
        let restored = SiteBlocker::unblock_content(&blocked).unwrap();
        assert_eq!(restored.trim_end(), before.trim_end());
    }
}

#[test]
fn remove_block_section_keeps_lines_outside_markers() {
    let text = format!("a\r\n{}\nx\ny\n{}\nb\n", BLOCK_MARKER_START, BLOCK_MARKER_END);
    assert_eq!(SiteBlocker::remove_block_section(&text), "a\nb");
    assert_eq!(SiteBlocker::remove_block_section(""), "");
    assert_eq!(SiteBlocker::remove_block_section("a\n\nb"), "a\n\nb");
}

#[test]
fn unblock_content_none_without_markers() {
    assert!(SiteBlocker::unblock_content("127.0.0.1 localhost\n").is_none());
    assert!(!SiteBlocker::has_block_markers("127.0.0.1 localhost\n"));
}

#[test]
fn pf_rules_one_line_per_address() {
    let r = SiteBlocker::generate_pf_rules(&names(&["1.2.3.4", "5.6.7.8"]));
    assert_eq!(
        r,
        "# Pomodoro Focus - Site Blocking Rules\nblock drop out proto tcp from any to 1.2.3.4 port {80, 443}\nblock drop out proto tcp from any to 5.6.7.8 port {80, 443}\n"
    );
    assert_eq!(SiteBlocker::generate_pf_rules(&Vec::new()), "# Pomodoro Focus - Site Blocking Rules\n");
}

#[test]
fn merge_addresses_keeps_each_once() {
    let mut ips = names(&["1.1.1.1"]);
    SiteBlocker::merge_addresses(&mut ips, &names(&["2.2.2.2", "1.1.1.1", "2.2.2.2"]));
    assert_eq!(ips, names(&["1.1.1.1", "2.2.2.2"]));
}

#[test]
fn block_outcome_distinguishes_cancellation() {
    assert!(SiteBlocker::block_outcome(true, "").is_ok());
    assert!(SiteBlocker::block_outcome(false, "some warning").is_ok());
    assert!(matches!(
        SiteBlocker::block_outcome(false, "execution error: User cancelled. (-128)"),
        Err(AppError::PermissionDenied(_))
    ));
    assert!(matches!(SiteBlocker::block_outcome(false, "error (-128)"), Err(AppError::PermissionDenied(_))));
}

#[test]
fn site_list_round_trip() {
    let mut b = SiteBlocker::new(names(&["a.com"]));
    assert_eq!(b.get_blocked_sites(), &names(&["a.com"]));
    b.update_blocked_sites(Vec::new());
    assert!(b.get_blocked_sites().is_empty());
}

#[test]
fn section_with_any_body_is_removed() {
    let base = "127.0.0.1 localhost\n\n# mine\n10.0.0.2 nas";
    for body in ["", "anything at all\n", "0.0.0.0 x\nfree text # here\n"] {
        let text = format!("{}\n{}\n{}{}\n", base, BLOCK_MARKER_START, body, BLOCK_MARKER_END);
        assert_eq!(SiteBlocker::remove_block_section(&text), base);
    }
}
