use gatekeeper::threat::{apply_feed, parse_feed, FeedUpdate, ThreatData};

#[test]
fn feed_lines_are_trimmed_and_filtered() {
    let body = "# list\n1.2.3.4\r\n\n  5.6.7.8  \n#x\n\t\n9.9.9.9";
    assert_eq!(parse_feed(body), vec!["1.2.3.4", "5.6.7.8", "9.9.9.9"]);
    assert!(parse_feed("").is_empty());
    assert_eq!(parse_feed("a\n"), vec!["a"]);
}

#[test]
fn feeds_replace_their_own_list() {
    let mut t = ThreatData::new();
    let ips = vec!["1.1.1.1".to_string(), "2.2.2.2".to_string(), "1.1.1.1".to_string()];
    assert_eq!(apply_feed(&mut t, "ip", &ips), FeedUpdate::Ips);
    assert_eq!(t.ip_count(), 2);
    assert!(t.is_ip_blocked("2.2.2.2"));
    let uas = vec!["bot".to_string(), "bot".to_string()];
    assert_eq!(apply_feed(&mut t, "user_agent", &uas), FeedUpdate::UserAgents);
    assert_eq!(t.user_agent_count(), 1);
    assert!(t.is_ua_blocked("superbot/1"));
    assert_eq!(apply_feed(&mut t, "domain", &ips), FeedUpdate::UnknownType);
    assert_eq!(apply_feed(&mut t, "ip", &vec!["3.3.3.3".to_string()]), FeedUpdate::Ips);
    assert!(!t.is_ip_blocked("2.2.2.2"));
    assert!(t.is_ua_blocked("bot"));
    t.clear();
    assert_eq!(t.ip_count() + t.user_agent_count(), 0);
}
