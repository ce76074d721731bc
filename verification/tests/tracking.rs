use siteserve::config::layout_changed;
use siteserve::visits::{client_identity, hash_identity, parse_visits, VisitTracker};

#[test]
fn dedup_counting_within_window() {
    let mut tracker = VisitTracker::new(0);
    let ids = ["10.0.0.1", "10.0.0.2", "10.0.0.3"];
    for id in ids {
        tracker.record_visit(hash_identity(&id.as_bytes().to_vec()));
    }
    assert_eq!(tracker.current_visits(), 3);
    for id in ids {
        tracker.record_visit(hash_identity(&id.as_bytes().to_vec()));
    }
    assert_eq!(tracker.current_visits(), 3);
}

#[test]
fn window_reset_counts_identity_again() {
    let mut tracker = VisitTracker::new(10);
    let h = hash_identity(&b"203.0.113.7".to_vec());
    tracker.record_visit(h);
    assert_eq!(tracker.current_visits(), 11);
    tracker.record_visit(h);
    assert_eq!(tracker.current_visits(), 11);
    tracker.reset_window();
    tracker.record_visit(h);
    assert_eq!(tracker.current_visits(), 12);
}

#[test]
fn persistence_only_on_change() {
    let mut tracker = VisitTracker::new(5);
    assert!(!tracker.needs_persist());
    tracker.record_visit(hash_identity(&b"one".to_vec()));
    assert!(tracker.needs_persist());
    tracker.mark_persisted();
    assert!(!tracker.needs_persist());
}

#[test]
fn counter_parse_accepts_trimmed_decimal() {
    assert_eq!(parse_visits(&b"42".to_vec()), 42);
    assert_eq!(parse_visits(&b"  120\n".to_vec()), 120);
    assert_eq!(parse_visits(&b"0".to_vec()), 0);
    assert_eq!(parse_visits(&b"+42".to_vec()), 42);
    assert_eq!(parse_visits(&b" +7 ".to_vec()), 7);
}

#[test]
fn counter_parse_defaults_to_zero() {
    assert_eq!(parse_visits(&b"".to_vec()), 0);
    assert_eq!(parse_visits(&b"  \n".to_vec()), 0);
    assert_eq!(parse_visits(&b"12a".to_vec()), 0);
    assert_eq!(parse_visits(&b"-3".to_vec()), 0);
    assert_eq!(parse_visits(&b"+".to_vec()), 0);
    assert_eq!(parse_visits(&b"++3".to_vec()), 0);
    assert_eq!(parse_visits(&b"99999999999999999999999999".to_vec()), 0);
}

#[test]
fn identity_prefers_forwarded_header_only_when_trusted() {
    let header = Some(b"198.51.100.9".to_vec());
    let remote = b"192.0.2.1".to_vec();
    assert_eq!(
        client_identity(true, header.clone(), remote.clone()),
        b"198.51.100.9".to_vec()
    );
    assert_eq!(
        client_identity(false, header, remote.clone()),
        b"192.0.2.1".to_vec()
    );
    assert_eq!(client_identity(true, None, remote.clone()), remote);
}

#[test]
fn identity_hash_is_stable_and_split_by_identity() {
    let a1 = hash_identity(&b"10.1.1.1".to_vec());
    let a2 = hash_identity(&b"10.1.1.1".to_vec());
    let b = hash_identity(&b"10.1.1.2".to_vec());
    assert_eq!(a1, a2);
    assert_ne!(a1, b);
}

#[test]
fn layout_poll_replaces_only_on_difference() {
    let current = Some(b"A{{outlet}}B".to_vec());
    assert!(!layout_changed(&current, &b"A{{outlet}}B".to_vec()));
    assert!(layout_changed(&current, &b"C{{outlet}}D".to_vec()));
    assert!(layout_changed(&None, &b"A{{outlet}}B".to_vec()));
}
