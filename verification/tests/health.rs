use sheet_music_browsarr::sources::health::{
    new, record_err, record_ok, snapshot, SourceHealth, DEGRADED_THRESHOLD,
};

#[test]
fn ok_then_err_resets_consecutive() {
    let mut h = SourceHealth::default();
    h.record_ok();
    h.record_ok();
    assert_eq!(h.consecutive_oks, 2);
    h.record_err("boom");
    assert_eq!(h.consecutive_oks, 0);
    assert_eq!(h.consecutive_fails, 1);
    assert!(!h.is_degraded());
}

#[test]
fn degraded_after_threshold_fails() {
    let mut h = SourceHealth::default();
    for _ in 0..DEGRADED_THRESHOLD {
        h.record_err("boom");
    }
    assert!(h.is_degraded());
    h.record_ok();
    assert!(!h.is_degraded());
}

#[test]
fn err_message_truncated() {
    let mut h = SourceHealth::default();
    let long = "x".repeat(10_000);
    h.record_err(&long);
    let stored = h.last_error_msg.unwrap();
    assert!(stored.chars().count() <= 501); // 500 + ellipsis
    assert!(stored.ends_with('…'));
}

#[test]
fn snapshot_is_sorted_and_stable() {
    let map = new(&["zeta", "alpha", "mu"]);
    let snap = snapshot(&map);
    let ids: Vec<&str> = snap.iter().map(|(k, _)| *k).collect();
    assert_eq!(ids, vec!["alpha", "mu", "zeta"]);
}

#[test]
fn short_messages_are_kept_whole() {
    let mut h = SourceHealth::default();
    let exact = "é".repeat(500);
    h.record_err(&exact);
    assert_eq!(h.last_error_msg.as_deref(), Some(exact.as_str()));
    assert_eq!(h.total_fail, 1);
    assert!(h.last_error_at.is_some());
    assert!(h.last_ok.is_none());
}

#[test]
fn instants_are_noted() {
    let mut h = SourceHealth::default();
    h.record_ok_at(5);
    h.record_err_at("x", 7);
    assert_eq!(h.last_ok, Some(5));
    assert_eq!(h.last_error_at, Some(7));
    h.record_ok();
    // after the start of 2024
    assert!(h.last_ok.unwrap() > 1_704_067_200_000_000_000);
}

#[test]
fn counts_stop_at_their_top() {
    let mut h = SourceHealth::default();
    h.consecutive_fails = u32::MAX;
    h.total_fail = u64::MAX;
    h.record_err_at("x", 1);
    assert_eq!(h.consecutive_fails, u32::MAX);
    assert_eq!(h.total_fail, u64::MAX);
}

#[test]
fn maps_follow_their_sources() {
    let mut map = new(&["b", "a", "b"]);
    record_ok(&mut map, "a");
    record_err(&mut map, "b", "down");
    record_err(&mut map, "c", "not listed");
    let snap = snapshot(&map);
    assert_eq!(snap.len(), 2);
    assert_eq!((snap[0].0, snap[0].1.total_ok, snap[0].1.total_fail), ("a", 1, 0));
    assert_eq!((snap[1].0, snap[1].1.total_ok, snap[1].1.total_fail), ("b", 0, 1));
    assert_eq!(snap[1].1.last_error_msg.as_deref(), Some("down"));
}

#[test]
fn degraded_by_a_row_of_failures_in_any_sequence() {
    // Every sequence of ten outcomes, a one bit being a failure.
    for bits in 0..1024u32 {
        let mut h = SourceHealth::default();
        let mut row = 0;
        for i in 0..10 {
            if bits >> i & 1 == 1 {
                h.record_err_at("boom", i);
                row += 1;
            } else {
                h.record_ok_at(i);
                row = 0;
            }
            assert_eq!(h.is_degraded(), row >= 4, "{bits:b} at {i}");
        }
    }
}
