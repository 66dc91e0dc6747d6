use mention_tracker::engine::Engine;
use mention_tracker::record::RecordOutcome;

const BOT: u64 = 999;

#[test]
fn end_to_end_report_fires_once_after_interval() {
    // interval = 60 s; mentions at t=0 (author 1), t=30 (author 2),
    // t=90 (author 1): the report fires only at t=90, with counts 2 and 1.
    let mut e = Engine::new(BOT, 0, 60, 10);

    let out = e.process(1, "rust", 0).unwrap();
    assert_eq!(out.mention_count, 1);
    assert_eq!(out.record_outcome, RecordOutcome::NoPriorMention);
    assert!(out.leaderboard.is_none());
    assert!(out.record_announcement.is_none());

    let out = e.process(2, "Rust!", 30).unwrap();
    assert_eq!(out.mention_count, 1);
    assert_eq!(out.record_outcome, RecordOutcome::RecordBroken(30));
    assert!(out.leaderboard.is_none());

    let out = e.process(1, "I love rust!", 90).unwrap();
    assert_eq!(out.mention_count, 2);
    assert_eq!(out.record_outcome, RecordOutcome::RecordBroken(60));
    let lb = out.leaderboard.expect("report due at t=90");
    assert_eq!(lb.entries, vec![(1, 2), (2, 1)]);
}

#[test]
fn own_messages_are_ignored() {
    let mut e = Engine::new(BOT, 0, 60, 10);
    assert!(e.process(BOT, "rust rust rust", 5).is_none());
    assert_eq!(e.counter.count(BOT), 0);
    let out = e.process(1, "rust", 10).unwrap();
    assert_eq!(out.mention_count, 1);
}

#[test]
fn non_matching_text_changes_nothing() {
    let mut e = Engine::new(BOT, 0, 60, 10);
    assert!(e.process(1, "I trust my rusty crab", 5).is_none());
    assert_eq!(e.counter.count(1), 0);
    assert_eq!(e.tracker.last_mention_at, None);
}

#[test]
fn record_announcement_carries_rendered_text() {
    let mut e = Engine::new(BOT, 0, 3600, 10);
    let _ = e.process(1, "rust", 0);
    let out = e.process(2, "rust", 90).unwrap();
    let ann = out.record_announcement.expect("record broken at t=90");
    assert_eq!(ann.gap_secs, 90);
    assert_eq!(ann.text, "1 minute(s) and 30 second(s)");
}

#[test]
fn unbroken_record_has_no_announcement() {
    let mut e = Engine::new(BOT, 0, 3600, 10);
    let _ = e.process(1, "rust", 0);
    let _ = e.process(2, "rust", 100);
    let out = e.process(3, "rust", 150).unwrap();
    assert_eq!(out.record_outcome, RecordOutcome::RecordNotBroken(50));
    assert!(out.record_announcement.is_none());
}

#[test]
fn out_of_order_delivery_uses_arrival_order_for_serialization() {
    // Mentions arrive in the order t=0, t=10, t=5: arrival order decides
    // which mention is "previous"; the supplied timestamps provide the
    // gaps.  A timestamp behind the stored one has no gap at all, so it
    // sets no record and the best gap stays where it was.
    let mut e = Engine::new(BOT, 0, 3600, 10);
    let out = e.process(1, "rust", 0).unwrap();
    assert_eq!(out.record_outcome, RecordOutcome::NoPriorMention);
    let out = e.process(2, "rust", 10).unwrap();
    assert_eq!(out.record_outcome, RecordOutcome::RecordBroken(10));
    let out = e.process(3, "rust", 5).unwrap();
    assert_eq!(out.record_outcome, RecordOutcome::NoPriorMention);
    assert!(out.record_announcement.is_none());
    assert_eq!(e.tracker.best_gap, Some(10));
    assert_eq!(e.tracker.last_mention_at, Some(5));
}

#[test]
fn counting_is_independent_of_record_and_report_state() {
    let mut e = Engine::new(BOT, 0, 60, 10);
    for t in [0u64, 1, 2, 3, 4] {
        let _ = e.process(1, "rust", t);
    }
    assert_eq!(e.counter.count(1), 5);
}
