use mention_tracker::record::{RecordOutcome, RecordTracker};

#[test]
fn first_mention_is_no_prior_mention() {
    let mut t = RecordTracker::new();
    assert_eq!(t.observe(17), RecordOutcome::NoPriorMention);
    assert_eq!(t.best_gap, Some(0));
    assert_eq!(t.last_mention_at, Some(17));
}

#[test]
fn second_mention_with_positive_gap_breaks_record() {
    let mut t = RecordTracker::new();
    t.observe(10);
    assert_eq!(t.observe(25), RecordOutcome::RecordBroken(15));
    assert_eq!(t.best_gap, Some(15));
    assert_eq!(t.last_mention_at, Some(25));
}

#[test]
fn second_mention_with_zero_gap_does_not_break() {
    let mut t = RecordTracker::new();
    t.observe(10);
    assert_eq!(t.observe(10), RecordOutcome::RecordNotBroken(0));
    assert_eq!(t.best_gap, Some(0));
}

#[test]
fn third_mention_with_larger_gap_breaks() {
    let mut t = RecordTracker::new();
    t.observe(0);
    t.observe(10);
    assert_eq!(t.observe(25), RecordOutcome::RecordBroken(15));
    assert_eq!(t.best_gap, Some(15));
}

#[test]
fn third_mention_with_equal_gap_does_not_break() {
    let mut t = RecordTracker::new();
    t.observe(0);
    t.observe(10);
    assert_eq!(t.observe(20), RecordOutcome::RecordNotBroken(10));
    assert_eq!(t.best_gap, Some(10));
}

#[test]
fn third_mention_with_smaller_gap_does_not_break() {
    let mut t = RecordTracker::new();
    t.observe(0);
    t.observe(30);
    assert_eq!(t.observe(40), RecordOutcome::RecordNotBroken(10));
    assert_eq!(t.best_gap, Some(30));
}

#[test]
fn out_of_order_timestamp_sets_no_record_and_keeps_best_gap() {
    // Arrival order serializes the observations; the timestamps supply
    // the gaps.  A mention whose timestamp precedes the stored one has no
    // computable gap: it sets no record and leaves the best gap alone,
    // advancing only the mention time.
    let mut t = RecordTracker::new();
    assert_eq!(t.observe(0), RecordOutcome::NoPriorMention);
    assert_eq!(t.observe(10), RecordOutcome::RecordBroken(10));
    assert_eq!(t.observe(5), RecordOutcome::NoPriorMention);
    assert_eq!(t.best_gap, Some(10));
    assert_eq!(t.last_mention_at, Some(5));
    // The next gap competes with the kept record: 55 seconds beats 10.
    assert_eq!(t.observe(60), RecordOutcome::RecordBroken(55));
}
