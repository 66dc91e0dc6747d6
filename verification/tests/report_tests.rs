use mention_tracker::counter::CounterTable;
use mention_tracker::report::ReportScheduler;

#[test]
fn no_report_before_interval_elapses() {
    let counter = CounterTable::new();
    let mut s = ReportScheduler::new(0, 60, 10);
    assert!(s.maybe_report(30, &counter).is_none());
    assert!(s.maybe_report(59, &counter).is_none());
}

#[test]
fn first_qualifying_event_after_interval_reports_once() {
    let mut counter = CounterTable::new();
    counter.record_mention(1);
    let mut s = ReportScheduler::new(0, 60, 10);
    assert!(s.maybe_report(30, &counter).is_none());
    let payload = s.maybe_report(60, &counter);
    assert_eq!(payload, Some(vec![(1, 1)]));
    // The window restarts at the report time: nothing more fires inside it.
    assert!(s.maybe_report(61, &counter).is_none());
    assert!(s.maybe_report(90, &counter).is_none());
    assert!(s.maybe_report(119, &counter).is_none());
    assert!(s.maybe_report(120, &counter).is_some());
}

#[test]
fn many_qualifying_events_in_one_interval_report_once() {
    let counter = CounterTable::new();
    let mut s = ReportScheduler::new(0, 100, 10);
    let mut fired = 0;
    for t in [100u64, 101, 102, 150, 199] {
        if s.maybe_report(t, &counter).is_some() {
            fired += 1;
        }
    }
    assert_eq!(fired, 1);
}

#[test]
fn timestamp_before_last_report_never_fires() {
    let counter = CounterTable::new();
    let mut s = ReportScheduler::new(100, 60, 10);
    assert!(s.maybe_report(50, &counter).is_none());
}

#[test]
fn payload_is_capped_at_the_configured_limit() {
    let mut counter = CounterTable::new();
    counter.record_mention(1);
    counter.record_mention(2);
    counter.record_mention(2);
    counter.record_mention(3);
    let mut s = ReportScheduler::new(0, 10, 2);
    let payload = s.maybe_report(10, &counter).unwrap();
    assert_eq!(payload, vec![(2, 2), (1, 1)]);
}
