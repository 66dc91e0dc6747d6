use mention_tracker::counter::CounterTable;

#[test]
fn nth_mention_returns_n() {
    let mut c = CounterTable::new();
    assert_eq!(c.record_mention(7), 1);
    assert_eq!(c.record_mention(7), 2);
    assert_eq!(c.record_mention(7), 3);
    assert_eq!(c.record_mention(7), 4);
}

#[test]
fn authors_are_counted_independently() {
    let mut c = CounterTable::new();
    assert_eq!(c.record_mention(1), 1);
    assert_eq!(c.record_mention(2), 1);
    assert_eq!(c.record_mention(1), 2);
    assert_eq!(c.record_mention(2), 2);
    assert_eq!(c.record_mention(1), 3);
    assert_eq!(c.count(1), 3);
    assert_eq!(c.count(2), 2);
}

#[test]
fn unknown_author_has_count_zero() {
    let c = CounterTable::new();
    assert_eq!(c.count(42), 0);
}

#[test]
fn top_n_is_sorted_descending_by_count() {
    let mut c = CounterTable::new();
    for _ in 0..3 {
        c.record_mention(10);
    }
    c.record_mention(20);
    for _ in 0..2 {
        c.record_mention(30);
    }
    assert_eq!(c.top_n(10), vec![(10, 3), (30, 2), (20, 1)]);
}

#[test]
fn top_n_truncates_to_n() {
    let mut c = CounterTable::new();
    for _ in 0..3 {
        c.record_mention(10);
    }
    c.record_mention(20);
    for _ in 0..2 {
        c.record_mention(30);
    }
    assert_eq!(c.top_n(2), vec![(10, 3), (30, 2)]);
    assert_eq!(c.top_n(0), Vec::<(u64, u64)>::new());
}

#[test]
fn top_n_breaks_count_ties_by_ascending_author() {
    let mut c = CounterTable::new();
    c.record_mention(5);
    c.record_mention(2);
    c.record_mention(5);
    c.record_mention(2);
    assert_eq!(c.top_n(10), vec![(2, 2), (5, 2)]);
}

#[test]
fn top_n_counts_never_exceed_recorded_increments() {
    let mut c = CounterTable::new();
    let mut increments = 0u64;
    for a in 0..5u64 {
        for _ in 0..=a {
            c.record_mention(a);
            increments += 1;
        }
    }
    let returned: u64 = c.top_n(3).iter().map(|e| e.1).sum();
    assert!(returned <= increments);
    let all: u64 = c.top_n(100).iter().map(|e| e.1).sum();
    assert_eq!(all, increments);
}
