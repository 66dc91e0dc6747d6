use mention_tracker::render::format_gap;

#[test]
fn zero_renders_as_seconds() {
    assert_eq!(format_gap(0), "0 seconds");
}

#[test]
fn under_a_minute_renders_as_seconds() {
    assert_eq!(format_gap(1), "1 seconds");
    assert_eq!(format_gap(45), "45 seconds");
    assert_eq!(format_gap(59), "59 seconds");
}

#[test]
fn under_an_hour_renders_minutes_and_seconds() {
    assert_eq!(format_gap(60), "1 minute(s) and 0 second(s)");
    assert_eq!(format_gap(125), "2 minute(s) and 5 second(s)");
    assert_eq!(format_gap(3599), "59 minute(s) and 59 second(s)");
}

#[test]
fn under_a_day_renders_hours_and_minutes() {
    assert_eq!(format_gap(3600), "1 hour(s) and 0 minute(s)");
    assert_eq!(format_gap(3661), "1 hour(s) and 1 minute(s)");
    assert_eq!(format_gap(86399), "23 hour(s) and 59 minute(s)");
}

#[test]
fn a_day_or_more_renders_days_and_hours() {
    assert_eq!(format_gap(86400), "1 day(s) and 0 hour(s)");
    assert_eq!(format_gap(90061), "1 day(s) and 1 hour(s)");
    assert_eq!(format_gap(180000), "2 day(s) and 2 hour(s)");
    assert_eq!(format_gap(864000), "10 day(s) and 0 hour(s)");
}
