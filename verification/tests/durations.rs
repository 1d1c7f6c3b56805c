//! Durations in words.

use tui::utils::format_duration;

#[test]
fn formats_seconds_only() {
    assert_eq!(format_duration(0), "0s");
    assert_eq!(format_duration(1), "1s");
    assert_eq!(format_duration(45), "45s");
    assert_eq!(format_duration(59), "59s");
}

#[test]
fn formats_minutes_and_seconds() {
    assert_eq!(format_duration(60), "1m 0s");
    assert_eq!(format_duration(61), "1m 1s");
    assert_eq!(format_duration(127), "2m 7s");
    assert_eq!(format_duration(3599), "59m 59s");
}

#[test]
fn formats_hours_minutes_and_seconds() {
    assert_eq!(format_duration(3600), "1h 0m 0s");
    assert_eq!(format_duration(3601), "1h 0m 1s");
    assert_eq!(format_duration(7267), "2h 1m 7s");
    assert_eq!(format_duration(5430), "1h 30m 30s");
}
