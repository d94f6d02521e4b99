use nucleus::util::{format_utc, millis_from_clock, now_millis};

#[test]
fn formats_known_timestamps() {
    assert_eq!(format_utc(0), "1970-01-01_00-00-00");
    assert_eq!(format_utc(1_782_000_000_000), "2026-06-21_00-00-00");
}

#[test]
fn formats_times_of_day_and_negative_timestamps() {
    assert_eq!(format_utc(86_399_999), "1970-01-01_23-59-59");
    assert_eq!(format_utc(-1), "1969-12-31_23-59-59");
    assert_eq!(format_utc(951_782_400_000), "2000-02-29_00-00-00");
}

#[test]
fn clock_reading_conversion() {
    assert_eq!(millis_from_clock(None), 0);
    assert_eq!(millis_from_clock(Some(1234)), 1234);
    assert!(now_millis() > 1_600_000_000_000);
}

#[test]
fn stamps_go_by_whole_seconds() {
    assert_eq!(format_utc(-1), "1969-12-31_23-59-59");
    assert_eq!(format_utc(-1000), "1969-12-31_23-59-59");
    assert_eq!(format_utc(1_999), format_utc(1_000));
    assert_eq!(format_utc(951_782_400_000), "2000-02-29_00-00-00");
}
