use glucose_export::localizer::format_time;
use glucose_export::models::ScanError;

fn ok(s: &str) -> String {
    format_time(s).expect("timestamp should parse")
}

fn err(s: &str) -> ScanError {
    format_time(s).expect_err("timestamp should be rejected")
}

#[test]
fn winter_utc_input_renders_eastern_standard_time() {
    assert_eq!(ok("2023-01-15 09:30:00 +0000"), "04:30am est");
}

#[test]
fn summer_utc_input_renders_eastern_daylight_offset() {
    assert_eq!(ok("2023-07-15 09:30:00 +0000"), "05:30am est");
}

#[test]
fn summer_eastern_input_keeps_its_wall_clock() {
    assert_eq!(ok("2023-06-01 14:05:00 -0400"), "02:05pm est");
}

#[test]
fn suffix_stays_est_even_in_daylight_time() {
    let rendered = ok("2023-08-01 12:00:00 -0400");
    assert!(rendered.ends_with(" est"));
}

#[test]
fn midnight_renders_twelve_am() {
    // 05:00 UTC in winter is midnight in New York.
    assert_eq!(ok("2023-01-15 05:00:00 +0000"), "12:00am est");
}

#[test]
fn noon_renders_twelve_pm() {
    assert_eq!(ok("2023-01-15 17:00:00 +0000"), "12:00pm est");
}

#[test]
fn positive_offset_is_subtracted() {
    // 09:30 at +0530 is 04:00 UTC, which is 23:00 the day before in winter
    // Eastern time.
    assert_eq!(ok("2023-01-15 09:30:00 +0530"), "11:00pm est");
}

#[test]
fn leap_day_parses_in_leap_years_only() {
    assert_eq!(ok("2024-02-29 17:00:00 +0000"), "12:00pm est");
    assert!(matches!(err("2023-02-29 17:00:00 +0000"), ScanError::MalformedTimestamp(_)));
}

#[test]
fn arbitrary_text_is_rejected() {
    assert!(matches!(err("not-a-date"), ScanError::MalformedTimestamp(_)));
}

#[test]
fn single_digit_fields_are_rejected() {
    assert!(matches!(err("2023-1-15 09:30:00 +0000"), ScanError::MalformedTimestamp(_)));
}

#[test]
fn colon_in_offset_is_rejected() {
    assert!(matches!(err("2023-01-15 09:30:00 +00:00"), ScanError::MalformedTimestamp(_)));
}

#[test]
fn missing_offset_is_rejected() {
    assert!(matches!(err("2023-01-15 09:30:00"), ScanError::MalformedTimestamp(_)));
}

#[test]
fn out_of_range_fields_are_rejected() {
    assert!(matches!(err("2023-13-15 09:30:00 +0000"), ScanError::MalformedTimestamp(_)));
    assert!(matches!(err("2023-00-15 09:30:00 +0000"), ScanError::MalformedTimestamp(_)));
    assert!(matches!(err("2023-04-31 09:30:00 +0000"), ScanError::MalformedTimestamp(_)));
    assert!(matches!(err("2023-01-15 24:30:00 +0000"), ScanError::MalformedTimestamp(_)));
    assert!(matches!(err("2023-01-15 09:60:00 +0000"), ScanError::MalformedTimestamp(_)));
    assert!(matches!(err("2023-01-15 09:30:60 +0000"), ScanError::MalformedTimestamp(_)));
    assert!(matches!(err("2023-01-15 09:30:00 +2400"), ScanError::MalformedTimestamp(_)));
    assert!(matches!(err("2023-01-15 09:30:00 +0060"), ScanError::MalformedTimestamp(_)));
}

#[test]
fn trailing_text_is_rejected() {
    assert!(matches!(err("2023-01-15 09:30:00 +0000 "), ScanError::MalformedTimestamp(_)));
}
