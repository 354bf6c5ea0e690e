//! Time-string conversions: parsing, formatting, decimal hours, and the
//! round trip between them.

use chronos_log::records::DatabaseError;
use chronos_log::timefmt::{format_minutes_to_decimal, format_minutes_to_time, parse_time_to_minutes};

#[test]
fn test_parse_time_to_minutes() {
    assert_eq!(parse_time_to_minutes("00:30").unwrap(), 30);
    assert_eq!(parse_time_to_minutes("01:00").unwrap(), 60);
    assert_eq!(parse_time_to_minutes("02:30").unwrap(), 150);
    assert!(parse_time_to_minutes("invalid").is_err());
}

#[test]
fn test_format_minutes_to_time() {
    assert_eq!(format_minutes_to_time(30), "00:30");
    assert_eq!(format_minutes_to_time(60), "01:00");
    assert_eq!(format_minutes_to_time(150), "02:30");
}

#[test]
fn test_format_minutes_to_decimal() {
    assert_eq!(format_minutes_to_decimal(30), "0,50");
    assert_eq!(format_minutes_to_decimal(60), "1,00");
    assert_eq!(format_minutes_to_decimal(90), "1,50");
    assert_eq!(format_minutes_to_decimal(150), "2,50");
    assert_eq!(format_minutes_to_decimal(480), "8,00");
    assert_eq!(format_minutes_to_decimal(15), "0,25");
    assert_eq!(format_minutes_to_decimal(45), "0,75");
}

#[test]
fn parse_rejects_malformed_times() {
    assert_eq!(
        parse_time_to_minutes("00:60").unwrap_err(),
        DatabaseError::InvalidTimeFormat
    );
    assert_eq!(
        parse_time_to_minutes("bad").unwrap_err(),
        DatabaseError::InvalidTimeFormat
    );
    assert!(parse_time_to_minutes("").is_err());
    assert!(parse_time_to_minutes(":").is_err());
    assert!(parse_time_to_minutes("1:2:3").is_err());
    assert!(parse_time_to_minutes("-01:30").is_err());
    assert!(parse_time_to_minutes("01:-05").is_err());
    assert!(parse_time_to_minutes("01:99").is_err());
    assert!(parse_time_to_minutes("12:5x").is_err());
    assert!(parse_time_to_minutes("99999999999:00").is_err());
}

#[test]
fn parse_accepts_untrimmed_and_signed_input() {
    assert_eq!(parse_time_to_minutes("  02:30  ").unwrap(), 150);
    assert_eq!(parse_time_to_minutes("+01:05").unwrap(), 65);
    assert_eq!(parse_time_to_minutes("25:00").unwrap(), 1500);
    assert_eq!(parse_time_to_minutes("0:7").unwrap(), 7);
}

#[test]
fn format_then_parse_round_trips() {
    for &m in &[0, 1, 7, 59, 60, 61, 90, 480, 1500, 59999, i32::MAX] {
        assert_eq!(parse_time_to_minutes(&format_minutes_to_time(m)).unwrap(), m);
    }
}

#[test]
fn parse_then_format_restores_canonical_text() {
    for s in &["00:30", "07:45", "23:59", "99:00"] {
        let m = parse_time_to_minutes(s).unwrap();
        assert_eq!(format_minutes_to_time(m), *s);
    }
    // non-canonical spellings land on the canonical form
    assert_eq!(
        format_minutes_to_time(parse_time_to_minutes(" 7:5 ").unwrap()),
        "07:05"
    );
}

#[test]
fn decimal_format_rounds_to_nearest_hundredth() {
    assert_eq!(format_minutes_to_decimal(0), "0,00");
    assert_eq!(format_minutes_to_decimal(1), "0,02");
    assert_eq!(format_minutes_to_decimal(2), "0,03");
    assert_eq!(format_minutes_to_decimal(61), "1,02");
    assert_eq!(format_minutes_to_decimal(600), "10,00");
}
