//! Tests of duration parsing and rendering and of expiry resolution.

use jailview::addr::is_valid_ip;
use jailview::durations::{
    format_duration, format_duration_compact, format_time_value, parse_duration_string,
};
use jailview::expiry::{
    extract_last_datetime, format_remaining, looks_like_date, looks_like_time, looks_like_tz,
    parse_time_to_epoch, remaining_seconds, resolve_end_epoch,
};
use jailview::model::TimeValue;

#[test]
fn duration_string_units_sum() {
    assert_eq!(parse_duration_string("1d2h3m4s"), Some(93784));
    assert_eq!(parse_duration_string("1w"), Some(604800));
    assert_eq!(parse_duration_string("2H5s"), Some(7205));
}

#[test]
fn duration_string_bare_digits() {
    assert_eq!(parse_duration_string("90"), Some(90));
    assert_eq!(parse_duration_string("1m30"), Some(90));
}

#[test]
fn duration_string_rejects_shapeless_text() {
    assert_eq!(parse_duration_string("abc"), None);
    assert_eq!(parse_duration_string(""), None);
    assert_eq!(parse_duration_string("12x"), None);
}

#[test]
fn duration_string_discards_numbers_before_unknown_letters() {
    // The `9x` run is dropped; the rest still counts.
    assert_eq!(parse_duration_string("9x1m"), Some(60));
}

#[test]
fn format_duration_spaced() {
    assert_eq!(format_duration(93784), "1d 2h 3m");
    assert_eq!(format_duration(45), "45s");
    assert_eq!(format_duration(0), "0s");
    assert_eq!(format_duration(3600), "1h");
    assert_eq!(format_duration(86460), "1d 1m");
}

#[test]
fn format_duration_compact_runs_together() {
    assert_eq!(format_duration_compact(93784), "1d2h3m");
    assert_eq!(format_duration_compact(59), "59s");
    assert_eq!(format_duration_compact(0), "0s");
}

#[test]
fn format_time_value_variants() {
    let tv = TimeValue { raw: "600".to_string(), seconds: Some(600) };
    assert_eq!(format_time_value(&tv), "600s (10m)");
    let tv = TimeValue { raw: "1h".to_string(), seconds: Some(3600) };
    assert_eq!(format_time_value(&tv), "1h (1h)");
    let tv = TimeValue { raw: "n/a".to_string(), seconds: None };
    assert_eq!(format_time_value(&tv), "n/a");
}

#[test]
fn field_shapes() {
    assert!(looks_like_date("2030-01-01"));
    assert!(!looks_like_date("2030-1-01"));
    assert!(!looks_like_date("2030-01-01x"));
    assert!(looks_like_time("12:34:56"));
    assert!(!looks_like_time("12:34"));
    assert!(looks_like_tz("+0000"));
    assert!(looks_like_tz("-05:30"));
    assert!(!looks_like_tz("0000"));
    assert!(!looks_like_tz("+00"));
}

#[test]
fn extract_last_datetime_picks_last_window() {
    let r = extract_last_datetime("banned 2029-05-05 01:02:03 then 2030-01-01 00:00:00 +0200 end");
    let (d, t, z) = r.expect("window");
    assert_eq!(d, "2030-01-01");
    assert_eq!(t, "00:00:00");
    assert_eq!(z.as_deref(), Some("+0200"));
    assert_eq!(extract_last_datetime("no dates here"), None);
}

#[test]
fn resolve_numeric_epochs() {
    // A future instant already denotes the lift time.
    assert_eq!(parse_time_to_epoch("1893456000", Some(600), 1_000_000), Some(1_893_456_000));
    // A past instant denotes the start; the duration is added.
    assert_eq!(parse_time_to_epoch("1000", Some(600), 2000), Some(1600));
    // Unknown duration falls back to the raw instant.
    assert_eq!(parse_time_to_epoch("1000", None, 2000), Some(1000));
    assert_eq!(parse_time_to_epoch("  1000, ", None, 2000), Some(1000));
}

#[test]
fn resolve_datetime_with_offset() {
    let r = parse_time_to_epoch("x 2030-01-01 00:00:00 +0000 y", None, 0);
    assert_eq!(r, Some(1_893_456_000));
    // An eastern offset shifts the instant back.
    let r = parse_time_to_epoch("2030-01-01 01:00:00 +0100", None, 0);
    assert_eq!(r, Some(1_893_456_000));
}

#[test]
fn resolve_datetime_without_offset_reads_utc() {
    let r = parse_time_to_epoch("2030-01-01 00:00:00", None, 0);
    assert_eq!(r, Some(1_893_456_000));
}

#[test]
fn resolve_unrecognized_text_fails() {
    assert_eq!(parse_time_to_epoch("soon", None, 0), None);
    assert_eq!(parse_time_to_epoch("", None, 0), None);
    assert_eq!(parse_time_to_epoch("2030-13-01 00:00:00", None, 0), None);
}

#[test]
fn resolve_end_epoch_disambiguates() {
    assert_eq!(resolve_end_epoch(500, Some(100), 400), 500);
    assert_eq!(resolve_end_epoch(300, Some(100), 400), 400);
    assert_eq!(resolve_end_epoch(300, None, 400), 300);
    assert_eq!(resolve_end_epoch(i64::MAX - 1, Some(100), i64::MAX), i64::MAX);
}

#[test]
fn remaining_and_its_rendering() {
    assert_eq!(remaining_seconds(Some(1090), 1000), Some(90));
    assert_eq!(remaining_seconds(Some(900), 1000), Some(0));
    assert_eq!(remaining_seconds(None, 1000), None);

    assert_eq!(format_remaining(Some(1090), None, 1000), "(1m)");
    assert_eq!(format_remaining(None, Some("600"), 0), "(10m)");
    assert_eq!(format_remaining(None, Some("  raw text "), 0), "raw text");
    assert_eq!(format_remaining(None, Some("  "), 0), "--");
    assert_eq!(format_remaining(None, None, 0), "--");
}

#[test]
fn ip_literals() {
    assert!(is_valid_ip("1.2.3.4"));
    assert!(is_valid_ip("255.255.255.255"));
    assert!(!is_valid_ip("256.1.1.1"));
    assert!(!is_valid_ip("01.2.3.4"));
    assert!(!is_valid_ip("1.2.3"));
    assert!(!is_valid_ip("1.2.3.4.5"));
    assert!(is_valid_ip("::"));
    assert!(is_valid_ip("::1"));
    assert!(is_valid_ip("1:2:3:4:5:6:7:8"));
    assert!(is_valid_ip("1:2:3:4:5:6:7::"));
    assert!(is_valid_ip("2001:db8::ff00:42:8329"));
    assert!(is_valid_ip("::ffff:192.0.2.1"));
    assert!(is_valid_ip("1:2:3:4:5:6:192.0.2.1"));
    assert!(!is_valid_ip("1:2:3:4:5:6:7:8:9"));
    assert!(!is_valid_ip("1::2::3"));
    assert!(!is_valid_ip("12345::"));
    assert!(!is_valid_ip(":1:2:3:4:5:6:7"));
    assert!(!is_valid_ip("1:2:3:4:5:6:7:"));
    assert!(!is_valid_ip("not-an-ip"));
    assert!(!is_valid_ip(""));
}
