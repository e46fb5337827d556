use genai_bench_rs::cli::{
    default_output_dir, parse_duration, parse_duration_parts, validate_duration_secs,
};
use std::time::Duration;

#[test]
fn test_parse_seconds() {
    assert_eq!(parse_duration("60s").unwrap(), Duration::from_secs(60));
    assert_eq!(parse_duration("1s").unwrap(), Duration::from_secs(1));
}

#[test]
fn test_parse_minutes() {
    assert_eq!(parse_duration("5m").unwrap(), Duration::from_secs(300));
    assert_eq!(parse_duration("1m").unwrap(), Duration::from_secs(60));
}

#[test]
fn test_parse_hours() {
    assert_eq!(parse_duration("1h").unwrap(), Duration::from_secs(3600));
    assert_eq!(parse_duration("2h").unwrap(), Duration::from_secs(7200));
}

#[test]
fn test_parse_invalid() {
    assert!(parse_duration("").is_err());
    assert!(parse_duration("60").is_err());
    assert!(parse_duration("abc").is_err());
    assert!(parse_duration("5x").is_err());
}

#[test]
fn duration_is_trimmed_and_takes_a_plus_sign() {
    assert_eq!(parse_duration("  90s\n").unwrap(), Duration::from_secs(90));
    assert_eq!(parse_duration("+2m").unwrap(), Duration::from_secs(120));
    assert_eq!(parse_duration("007s").unwrap(), Duration::from_secs(7));
}

#[test]
fn duration_error_messages() {
    assert_eq!(parse_duration("   ").unwrap_err(), "duration cannot be empty");
    assert_eq!(
        parse_duration("5x").unwrap_err(),
        "invalid duration '5x': must end with s, m, or h"
    );
    assert_eq!(
        parse_duration(" 5 m").unwrap_err(),
        "invalid number in duration: '5 '"
    );
    assert_eq!(parse_duration("s").unwrap_err(), "invalid number in duration: ''");
    assert_eq!(parse_duration("-5s").unwrap_err(), "invalid number in duration: '-5'");
    assert_eq!(
        parse_duration("99999999999999999999s").unwrap_err(),
        "invalid number in duration: '99999999999999999999'"
    );
}

#[test]
fn duration_parts_give_number_and_unit() {
    assert_eq!(parse_duration_parts("3h").unwrap(), (3, 3600));
    assert_eq!(parse_duration_parts("45m").unwrap(), (45, 60));
    assert_eq!(parse_duration_parts("18446744073709551615s").unwrap(), (u64::MAX, 1));
}

#[test]
fn minimum_duration_is_one_minute() {
    assert!(validate_duration_secs(59).is_err());
    assert_eq!(
        validate_duration_secs(10).unwrap_err(),
        "duration must be at least 1m for reliable metrics"
    );
    assert!(validate_duration_secs(60).is_ok());
}

#[test]
fn default_output_dir_replaces_slashes() {
    assert_eq!(
        default_output_dir("meta-llama/Llama-3-8B", "2026-03-14_153042"),
        "./results/meta-llama-Llama-3-8B_2026-03-14_153042"
    );
    assert_eq!(default_output_dir("m", "t"), "./results/m_t");
}
