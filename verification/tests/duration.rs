use tokio_fsm::Duration;
use tokio_fsm::parse_duration;

#[test]
fn test_parse_duration() {
    assert_eq!(parse_duration("30s").unwrap(), Duration::from_secs(30));
    assert_eq!(parse_duration("5m").unwrap(), Duration::from_secs(300));
    assert_eq!(parse_duration("1h").unwrap(), Duration::from_secs(3600));
    assert_eq!(parse_duration("500ms").unwrap(), Duration::from_millis(500));
    assert!(parse_duration("invalid").is_err());
    assert!(parse_duration("").is_err());
}

#[test]
fn parse_duration_error_messages() {
    assert_eq!(parse_duration("").unwrap_err(), "Empty duration string");
    assert_eq!(parse_duration("   ").unwrap_err(), "Empty duration string");
    assert_eq!(
        parse_duration("123").unwrap_err(),
        "No unit found in duration string: 123"
    );
    assert_eq!(parse_duration("12x").unwrap_err(), "Unknown duration unit: x");
    assert_eq!(
        parse_duration("ms").unwrap_err(),
        "Invalid number in duration string: "
    );
    assert_eq!(
        parse_duration("1.5s").unwrap_err(),
        "Invalid number in duration string: 1.5"
    );
}

#[test]
fn parse_duration_trims_whitespace_and_accepts_plus() {
    assert_eq!(parse_duration("  20ms\n").unwrap(), Duration::from_millis(20));
    assert_eq!(parse_duration("\u{a0}30s\u{3000}").unwrap(), Duration::from_secs(30));
    assert_eq!(parse_duration("+7s").unwrap(), Duration::from_secs(7));
    assert!(parse_duration("+").is_err());
}

#[test]
fn parse_duration_magnitude_bounds() {
    // The magnitude must fit in a u64; the largest one is accepted exactly.
    assert!(parse_duration("99999999999999999999999999s").is_err());
    let d = parse_duration("18446744073709551615h").unwrap();
    assert_eq!(d.as_millis(), 18446744073709551615u128 * 3600000);
}

#[test]
fn duration_constructors_agree() {
    assert_eq!(Duration::from_secs(2), Duration::from_millis(2000));
    assert_eq!(Duration::from_millis(1500).as_millis(), 1500);
}
