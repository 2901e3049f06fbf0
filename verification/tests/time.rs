use commons::time::{
    format_duration, parse_duration, parse_duration_fits, timestamp_of, unix_timestamp,
    unix_timestamp_millis, Duration, ParsedDuration,
};

/// Finishes a parse as a caller does: seconds are read in floating point.
fn finish(parsed: Result<ParsedDuration, String>) -> Result<Duration, String> {
    match parsed? {
        ParsedDuration::Exact(duration) => Ok(duration),
        ParsedDuration::Seconds { number, invalid } => {
            let seconds: f64 = number.parse().map_err(|_| invalid)?;
            let read = std::time::Duration::from_secs_f64(seconds);
            Ok(Duration::new(read.as_secs(), read.subsec_nanos()))
        }
    }
}

#[test]
fn test_parse_duration() {
    assert_eq!(finish(parse_duration("100ms")).unwrap(), Duration::from_millis(100));
    assert_eq!(finish(parse_duration("5s")).unwrap(), Duration::from_secs(5));
    assert_eq!(finish(parse_duration("2m")).unwrap(), Duration::from_secs(120));
    assert_eq!(finish(parse_duration("1h")).unwrap(), Duration::from_secs(3600));
    assert_eq!(finish(parse_duration("1d")).unwrap(), Duration::from_secs(86400));
}

#[test]
fn test_format_duration() {
    assert_eq!(format_duration(Duration::from_millis(500)), "500ms");
    assert_eq!(format_duration(Duration::from_secs(5)), "5.000s");
    assert_eq!(format_duration(Duration::from_secs(65)), "1m 5s");
    assert_eq!(format_duration(Duration::from_secs(3665)), "1h 1m");
}

#[test]
fn format_duration_at_each_boundary() {
    assert_eq!(format_duration(Duration::zero()), "0ms");
    assert_eq!(format_duration(Duration::new(0, 999_999)), "0ms");
    assert_eq!(format_duration(Duration::from_millis(999)), "999ms");
    assert_eq!(format_duration(Duration::from_millis(1000)), "1.000s");
    assert_eq!(format_duration(Duration::from_millis(1007)), "1.007s");
    assert_eq!(format_duration(Duration::from_millis(59_999)), "59.999s");
    assert_eq!(format_duration(Duration::from_secs(60)), "1m 0s");
    assert_eq!(format_duration(Duration::from_millis(3_599_999)), "59m 59s");
    assert_eq!(format_duration(Duration::from_secs(3600)), "1h 0m");
    assert_eq!(format_duration(Duration::from_secs(86_399)), "23h 59m");
    assert_eq!(format_duration(Duration::from_secs(86_400)), "1d 0h");
    assert_eq!(format_duration(Duration::from_secs(90_000)), "1d 1h");
    assert_eq!(format_duration(Duration::from_secs(u64::MAX)), "213503982334601d 7h");
}

#[test]
fn parse_duration_reads_whole_units() {
    assert_eq!(parse_duration(" 250ms "), Ok(ParsedDuration::Exact(Duration::from_millis(250))));
    assert_eq!(parse_duration("+3m"), Ok(ParsedDuration::Exact(Duration::from_secs(180))));
    assert_eq!(parse_duration("0d"), Ok(ParsedDuration::Exact(Duration::zero())));
    assert_eq!(
        parse_duration("18446744073709551615ms"),
        Ok(ParsedDuration::Exact(Duration::new(18_446_744_073_709_551, 615_000_000)))
    );
}

#[test]
fn parse_duration_hands_seconds_back_as_text() {
    assert_eq!(
        parse_duration("1.5s"),
        Ok(ParsedDuration::Seconds {
            number: "1.5".to_string(),
            invalid: "Invalid seconds format".to_string()
        })
    );
    assert_eq!(
        parse_duration(" 42 "),
        Ok(ParsedDuration::Seconds {
            number: "42".to_string(),
            invalid: "Invalid duration format".to_string()
        })
    );
    assert_eq!(finish(parse_duration("1.5s")).unwrap(), Duration::from_millis(1500));
    assert_eq!(finish(parse_duration("xs")), Err("Invalid seconds format".to_string()));
    assert_eq!(finish(parse_duration("abc")), Err("Invalid duration format".to_string()));
}

#[test]
fn parse_duration_errors_name_the_unit() {
    assert_eq!(parse_duration("ms"), Err("Invalid milliseconds format".to_string()));
    assert_eq!(parse_duration("1.5ms"), Err("Invalid milliseconds format".to_string()));
    assert_eq!(parse_duration("xm"), Err("Invalid minutes format".to_string()));
    assert_eq!(parse_duration("-1h"), Err("Invalid hours format".to_string()));
    assert_eq!(parse_duration("1 d"), Err("Invalid days format".to_string()));
    assert_eq!(
        parse_duration("18446744073709551616m"),
        Err("Invalid minutes format".to_string())
    );
}

#[test]
fn parse_duration_fits_tells_what_overflows() {
    assert!(parse_duration_fits("307445734561825860m"));
    assert!(!parse_duration_fits("307445734561825861m"));
    assert!(!parse_duration_fits("18446744073709551615h"));
    assert!(!parse_duration_fits("213503982334602d"));
    assert!(parse_duration_fits("213503982334601d"));
    assert!(parse_duration_fits("18446744073709551615ms"));
    assert!(parse_duration_fits("1e400s"));
    assert!(parse_duration_fits("nonsense"));
    assert_eq!(
        parse_duration("307445734561825860m"),
        Ok(ParsedDuration::Exact(Duration::from_secs(18_446_744_073_709_551_600)))
    );
}

#[test]
fn duration_parts() {
    let d = Duration::from_millis(1_234);
    assert_eq!(d.as_secs(), 1);
    assert_eq!(d.subsec_millis(), 234);
    assert_eq!(d.subsec_nanos(), 234_000_000);
    assert_eq!(d.as_nanos(), 1_234_000_000);
    assert!(!d.is_zero());
    assert!(Duration::zero().is_zero());
    assert_eq!(Duration::from_nanos(2_000_000_001), Duration::new(2, 1));
    assert_eq!(Duration::from_secs(3).min(Duration::from_millis(2999)), Duration::from_millis(2999));
    assert_eq!(Duration::from_secs(3).min(Duration::from_millis(3001)), Duration::from_secs(3));
}

#[test]
fn timestamps_agree() {
    let secs = unix_timestamp();
    let millis = unix_timestamp_millis();
    assert!(secs > 1_600_000_000);
    assert!(millis / 1000 >= secs);
    assert!(millis / 1000 - secs < 5);
}

#[test]
fn timestamp_of_a_clock() {
    assert_eq!(timestamp_of(None), 0);
    assert_eq!(timestamp_of(Some(0)), 0);
    assert_eq!(timestamp_of(Some(1_700_000_000_123)), 1_700_000_000_123);
    assert_eq!(timestamp_of(Some(u64::MAX as u128)), u64::MAX);
    assert_eq!(timestamp_of(Some(u64::MAX as u128 + 1)), 0);
    assert_eq!(timestamp_of(Some(u128::MAX)), u64::MAX);
}
