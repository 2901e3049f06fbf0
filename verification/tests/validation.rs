use commons::validation::{
    is_alphanumeric, is_identifier, is_valid_email, is_valid_semver, is_valid_url,
    validate_in_set, validate_length, validate_not_empty, validate_range, ValidationError,
    Validator,
};

#[test]
fn test_validate_not_empty() {
    assert!(validate_not_empty("hello").is_ok());
    assert!(validate_not_empty("").is_err());
    assert!(validate_not_empty("   ").is_err());
}

#[test]
fn test_validate_length() {
    assert!(validate_length("hello", 1, 10).is_ok());
    assert!(validate_length("hi", 5, 10).is_err());
    assert!(validate_length("hello world!", 1, 5).is_err());
}

#[test]
fn test_validate_range() {
    assert!(validate_range(5, 1, 10).is_ok());
    assert!(validate_range(0, 1, 10).is_err());
    assert!(validate_range(15, 1, 10).is_err());
}

#[test]
fn test_is_valid_email() {
    assert!(is_valid_email("user@example.com"));
    assert!(is_valid_email("user.name@example.co.uk"));
    assert!(!is_valid_email("invalid"));
    assert!(!is_valid_email("@example.com"));
    assert!(!is_valid_email("user@"));
    assert!(!is_valid_email("user@@example.com"));
}

#[test]
fn test_is_valid_url() {
    assert!(is_valid_url("https://example.com"));
    assert!(is_valid_url("http://example.com/path"));
    assert!(!is_valid_url("example.com"));
    assert!(!is_valid_url("ftp://example.com"));
    assert!(!is_valid_url("https://"));
}

#[test]
fn test_is_identifier() {
    assert!(is_identifier("hello"));
    assert!(is_identifier("_private"));
    assert!(is_identifier("camelCase"));
    assert!(is_identifier("snake_case"));
    assert!(is_identifier("with123"));
    assert!(!is_identifier("123start"));
    assert!(!is_identifier("has-dash"));
    assert!(!is_identifier(""));
}

#[test]
fn test_is_valid_semver() {
    assert!(is_valid_semver("1.0.0"));
    assert!(is_valid_semver("v1.0.0"));
    assert!(is_valid_semver("0.1.0"));
    assert!(is_valid_semver("1.0.0-alpha"));
    assert!(!is_valid_semver("1.0"));
    assert!(!is_valid_semver("1"));
    assert!(!is_valid_semver("a.b.c"));
}

#[test]
fn test_validator() {
    let mut v = Validator::new();
    v.check("email", || {
        if is_valid_email("test@example.com") {
            Ok(())
        } else {
            Err(ValidationError::InvalidPattern {
                pattern: "email".to_string(),
            })
        }
    });
    assert!(v.is_valid());
    assert!(v.finish().is_ok());
}

#[test]
fn validate_not_empty_keeps_the_value_and_knows_unicode_space() {
    assert_eq!(validate_not_empty("  x "), Ok("  x "));
    assert_eq!(validate_not_empty("\t\n\r "), Err(ValidationError::Empty));
    assert_eq!(validate_not_empty("\u{2003}\u{3000}\u{a0}"), Err(ValidationError::Empty));
    assert_eq!(validate_not_empty("\u{200b}"), Ok("\u{200b}"));
}

#[test]
fn validate_length_counts_bytes_and_says_which_bound() {
    assert_eq!(validate_length("hi", 5, 10), Err(ValidationError::TooShort { min: 5, actual: 2 }));
    assert_eq!(
        validate_length("hello world!", 1, 5),
        Err(ValidationError::TooLong { max: 5, actual: 12 })
    );
    assert_eq!(validate_length("é", 2, 2), Ok("é"));
    assert_eq!(validate_length("", 0, 0), Ok(""));
    assert_eq!(validate_length("abc", 5, 1), Err(ValidationError::TooShort { min: 5, actual: 3 }));
}

#[test]
fn validate_range_reports_the_bound_and_the_value() {
    assert_eq!(validate_range(5, 1, 10), Ok(5));
    assert_eq!(validate_range(1, 1, 10), Ok(1));
    assert_eq!(validate_range(10, 1, 10), Ok(10));
    assert_eq!(
        validate_range(0, 1, 10),
        Err(ValidationError::BelowMin { min: "1".to_string(), actual: "0".to_string() })
    );
    assert_eq!(
        validate_range(15, 1, 10),
        Err(ValidationError::AboveMax { max: "10".to_string(), actual: "15".to_string() })
    );
}

#[test]
fn email_edge_cases() {
    assert!(is_valid_email("  user@example.com  "));
    assert!(!is_valid_email("user@example"));
    assert!(!is_valid_email("user..name@example.com"));
    assert!(!is_valid_email("user@example..com"));
    let local64 = "a".repeat(64);
    let local65 = "a".repeat(65);
    assert!(is_valid_email(&format!("{}@example.com", local64)));
    assert!(!is_valid_email(&format!("{}@example.com", local65)));
    let domain255 = format!("{}.com", "d".repeat(251));
    let domain256 = format!("{}.com", "d".repeat(252));
    assert!(is_valid_email(&format!("u@{}", domain255)));
    assert!(!is_valid_email(&format!("u@{}", domain256)));
    assert!(!is_valid_email(""));
    assert!(!is_valid_email("a@b@c.d"));
}

#[test]
fn url_edge_cases() {
    assert!(is_valid_url("  https://example.com\n"));
    assert!(!is_valid_url("http://localhost"));
    assert!(!is_valid_url("http://"));
    assert!(is_valid_url("http://."));
    assert!(!is_valid_url("HTTP://example.com"));
    assert!(!is_valid_url("https:/example.com"));
}

#[test]
fn alphanumeric_checks_every_character() {
    assert!(is_alphanumeric("abc123"));
    assert!(is_alphanumeric("héllo٣"));
    assert!(!is_alphanumeric(""));
    assert!(!is_alphanumeric("ab-"));
    assert!(!is_alphanumeric("a b"));
}

#[test]
fn identifier_is_ascii_only() {
    assert!(is_identifier("_"));
    assert!(is_identifier("a1_"));
    assert!(!is_identifier("é"));
    assert!(!is_identifier("aé"));
    assert!(!is_identifier("a b"));
}

#[test]
fn semver_edge_cases() {
    assert!(is_valid_semver(" v1.2.3 "));
    assert!(!is_valid_semver(" 1.2.3"));
    assert!(!is_valid_semver("1.2.3 "));
    assert!(is_valid_semver("1.2.3-"));
    assert!(is_valid_semver("1-a.2-b.3-c"));
    assert!(is_valid_semver("+1.2.3"));
    assert!(!is_valid_semver("-1.2.3"));
    assert!(!is_valid_semver("1.2.3-alpha.1"));
    assert!(!is_valid_semver("1..3"));
    assert!(is_valid_semver("18446744073709551615.0.0"));
    assert!(!is_valid_semver("18446744073709551616.0.0"));
    assert!(is_valid_semver("vv1.2.3") == false);
    assert!(is_valid_semver("v01.002.0003"));
}

#[test]
fn validate_in_set_finds_or_lists() {
    assert_eq!(validate_in_set(&2, &[1, 2, 3]), Ok(()));
    assert_eq!(
        validate_in_set(&9, &[1, 2, 3]),
        Err(ValidationError::NotInSet {
            allowed: vec!["1".to_string(), "2".to_string(), "3".to_string()]
        })
    );
    let none: [&str; 0] = [];
    assert_eq!(
        validate_in_set(&"x", &none),
        Err(ValidationError::NotInSet { allowed: vec![] })
    );
}

#[test]
fn validator_records_failures_in_order() {
    let mut v = Validator::new();
    v.check("first", || Ok(()))
        .check("second", || Err(ValidationError::Empty))
        .check("third", || Err(ValidationError::Custom("bad".to_string())));
    assert!(!v.is_valid());
    assert_eq!(v.errors().len(), 2);
    assert_eq!(v.errors()[0], ("second".to_string(), ValidationError::Empty));
    assert_eq!(
        v.errors()[1],
        ("third".to_string(), ValidationError::Custom("bad".to_string()))
    );
    let failed = v.finish().unwrap_err();
    assert_eq!(failed.len(), 2);
    assert_eq!(failed[0].0, "second");
}

#[test]
fn validation_error_messages() {
    assert_eq!(ValidationError::Empty.message(), "Value cannot be empty");
    assert_eq!(
        ValidationError::TooShort { min: 5, actual: 2 }.message(),
        "Value too short: minimum 5, got 2"
    );
    assert_eq!(
        ValidationError::TooLong { max: 10, actual: 120 }.message(),
        "Value too long: maximum 10, got 120"
    );
    assert_eq!(
        ValidationError::BelowMin { min: "1".to_string(), actual: "0".to_string() }.message(),
        "Value below minimum: min 1, got 0"
    );
    assert_eq!(
        ValidationError::AboveMax { max: "10".to_string(), actual: "15".to_string() }.message(),
        "Value above maximum: max 10, got 15"
    );
    assert_eq!(
        ValidationError::InvalidPattern { pattern: "email".to_string() }.message(),
        "Value doesn't match pattern: email"
    );
    assert_eq!(
        ValidationError::NotInSet { allowed: vec!["a".to_string(), "b\"c".to_string()] }.message(),
        "Value not in allowed set: [\"a\", \"b\\\"c\"]"
    );
    assert_eq!(ValidationError::Custom("as given".to_string()).message(), "as given");
}

#[test]
fn white_space_is_what_the_standard_library_calls_white_space() {
    for code in 0..=0x10FFFFu32 {
        if let Some(c) = char::from_u32(code) {
            let text = c.to_string();
            assert_eq!(validate_not_empty(&text).is_err(), c.is_whitespace(), "U+{:04X}", code);
        }
    }
}

#[test]
fn trimming_agrees_with_the_standard_library() {
    for text in ["", " ", "a", " a", "a ", " a b ", "\t\u{a0}x\u{3000}\n", "  \u{200b}  ", "é ", " 日本 "] {
        assert_eq!(validate_not_empty(text).is_err(), text.trim().is_empty(), "{:?}", text);
    }
    for space in ["", " ", "\t\n", "\u{a0}\u{2003}", "\u{85}\u{1680}\u{2028}\u{2029}\u{202f}\u{205f}"] {
        let padded = format!("{}user@example.com{}", space, space);
        assert!(is_valid_email(&padded), "{:?}", padded);
        let inside = format!("user{}@example.com", space);
        assert_eq!(is_valid_email(&inside), true, "{:?}", inside);
    }
    assert!(!is_valid_url("\u{200b}https://example.com"));
    assert!(is_valid_url("\u{2009}https://example.com\u{c}"));
}

#[test]
fn number_parts_agree_with_the_standard_library() {
    for part in ["0", "00", "7", "+7", "-7", "+", "", " 7", "7 ", "1_0", "١", "12a", "18446744073709551615",
        "18446744073709551616", "99999999999999999999999", "+18446744073709551615", "0x10"]
    {
        let version = format!("{}.{}.{}", part, part, part);
        let expected = !part.contains('.') && part.parse::<u64>().is_ok();
        assert_eq!(is_valid_semver(&version), expected, "{:?}", version);
    }
}
