use commons::error::{CommonError, CommonResult, ResultExt};

#[test]
fn test_error_creation() {
    let err = CommonError::invalid_input("test");
    assert!(err.is_input_error());
    assert!(!err.is_recoverable());
}

#[test]
fn test_error_display() {
    let err = CommonError::NotFound("file.txt".into());
    assert_eq!(err.message(), "Not found: file.txt");
}

#[test]
fn test_result_ext() {
    let result: Result<(), std::io::Error> =
        Err(std::io::Error::new(std::io::ErrorKind::NotFound, "test"));
    let common_result = result.with_context("Reading file");
    assert!(common_result.is_err());
}

#[test]
fn with_context_builds_the_message() {
    let result: Result<(), std::io::Error> =
        Err(std::io::Error::new(std::io::ErrorKind::NotFound, "test"));
    match result.with_context("Reading file") {
        Err(CommonError::Custom(msg)) => assert_eq!(msg, "Reading file: test"),
        other => panic!("unexpected: {:?}", other),
    }
    let fine: Result<u8, String> = Ok(7);
    let kept: CommonResult<u8> = fine.with_context("ignored");
    assert!(matches!(kept, Ok(7)));
}

#[test]
fn constructors_keep_the_message() {
    assert!(matches!(CommonError::invalid_input("a"), CommonError::InvalidInput(m) if m == "a"));
    assert!(matches!(CommonError::config(String::from("b")), CommonError::Config(m) if m == "b"));
    assert!(matches!(CommonError::parse("c"), CommonError::Parse(m) if m == "c"));
    assert!(matches!(CommonError::not_found("d"), CommonError::NotFound(m) if m == "d"));
    assert!(matches!(CommonError::custom("e"), CommonError::Custom(m) if m == "e"));
}

#[test]
fn kinds_of_error() {
    assert!(CommonError::parse("x").is_input_error());
    assert!(!CommonError::config("x").is_input_error());
    assert!(CommonError::Timeout("x".into()).is_recoverable());
    assert!(CommonError::External("x".into()).is_recoverable());
    assert!(!CommonError::PermissionDenied("x".into()).is_recoverable());
    assert!(!CommonError::custom("x").is_recoverable());
}

#[test]
fn every_message() {
    assert_eq!(CommonError::invalid_input("x").message(), "Invalid input: x");
    assert_eq!(CommonError::config("x").message(), "Configuration error: x");
    assert_eq!(CommonError::parse("x").message(), "Parse error: x");
    assert_eq!(CommonError::PermissionDenied("x".into()).message(), "Permission denied: x");
    assert_eq!(CommonError::Timeout("x".into()).message(), "Timeout: x");
    assert_eq!(CommonError::External("x".into()).message(), "External error: x");
    assert_eq!(CommonError::custom("x").message(), "x");
    let io = std::io::Error::new(std::io::ErrorKind::Other, "disk");
    let err = CommonError::from(io);
    assert!(matches!(err, CommonError::Io(_)));
    assert_eq!(err.message(), "IO error: disk");
}
