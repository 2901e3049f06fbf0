use commons::version;

#[test]
fn test_version() {
    assert_eq!(version(), "0.0.1");
}

#[test]
fn version_constant_matches() {
    assert_eq!(commons::VERSION, version());
}
