use commons::logging::{LogLevel, Logger};

#[test]
fn a_new_logger_passes_info_and_above() {
    let logger = Logger::new("app::db");
    assert!(!logger.enabled(LogLevel::Trace));
    assert!(!logger.enabled(LogLevel::Debug));
    assert!(logger.enabled(LogLevel::Info));
    assert!(logger.enabled(LogLevel::Warn));
    assert!(logger.enabled(LogLevel::Error));
    assert_eq!(logger.trace("t"), None);
    assert_eq!(logger.debug("d"), None);
    assert!(logger.info("i").is_some());
    assert!(logger.warn("w").is_some());
    assert!(logger.error("e").is_some());
}

#[test]
fn set_level_moves_the_bar() {
    let mut logger = Logger::new("m");
    logger.set_level(LogLevel::Error);
    assert_eq!(logger.warn("w"), None);
    assert!(logger.error("e").is_some());
    logger.set_level(LogLevel::Trace);
    assert!(logger.trace("t").is_some());
    assert!(logger.log(LogLevel::Debug, "d").is_some());
}

#[test]
fn a_line_reads_as_stated() {
    let logger = Logger::new("app::db");
    assert_eq!(
        logger.line(1_700_000_000, LogLevel::Warn, "disk is full"),
        "[1700000000] WARN [app::db] disk is full"
    );
    assert_eq!(logger.line(0, LogLevel::Trace, ""), "[0] TRACE [app::db] ");
    let line = logger.error("boom").unwrap();
    assert!(line.starts_with('['));
    assert!(line.ends_with("] ERROR [app::db] boom"));
}

#[test]
fn levels_are_ordered_and_named() {
    let levels = [LogLevel::Trace, LogLevel::Debug, LogLevel::Info, LogLevel::Warn, LogLevel::Error];
    let names = ["TRACE", "DEBUG", "INFO", "WARN", "ERROR"];
    for (rank, level) in levels.iter().enumerate() {
        assert_eq!(level.severity() as usize, rank);
        assert_eq!(level.name(), names[rank]);
    }
    assert!(LogLevel::Trace < LogLevel::Debug);
    assert!(LogLevel::Warn < LogLevel::Error);
}
