use hive_core::local_tracer::LocalTracer;
use hive_core::logger::Logger as PlainLogger;
use hive_core::registry_logger::{LogLevel, Logger};

#[test]
fn levels_by_position() {
    assert_eq!(LogLevel::from_usize(0), Some(LogLevel::Error));
    assert_eq!(LogLevel::from_usize(1), Some(LogLevel::Warn));
    assert_eq!(LogLevel::from_usize(2), Some(LogLevel::Info));
    assert_eq!(LogLevel::from_usize(3), Some(LogLevel::Debug));
    assert_eq!(LogLevel::from_usize(4), Some(LogLevel::Trace));
    assert_eq!(LogLevel::from_usize(5), None);
    assert_eq!(LogLevel::Debug.rank(), 3);
}

#[test]
fn levels_by_name() {
    assert_eq!(LogLevel::from_str("info"), LogLevel::Info);
    assert_eq!(LogLevel::from_str("INFO"), LogLevel::Info);
    assert_eq!(LogLevel::from_str("Error"), LogLevel::Error);
    assert_eq!(LogLevel::from_str("wArN"), LogLevel::Warn);
    assert_eq!(LogLevel::parse("debug"), Some(LogLevel::Debug));
    assert_eq!(LogLevel::parse("trace"), Some(LogLevel::Trace));
    assert_eq!(LogLevel::parse("warning"), None);
    assert_eq!(LogLevel::parse(""), None);
    assert_eq!(LogLevel::parse("inf"), None);
    assert_eq!(LogLevel::Error.as_str(), "ERROR");
    assert_eq!(LogLevel::Warn.as_str(), "WARN");
    assert_eq!(LogLevel::Info.as_str(), "INFO");
    assert_eq!(LogLevel::Debug.as_str(), "DEBUG");
    assert_eq!(LogLevel::Trace.as_str(), "TRACE");
}

#[test]
fn a_logger_shows_its_level_and_the_levels_before_it() {
    let logger = Logger::new(None);
    assert_eq!(logger.max_level, LogLevel::Info);
    assert!(logger.should_log(LogLevel::Error));
    assert!(logger.should_log(LogLevel::Warn));
    assert!(logger.should_log(LogLevel::Info));
    assert!(!logger.should_log(LogLevel::Debug));
    assert!(!logger.should_log(LogLevel::Trace));
    assert_eq!(logger.info("ready"), Some("INFO: ready".to_string()));
    assert_eq!(logger.warn("careful"), Some("WARNING: careful".to_string()));
    assert_eq!(logger.error("failed"), Some("ERROR: failed".to_string()));
    assert_eq!(logger.debug("detail"), None);
    assert_eq!(logger.trace("detail"), None);
    let all = Logger::new(Some("TRACE"));
    assert_eq!(all.debug("detail"), Some("DEBUG: detail".to_string()));
    assert_eq!(all.trace("detail"), Some("TRACE: detail".to_string()));
    assert!(Logger::try_new(Some("loud")).is_none());
    assert_eq!(Logger::try_new(Some("error")).unwrap().max_level, LogLevel::Error);
    assert_eq!(Logger::try_new(None).unwrap().max_level, LogLevel::Info);
}

#[test]
fn the_plain_logger_orders_levels_by_their_score() {
    assert_eq!(PlainLogger::find_log_level_score("trace"), 0);
    assert_eq!(PlainLogger::find_log_level_score("error"), 1);
    assert_eq!(PlainLogger::find_log_level_score("warn"), 2);
    assert_eq!(PlainLogger::find_log_level_score("info"), 3);
    assert_eq!(PlainLogger::find_log_level_score("debug"), 4);
    assert_eq!(PlainLogger::try_log_level_score("INFO"), None);
    assert!(PlainLogger::should_log("info", "warn"));
    assert!(PlainLogger::should_log("info", "info"));
    assert!(!PlainLogger::should_log("info", "debug"));
    assert_eq!(PlainLogger::info("info", "ready"), Some("INFO: ready".to_string()));
    assert_eq!(PlainLogger::debug("info", "detail"), None);
    assert_eq!(PlainLogger::debug("debug", "detail"), Some("DEBUG: detail".to_string()));
    assert_eq!(PlainLogger::warn("error", "careful"), None);
    assert_eq!(PlainLogger::warn("warn", "careful"), Some("WARNING: careful".to_string()));
    assert_eq!(PlainLogger::trace("trace", "step"), Some("TRACE: step".to_string()));
    assert_eq!(PlainLogger::error("trace", "failed"), None);
    assert_eq!(PlainLogger::error("error", "failed"), Some("ERROR: failed".to_string()));
}

#[test]
fn the_tracer_tags_messages_with_their_severity() {
    assert_eq!(LocalTracer::debug("m").level, LogLevel::Debug);
    assert_eq!(LocalTracer::info("m").level, LogLevel::Info);
    assert_eq!(LocalTracer::warn("m").level, LogLevel::Warn);
    assert_eq!(LocalTracer::trace("m").level, LogLevel::Trace);
    assert_eq!(LocalTracer::error("m").level, LogLevel::Error);
    assert_eq!(LocalTracer::info("hello").message, "hello");
}
