use xyio::logging::from_usize;
use xyio::logging::init;
use xyio::logging::severity;
use xyio::logging::LogLevel;
use xyio::logging::LogLevelFilter;
use xyio::logging::Logger;

const LEVELS: [LogLevel; 5] = [
    LogLevel::Error,
    LogLevel::Warn,
    LogLevel::Info,
    LogLevel::Debug,
    LogLevel::Trace,
];

#[test]
fn verbosity_selects_the_level() {
    assert_eq!(LogLevel::Error, from_usize(0));
    assert_eq!(LogLevel::Warn, from_usize(1));
    assert_eq!(LogLevel::Info, from_usize(2));
    assert_eq!(LogLevel::Debug, from_usize(3));
    assert_eq!(LogLevel::Trace, from_usize(4));
    assert_eq!(LogLevel::Trace, from_usize(usize::MAX));
}

#[test]
fn verbosity_never_hides_what_less_of_it_shows() {
    for v in 0..6 {
        for level in LEVELS {
            if Logger::new(from_usize(v)).enabled(level) {
                assert!(Logger::new(from_usize(v + 1)).enabled(level));
            }
        }
    }
}

#[test]
fn severities() {
    assert_eq!(["E", "W", "I", "D", "T"], LEVELS.map(severity));
}

#[test]
fn installed_filter_agrees_with_the_logger() {
    let installed = init(LogLevel::Info);
    assert_eq!(LogLevelFilter::Info, installed.max);
    assert_eq!(Logger::new(LogLevel::Info), installed.logger);
    assert_eq!(
        [true, true, true, false, false],
        LEVELS.map(|level| installed.logger.enabled(level))
    );
    assert_eq!(LogLevelFilter::Error, init(LogLevel::Error).max);
    assert_eq!(LogLevelFilter::Trace, init(LogLevel::Trace).max);
}

#[test]
fn a_line_has_severity_time_thread_and_message() {
    let logger = Logger::new(LogLevel::Debug);
    assert_eq!(
        Some("D, 12:00 -- work#01  : hello".to_string()),
        logger.log(LogLevel::Debug, "12:00", Some("work#01"), "hello")
    );
    assert_eq!(
        Some("E, now -- main     : x".to_string()),
        logger.log(LogLevel::Error, "now", Some("main"), "x")
    );
    assert_eq!(None, logger.log(LogLevel::Trace, "now", Some("main"), "x"));
}

#[test]
fn the_thread_column_is_eight_characters_wide() {
    let logger = Logger::new(LogLevel::Error);
    for name in ["", "a", "eight ch", "a longer name", "\u{442}\u{44b}"] {
        assert_eq!(
            Some(format!("E, now -- {:8.8} : m", name)),
            logger.log(LogLevel::Error, "now", Some(name), "m")
        );
    }
    assert_eq!(
        Some("E, now -- <unnamed : m".to_string()),
        logger.log(LogLevel::Error, "now", None, "m")
    );
}
