use redfire_gateway::logger::{parse_log_level, LogLevel};

fn tracing_level(l: LogLevel) -> tracing::Level {
    match l {
        LogLevel::Trace => tracing::Level::TRACE,
        LogLevel::Debug => tracing::Level::DEBUG,
        LogLevel::Info => tracing::Level::INFO,
        LogLevel::Warn => tracing::Level::WARN,
        LogLevel::Error => tracing::Level::ERROR,
    }
}

#[test]
fn test_parse_log_level() {
    assert_eq!(tracing_level(parse_log_level("info").unwrap()), tracing::Level::INFO);
    assert_eq!(tracing_level(parse_log_level("DEBUG").unwrap()), tracing::Level::DEBUG);
    assert_eq!(tracing_level(parse_log_level("Error").unwrap()), tracing::Level::ERROR);
    assert!(parse_log_level("invalid").is_err());
}

#[test]
fn log_level_names_ignore_case() {
    assert_eq!(parse_log_level("wArN").unwrap(), LogLevel::Warn);
    assert_eq!(parse_log_level("TRACE").unwrap(), LogLevel::Trace);
    assert_eq!(parse_log_level("infos").unwrap_err().describe(), "Invalid log level");
}
