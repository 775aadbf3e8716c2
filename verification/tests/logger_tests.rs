use log::LevelFilter;
use sni_proxy::{LogConfig, LogLevel, LogOutput};

#[test]
fn test_log_level_from_str() {
    assert_eq!(LogLevel::from_str("error"), Some(LogLevel::Error));
    assert_eq!(LogLevel::from_str("ERROR"), Some(LogLevel::Error));
    assert_eq!(LogLevel::from_str("warn"), Some(LogLevel::Warn));
    assert_eq!(LogLevel::from_str("warning"), Some(LogLevel::Warn));
    assert_eq!(LogLevel::from_str("info"), Some(LogLevel::Info));
    assert_eq!(LogLevel::from_str("debug"), Some(LogLevel::Debug));
    assert_eq!(LogLevel::from_str("trace"), Some(LogLevel::Trace));
    assert_eq!(LogLevel::from_str("off"), Some(LogLevel::Off));
    assert_eq!(LogLevel::from_str("invalid"), None);
}

#[test]
fn test_log_level_to_level_filter() {
    assert_eq!(LogLevel::Off.to_level_filter(), LevelFilter::Off);
    assert_eq!(LogLevel::Error.to_level_filter(), LevelFilter::Error);
    assert_eq!(LogLevel::Warn.to_level_filter(), LevelFilter::Warn);
    assert_eq!(LogLevel::Info.to_level_filter(), LevelFilter::Info);
    assert_eq!(LogLevel::Debug.to_level_filter(), LevelFilter::Debug);
    assert_eq!(LogLevel::Trace.to_level_filter(), LevelFilter::Trace);
}

#[test]
fn test_log_config_default() {
    let config = LogConfig::default();
    assert_eq!(config.level, LogLevel::Info);
    assert!(config.show_timestamp);
    assert!(config.show_module);
    assert!(config.use_color);
}

#[test]
fn test_log_config_builder() {
    let config = LogConfig::new(LogLevel::Debug)
        .with_timestamp(false)
        .with_module(false)
        .with_color(false);

    assert_eq!(config.level, LogLevel::Debug);
    assert!(!config.show_timestamp);
    assert!(!config.show_module);
    assert!(!config.use_color);
}

#[test]
fn test_log_config_with_file() {
    let config = LogConfig::new(LogLevel::Info).with_file("test.log");
    assert!(matches!(config.output, LogOutput::File(_)));
}

#[test]
fn test_log_config_with_rotating_file() {
    let config = LogConfig::new(LogLevel::Info).with_rotating_file("test.log", 1024 * 1024, 5);
    assert!(matches!(config.output, LogOutput::RotatingFile { .. }));
}
