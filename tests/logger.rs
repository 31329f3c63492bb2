use pgml_bridge::logger::{format_line, level_name, Level, LevelFilter, SimpleLogger};

#[test]
fn default_logger_accepts_errors_only() {
    let l = SimpleLogger::default();
    assert!(l.enabled(Level::Error));
    assert!(!l.enabled(Level::Warn));
    assert!(!l.enabled(Level::Trace));
}

#[test]
fn warn_filter_accepts_warn_and_error() {
    let l = SimpleLogger::new(LevelFilter::Warn);
    assert!(l.enabled(Level::Error));
    assert!(l.enabled(Level::Warn));
    assert!(!l.enabled(Level::Info));
}

#[test]
fn off_filter_accepts_nothing() {
    let l = SimpleLogger::new(LevelFilter::Off);
    assert_eq!(l.log(Level::Error, "x"), None);
}

#[test]
fn line_format() {
    assert_eq!(format_line(Level::Error, "disk full"), "ERROR - disk full");
    assert_eq!(format_line(Level::Warn, ""), "WARN - ");
    assert_eq!(level_name(Level::Info), "INFO");
    assert_eq!(level_name(Level::Debug), "DEBUG");
    assert_eq!(level_name(Level::Trace), "TRACE");
}

#[test]
fn log_returns_line_when_accepted() {
    let l = SimpleLogger::new(LevelFilter::Info);
    assert_eq!(l.log(Level::Info, "ready"), Some("INFO - ready".to_string()));
    assert_eq!(l.log(Level::Debug, "noise"), None);
}
