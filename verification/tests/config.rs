use log_analyzer::config::{
    default_enabled, default_error_threshold, default_max_sessions, default_priority, default_session_timeout,
    default_time_window, default_true, default_workers, ConfigFormat, OutputConfig, ReportFormat, SessionConfig,
};
use log_analyzer::error::LogAnalyzerError;

#[test]
fn defaults() {
    assert_eq!(default_workers(), 4);
    assert_eq!(default_time_window(), 60);
    assert_eq!(default_error_threshold(), 10);
    assert_eq!(default_priority(), 100);
    assert!(default_enabled());
    assert!(default_true());
    assert_eq!(default_session_timeout(), 3600);
    assert_eq!(default_max_sessions(), 10);
    let o = OutputConfig::default();
    assert!(o.console && o.realtime && o.report_file.is_none());
    assert_eq!(o.report_format, ReportFormat::Json);
    let s = SessionConfig::default();
    assert_eq!(s.timeout_seconds, 3600);
    assert_eq!(s.max_sessions, 10);
    assert!(!s.persist);
    assert!(s.storage_dir.is_none());
}

fn config_message(r: Result<ConfigFormat, LogAnalyzerError>) -> String {
    match r {
        Err(LogAnalyzerError::Config(m)) => m,
        other => panic!("unexpected {:?}", other),
    }
}

#[test]
fn format_for_loading() {
    assert_eq!(ConfigFormat::for_loading(Some("json")).unwrap(), ConfigFormat::Json);
    assert_eq!(ConfigFormat::for_loading(Some("toml")).unwrap(), ConfigFormat::Toml);
    assert_eq!(config_message(ConfigFormat::for_loading(Some("yaml"))), "YAML format requires additional dependencies");
    assert_eq!(config_message(ConfigFormat::for_loading(Some("yml"))), "YAML format requires additional dependencies");
    assert_eq!(config_message(ConfigFormat::for_loading(Some("txt"))), "Unsupported configuration format: Some(\"txt\")");
    assert_eq!(config_message(ConfigFormat::for_loading(None)), "Unsupported configuration format: None");
    assert_eq!(config_message(ConfigFormat::for_loading(Some("JSON"))), "Unsupported configuration format: Some(\"JSON\")");
}

#[test]
fn format_for_saving() {
    assert_eq!(ConfigFormat::for_saving(Some("json")).unwrap(), ConfigFormat::Json);
    assert_eq!(ConfigFormat::for_saving(Some("toml")).unwrap(), ConfigFormat::Toml);
    assert_eq!(config_message(ConfigFormat::for_saving(Some("yaml"))), "Unsupported configuration format");
    assert_eq!(config_message(ConfigFormat::for_saving(None)), "Unsupported configuration format");
}
