use log_analyzer::models::{apply_param_captures, Anomaly, AnomalyType, LogEntry, LogFilter, LogLevel, Severity};
use log_analyzer::table::KeyedTable;
use log_analyzer::statistics::Statistics;
use log_analyzer::time::Timestamp;

fn rate(f: Option<(u64, u64)>) -> f64 {
    match f {
        Some((n, d)) => n as f64 / d as f64,
        None => 0.0,
    }
}

#[test]
fn test_log_level_parsing() {
    assert_eq!(LogLevel::from("ERROR"), LogLevel::Error);
    assert_eq!(LogLevel::from("warn"), LogLevel::Warn);
    assert_eq!(LogLevel::from("INFO"), LogLevel::Info);
    assert_eq!(LogLevel::from("unknown_level"), LogLevel::Unknown);
}

#[test]
fn test_log_level_from_string() {
    assert_eq!(LogLevel::from("ERROR"), LogLevel::Error);
    assert_eq!(LogLevel::from("error"), LogLevel::Error);
    assert_eq!(LogLevel::from("warn"), LogLevel::Warn);
    assert_eq!(LogLevel::from("WARNING"), LogLevel::Warn);
    assert_eq!(LogLevel::from("info"), LogLevel::Info);
    assert_eq!(LogLevel::from("debug"), LogLevel::Debug);
    assert_eq!(LogLevel::from("trace"), LogLevel::Trace);
    assert_eq!(LogLevel::from("unknown"), LogLevel::Unknown);
}

#[test]
fn test_log_entry_contains_keyword() {
    let entry = LogEntry::new(
        LogLevel::Info,
        "User login successful".to_string(),
        "INFO: User login successful".to_string(),
        "/var/log/app.log".to_string(),
    );
    assert!(entry.contains_keyword("login"));
    assert!(entry.contains_keyword("USER"));
    assert!(!entry.contains_keyword("logout"));
}

#[test]
fn test_statistics_update() {
    let mut stats = Statistics::new();
    let entry = LogEntry::new(
        LogLevel::Error,
        "Test error".to_string(),
        "ERROR: Test error".to_string(),
        "/var/log/app.log".to_string(),
    );
    stats.update(&entry);
    assert_eq!(stats.total_entries, 1);
    assert_eq!(stats.get_level_count(&LogLevel::Error), 1);
    assert_eq!(rate(stats.error_fraction()), 1.0);
}

#[test]
fn test_log_filter_matches() {
    let entry = LogEntry::new(
        LogLevel::Error,
        "Database connection failed".to_string(),
        "ERROR: Database connection failed".to_string(),
        "/var/log/app.log".to_string(),
    );

    let filter = LogFilter {
        level: Some(LogLevel::Error),
        keyword: Some("database".to_string()),
        ..Default::default()
    };

    assert!(filter.matches(&entry));

    let wrong_level_filter = LogFilter {
        level: Some(LogLevel::Info),
        ..Default::default()
    };
    assert!(!wrong_level_filter.matches(&entry));
}

#[test]
fn level_aliases_and_mixed_case() {
    assert_eq!(LogLevel::from("Err"), LogLevel::Error);
    assert_eq!(LogLevel::from("WaRnInG"), LogLevel::Warn);
    assert_eq!(LogLevel::from("Trace"), LogLevel::Trace);
    assert_eq!(LogLevel::from(""), LogLevel::Unknown);
    assert_eq!(LogLevel::from(" info"), LogLevel::Unknown);
    assert_eq!(LogLevel::from_lowercase("info"), LogLevel::Info);
    assert_eq!(LogLevel::from_lowercase("INFO"), LogLevel::Unknown);
}

#[test]
fn level_names_round_trip_and_priorities() {
    let levels = [LogLevel::Trace, LogLevel::Debug, LogLevel::Info, LogLevel::Warn, LogLevel::Error, LogLevel::Unknown];
    let names = ["trace", "debug", "info", "warn", "error", "unknown"];
    for (i, l) in levels.iter().enumerate() {
        assert_eq!(LogLevel::from(names[i]), *l);
        assert_eq!(l.priority() as usize, i);
    }
    assert_eq!(LogLevel::default(), LogLevel::Info);
}

#[test]
fn severity_names_and_default() {
    assert_eq!(Severity::Low.to_string(), "LOW");
    assert_eq!(Severity::Medium.to_string(), "MEDIUM");
    assert_eq!(Severity::High.to_string(), "HIGH");
    assert_eq!(Severity::Critical.to_string(), "CRITICAL");
    assert_eq!(Severity::default(), Severity::Low);
    assert!(Severity::Low < Severity::Critical);
}

#[test]
fn keyword_is_case_insensitive_and_checks_raw_line() {
    let entry = LogEntry::new(
        LogLevel::Info,
        "plain".to_string(),
        "SERVICE-X: plain".to_string(),
        "a.log".to_string(),
    );
    assert!(entry.contains_keyword("service-x"));
    assert!(entry.contains_keyword("PLAIN"));
    assert!(entry.contains_keyword(""));
    assert!(!entry.contains_keyword("plainer"));
    let unicode = LogEntry::new(LogLevel::Info, "ÉCOLE ouverte".to_string(), "x".to_string(), "a.log".to_string());
    assert!(unicode.contains_keyword("école"));
}

#[test]
fn builders_set_fields() {
    let e = LogEntry::new(LogLevel::Warn, "m".to_string(), "r".to_string(), "f".to_string())
        .with_source("svc".to_string())
        .with_user("bob".to_string())
        .with_param("k".to_string(), "v".to_string())
        .with_param("k".to_string(), "w".to_string());
    assert_eq!(e.source.as_deref(), Some("svc"));
    assert_eq!(e.user.as_deref(), Some("bob"));
    assert_eq!(e.params.len(), 1);
    assert_eq!(e.params.get("k").map(|s| s.as_str()), Some("w"));
    let d = e.duplicate();
    assert_eq!(d.message, "m");
    assert_eq!(d.params.get("k").map(|s| s.as_str()), Some("w"));
    assert_eq!(d.timestamp, e.timestamp);
}

#[test]
fn parse_params_reads_plain_and_quoted_values() {
    let mut e = LogEntry::new(
        LogLevel::Info,
        "user=alice action=\"log in\" code=42 user=bob".to_string(),
        "raw".to_string(),
        "f".to_string(),
    );
    e.parse_params();
    assert_eq!(e.params.len(), 3);
    assert_eq!(e.params.get("user").map(|s| s.as_str()), Some("bob"));
    assert_eq!(e.params.get("action").map(|s| s.as_str()), Some("log in"));
    assert_eq!(e.params.get("code").map(|s| s.as_str()), Some("42"));
    let mut none = LogEntry::new(LogLevel::Info, "no params here".to_string(), "r".to_string(), "f".to_string());
    none.parse_params();
    assert_eq!(none.params.len(), 0);
}

fn entry_at(level: LogLevel, msg: &str, secs: i64) -> LogEntry {
    let mut e = LogEntry::new(level, msg.to_string(), msg.to_string(), "f".to_string());
    e.timestamp = Timestamp { secs, nanos: 0 };
    e
}

#[test]
fn filter_criteria() {
    let e = entry_at(LogLevel::Warn, "disk almost full", 100).with_source("disk".to_string()).with_user("root".to_string());
    assert!(LogFilter::new().matches(&e));
    let f = LogFilter { min_level: Some(LogLevel::Info), ..Default::default() };
    assert!(f.matches(&e));
    let f = LogFilter { min_level: Some(LogLevel::Error), ..Default::default() };
    assert!(!f.matches(&e));
    let f = LogFilter { source: Some("disk".to_string()), user: Some("root".to_string()), ..Default::default() };
    assert!(f.matches(&e));
    let f = LogFilter { source: Some("net".to_string()), ..Default::default() };
    assert!(!f.matches(&e));
    let f = LogFilter { start_time: Some(Timestamp { secs: 100, nanos: 0 }), end_time: Some(Timestamp { secs: 100, nanos: 0 }), ..Default::default() };
    assert!(f.matches(&e));
    let f = LogFilter { start_time: Some(Timestamp { secs: 100, nanos: 1 }), ..Default::default() };
    assert!(!f.matches(&e));
    let f = LogFilter { end_time: Some(Timestamp { secs: 99, nanos: 999_999_999 }), ..Default::default() };
    assert!(!f.matches(&e));
    let anonymous = entry_at(LogLevel::Warn, "x", 0);
    let f = LogFilter { user: Some("root".to_string()), ..Default::default() };
    assert!(!f.matches(&anonymous));
}

#[test]
fn anomaly_builders() {
    let a = Anomaly::new(AnomalyType::VolumeSpike, "more logs".to_string(), Severity::Medium);
    assert_eq!(a.related_entries.len(), 0);
    let e = entry_at(LogLevel::Info, "x", 1);
    let a = a.with_entries(vec![e]);
    assert_eq!(a.related_entries.len(), 1);
    assert_eq!(a.description, "more logs");
    assert_eq!(a.severity, Severity::Medium);
    assert_eq!(a.anomaly_type, AnomalyType::VolumeSpike);
}

#[test]
fn parameter_matches_fill_the_table_in_order() {
    let mut params: KeyedTable<String> = KeyedTable::new();
    params.insert("user".to_string(), "old".to_string());
    let caps = vec![
        (Some("user".to_string()), None, Some("bob".to_string())),
        (Some("msg".to_string()), Some("hi there".to_string()), None),
        (None, Some("x".to_string()), None),
        (Some("empty".to_string()), None, None),
        (Some("msg".to_string()), None, Some("bye".to_string())),
    ];
    apply_param_captures(&mut params, &caps);
    assert_eq!(params.len(), 2);
    assert_eq!(params.get("user"), Some(&"bob".to_string()));
    assert_eq!(params.get("msg"), Some(&"bye".to_string()));
    assert_eq!(params.get("empty"), None);
}
