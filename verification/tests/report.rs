use log_analyzer::models::{Anomaly, AnomalyType, LogEntry, LogLevel, Severity};
use log_analyzer::report::report_text;
use log_analyzer::statistics::Statistics;
use log_analyzer::time::Timestamp;

fn anomaly(kind: AnomalyType, text: &str, secs: i64, severity: Severity) -> Anomaly {
    Anomaly {
        anomaly_type: kind,
        description: text.to_string(),
        detected_at: Timestamp { secs, nanos: 0 },
        severity,
        related_entries: Vec::new(),
    }
}

#[test]
fn report_lays_out_summary_files_and_recent_anomalies() {
    let mut s = Statistics::new();
    s.update(&LogEntry::new(LogLevel::Error, "a".to_string(), "a".to_string(), "app.log".to_string()));
    s.update(&LogEntry::new(LogLevel::Warn, "b".to_string(), "b".to_string(), "app.log".to_string()));
    s.update(&LogEntry::new(LogLevel::Info, "c".to_string(), "c".to_string(), "app.log".to_string()));
    s.update(&LogEntry::new(LogLevel::Info, "d".to_string(), "d".to_string(), "app.log".to_string()));
    let stats = vec![("app.log".to_string(), s)];
    let rates = vec!["25.00".to_string()];
    let anomalies = vec![
        anomaly(AnomalyType::ErrorSpike, "spike", 0, Severity::High),
        anomaly(AnomalyType::RuleViolation, "rule hit", 86400 + 3661, Severity::Critical),
    ];
    let text = report_text("s-1", "2024-01-02 03:04:05", 4, &stats, &rates, &anomalies);
    let expected = "Log Analysis Report\n==================\nGenerated: 2024-01-02 03:04:05\nSession: s-1\n\n\
Summary\n-------\nTotal processed: 4\nTotal anomalies: 2\n\n\
Statistics by File\n------------------\nFile: app.log\n  Total: 4\n  Errors: 1\n  Warnings: 1\n  Error rate: 25.00%\n\n\
Recent Anomalies\n----------------\n\
[1970-01-02 01:01:01] [CRITICAL] RULE: rule hit\n\
[1970-01-01 00:00:00] [HIGH] ERROR_SPIKE: spike\n";
    assert_eq!(text, expected);
}

#[test]
fn report_lists_the_twenty_newest_anomalies() {
    let anomalies: Vec<Anomaly> = (0..25)
        .map(|i| anomaly(AnomalyType::VolumeSpike, &format!("v{}", i), i, Severity::Medium))
        .collect();
    let text = report_text("s", "now", 0, &Vec::new(), &Vec::new(), &anomalies);
    let lines: Vec<&str> = text.lines().collect();
    let start = lines.iter().position(|l| *l == "----------------").unwrap() + 1;
    let listed = &lines[start..];
    assert_eq!(listed.len(), 20);
    assert_eq!(listed[0], "[1970-01-01 00:00:24] [MEDIUM] VOLUME: v24");
    assert_eq!(listed[19], "[1970-01-01 00:00:05] [MEDIUM] VOLUME: v5");
    assert!(text.contains("Total anomalies: 25\n"));
    assert!(text.contains("Statistics by File\n------------------\nRecent Anomalies\n"));
}
