use log_analyzer::error::LogAnalyzerError;
use log_analyzer::models::{Anomaly, AnomalyType, LogEntry, LogLevel, Severity};
use log_analyzer::monitor::MonitorState;
use log_analyzer::session::{Session, SessionFilters, SessionManager};
use log_analyzer::statistics::Statistics;
use log_analyzer::tui_state::{
    distinct_files, footer_line, header_line, logs_title, push_bounded, visible_logs, Key, ViewState,
};

fn entry(level: LogLevel, msg: &str, file: &str) -> LogEntry {
    LogEntry::new(level, msg.to_string(), msg.to_string(), file.to_string())
}

#[test]
fn monitor_lifecycle() {
    let mut m = MonitorState::new();
    assert!(!m.running);
    assert!(m.begin().is_ok());
    match m.begin() {
        Err(LogAnalyzerError::AnomalyDetection(msg)) => assert_eq!(msg, "Analyzer is already running"),
        other => panic!("unexpected {:?}", other),
    }
    match m.add_file("/missing.log".to_string(), false, 0) {
        Err(LogAnalyzerError::FileNotFound(p)) => assert_eq!(p, "/missing.log"),
        other => panic!("unexpected {:?}", other),
    }
    assert!(m.add_file("/a.log".to_string(), true, 0).is_ok());
    assert!(m.add_file("/b.log".to_string(), true, 0).is_ok());
    assert!(m.accepts("/a.log"));
    assert!(!m.accepts("/c.log"));
    assert_eq!(m.watched_paths(), vec!["/a.log".to_string(), "/b.log".to_string()]);
    assert!(m.remove_file("/a.log").is_ok());
    assert!(!m.accepts("/a.log"));
    assert!(matches!(m.remove_file("/a.log"), Err(LogAnalyzerError::FileNotFound(_))));
    assert!(m.halt());
    assert!(!m.running);
    assert!(!m.accepts("/b.log"));
    assert!(!m.halt());
    assert!(m.begin().is_ok());
}

#[test]
fn monitor_reads_each_new_line_once() {
    let mut m = MonitorState::new();
    assert!(m.begin().is_ok());
    assert!(m.add_file("logs/app.log".to_string(), true, 5).is_ok());
    assert_eq!(m.advance("logs/app.log", 17), Some(5));
    assert_eq!(m.advance("logs/app.log", 17), Some(17));
    assert_eq!(m.advance("logs/app.log", 20), Some(17));
    assert_eq!(m.advance("logs/app.log", 4), Some(0));
    assert_eq!(m.advance("logs/other.log", 4), None);
    assert!(m.halt());
    assert_eq!(m.advance("logs/app.log", 9), None);
    assert_eq!(m.files[0].lines_read, 4);
}

#[test]
fn monitor_compares_paths_as_paths() {
    let mut m = MonitorState::new();
    assert!(m.add_file("logs/app.log".to_string(), true, 0).is_ok());
    assert!(m.accepts("logs//app.log"));
    assert!(m.add_file("logs/./app.log".to_string(), true, 3).is_ok());
    assert_eq!(m.watched_paths(), vec!["logs/app.log".to_string()]);
    assert_eq!(m.files[0].lines_read, 3);
    assert!(m.remove_file("logs//app.log").is_ok());
    assert!(m.watched_paths().is_empty());
}

#[test]
fn session_basics() {
    let mut s = Session::new("s1".to_string());
    assert_eq!(s.created_at, s.last_activity);
    assert!(s.filters.is_empty());
    s.add_monitored_file("/var/log/a.log".to_string());
    s.add_monitored_file("/var/log/a.log".to_string());
    s.add_monitored_file("/var/log//a.log".to_string());
    s.add_monitored_file("/var/log/b.log".to_string());
    assert_eq!(s.monitored_files, vec!["/var/log/a.log".to_string(), "/var/log/b.log".to_string()]);
    s.remove_monitored_file("/var/log/./a.log");
    assert_eq!(s.monitored_files, vec!["/var/log/b.log".to_string()]);
    for i in 0..5 {
        s.add_recent_log(entry(LogLevel::Info, &format!("m{}", i), "f"), 3);
    }
    assert_eq!(s.recent_logs.len(), 3);
    assert_eq!(s.recent_logs[0].message, "m2");
    assert_eq!(s.recent_logs[2].message, "m4");
    s.add_anomaly(Anomaly::new(AnomalyType::RepeatedEvent, "r".to_string(), Severity::Low));
    s.update_statistics("f".to_string(), Statistics::new());
    assert_eq!(s.statistics.len(), 1);
    assert!(s.duration() >= 0);
    let info = s.info();
    assert!(info.starts_with("Session s1 (created: "));
    assert!(info.ends_with(", files: 1, logs: 3, anomalies: 1)"));
    assert_eq!(info.len(), "Session s1 (created: 2024-01-01 00:00:00, files: 1, logs: 3, anomalies: 1)".len());
}

#[test]
fn session_filters() {
    let mut f = SessionFilters::new();
    assert!(f.is_empty());
    f.keyword = Some("x".to_string());
    assert!(!f.is_empty());
    let g = SessionFilters { levels: vec![LogLevel::Error], ..SessionFilters::default() };
    assert!(!g.is_empty());
    let h = SessionFilters { min_severity: Some(Severity::High), ..SessionFilters::default() };
    assert!(!h.is_empty());
}

#[test]
fn session_manager_lifecycle() {
    let mut m = SessionManager::new();
    assert!(m.storage_dir().is_none());
    let id = m.create_session();
    assert_eq!(id.len(), 36);
    let chars: Vec<char> = id.chars().collect();
    for (i, c) in chars.iter().enumerate() {
        if [8, 13, 18, 23].contains(&i) {
            assert_eq!(*c, '-');
        } else {
            assert!(c.is_ascii_digit() || ('a'..='f').contains(c));
        }
    }
    assert_eq!(chars[14], '4');
    assert!(['8', '9', 'a', 'b'].contains(&chars[19]));
    let fresh = m.get_session(&id).unwrap();
    assert_eq!(fresh.id, id);
    assert_eq!(fresh.created_at, fresh.last_activity);
    assert!(fresh.filters.is_empty());
    assert!(fresh.statistics.len() == 0 && fresh.metadata.len() == 0);
    assert!(fresh.monitored_files.is_empty() && fresh.recent_logs.is_empty() && fresh.anomalies.is_empty());
    assert_eq!(m.list_sessions(), vec![id.clone()]);
    assert!(m.restore_session(&id, None).is_ok());
    match m.restore_session("nope", None) {
        Err(LogAnalyzerError::Session(msg)) => assert_eq!(msg, "Session 'nope' not found"),
        other => panic!("unexpected {:?}", other),
    }
    assert!(m.restore_session("old", Some(Session::new("old".to_string()))).is_ok());
    assert!(m.get_session("old").is_some());
    if let Some(s) = m.get_session_mut(&id) {
        s.add_monitored_file("/x.log".to_string());
    }
    assert_eq!(m.get_session(&id).unwrap().monitored_files, vec!["/x.log".to_string()]);
    assert!(m.get_session_mut("absent").is_none());
    assert!(m.remove_session(&id).is_ok());
    assert!(m.get_session(&id).is_none());
    assert_eq!(m.list_sessions(), vec!["old".to_string()]);
    match m.remove_session(&id) {
        Err(LogAnalyzerError::Session(msg)) => assert_eq!(msg, format!("Session '{}' not found", id)),
        other => panic!("unexpected {:?}", other),
    }
    let m = m.with_storage_dir("/tmp/sessions".to_string());
    assert_eq!(m.storage_dir().map(|s| s.as_str()), Some("/tmp/sessions"));
    assert_eq!(m.list_sessions(), vec!["old".to_string()]);
    let d = SessionManager::default();
    assert!(d.list_sessions().is_empty());
}

#[test]
fn keys_switch_tabs_and_scroll() {
    let mut v = ViewState::new();
    assert!(!v.handle_key(Key::Tab, 0));
    assert_eq!(v.active_tab, 1);
    v.handle_key(Key::Tab, 0);
    v.handle_key(Key::Tab, 0);
    assert_eq!(v.active_tab, 0);
    v.handle_key(Key::Char('3'), 0);
    assert_eq!(v.active_tab, 2);
    v.handle_key(Key::Char('1'), 0);
    assert_eq!(v.active_tab, 0);
    v.handle_key(Key::Up, 5);
    assert_eq!(v.scroll_offset, 0);
    for _ in 0..10 {
        v.handle_key(Key::Down, 5);
    }
    assert_eq!(v.scroll_offset, 4);
    v.handle_key(Key::Up, 5);
    assert_eq!(v.scroll_offset, 3);
    v.handle_key(Key::Down, 0);
    assert_eq!(v.scroll_offset, 3);
    assert!(!v.handle_key(Key::Char('/'), 5));
    assert!(!v.handle_key(Key::Other, 5));
    assert!(v.handle_key(Key::Char('q'), 5));
}

#[test]
fn visible_logs_filter_reverse_skip_take() {
    let logs = vec![
        entry(LogLevel::Error, "e0", "a"),
        entry(LogLevel::Info, "i1", "a"),
        entry(LogLevel::Error, "e2 disk", "b"),
        entry(LogLevel::Error, "e3", "a"),
        entry(LogLevel::Error, "e4 DISK", "c"),
    ];
    assert_eq!(visible_logs(&logs, None, None, 0, 10), vec![4, 3, 2, 1, 0]);
    assert_eq!(visible_logs(&logs, Some(LogLevel::Error), None, 1, 4), vec![3, 2]);
    assert_eq!(visible_logs(&logs, None, Some("disk"), 0, 10), vec![4, 2]);
    assert_eq!(visible_logs(&logs, None, None, 9, 10), Vec::<usize>::new());
    assert_eq!(visible_logs(&logs, None, None, 0, 2), Vec::<usize>::new());
    assert_eq!(distinct_files(&logs), 3);
    assert_eq!(distinct_files(&vec![]), 0);
}

#[test]
fn bounded_buffers_and_texts() {
    let mut buf = vec![1, 2, 3];
    push_bounded(&mut buf, 4, 3);
    assert_eq!(buf, vec![2, 3, 4]);
    push_bounded(&mut buf, 5, 5);
    assert_eq!(buf, vec![2, 3, 4, 5]);
    assert_eq!(header_line("abc", 2, 17), "Log Analyzer - Session: abc | Files: 2 | Processed: 17");
    assert_eq!(logs_title(3, 120), "Live Logs (showing 3 of 120)");
    assert_eq!(logs_title(0, 0), "Live Logs (showing 0 of 0)");
    assert_eq!(footer_line(Some("err")), "Filter: 'err' | Press 'q' to quit, Tab to switch views");
    assert_eq!(footer_line(None), "Press 'q' to quit, Tab to switch views, ↑↓ to scroll");
}
