use log_analyzer::models::{LogEntry, LogLevel};
use log_analyzer::statistics::{top_counts, Statistics};
use log_analyzer::table::KeyedTable;
use log_analyzer::time::Timestamp;

fn entry(level: LogLevel, msg: &str, source: Option<&str>, secs: i64) -> LogEntry {
    let mut e = LogEntry::new(level, msg.to_string(), msg.to_string(), "app.log".to_string());
    e.timestamp = Timestamp { secs, nanos: 500 };
    match source {
        Some(s) => e.with_source(s.to_string()),
        None => e,
    }
}

#[test]
fn counts_add_up_and_rates() {
    let mut s = Statistics::new();
    assert_eq!(s.error_fraction(), None);
    assert_eq!(s.duration(), None);
    s.update(&entry(LogLevel::Error, "boom", Some("db"), 10));
    s.update(&entry(LogLevel::Warn, "slow", Some("db"), 11));
    s.update(&entry(LogLevel::Info, "ok", Some("web"), 12));
    s.update(&entry(LogLevel::Error, "boom", None, 15));
    assert_eq!(s.total_entries, 4);
    let levels = [LogLevel::Trace, LogLevel::Debug, LogLevel::Info, LogLevel::Warn, LogLevel::Error, LogLevel::Unknown];
    assert_eq!(levels.iter().map(|l| s.get_level_count(l)).sum::<u64>(), s.total_entries);
    assert_eq!(s.get_level_count(&LogLevel::Error), 2);
    assert_eq!(s.get_level_count(&LogLevel::Warn), 1);
    assert_eq!(s.get_level_count(&LogLevel::Debug), 0);
    assert_eq!(s.error_fraction(), Some((2, 4)));
    assert_eq!(s.warn_fraction(), Some((1, 4)));
    assert_eq!(s.first_entry, Some(Timestamp { secs: 10, nanos: 500 }));
    assert_eq!(s.last_entry, Some(Timestamp { secs: 15, nanos: 500 }));
    assert_eq!(s.duration(), Some(5_000_000_000));
    assert_eq!(s.source_counts.get("db").copied(), Some(2));
    assert_eq!(s.source_counts.get("web").copied(), Some(1));
    assert_eq!(s.repeated_messages.get("boom").copied(), Some(2));
}

#[test]
fn top_lists_are_ordered_by_count() {
    let mut s = Statistics::new();
    for (src, n) in [("a", 1), ("b", 3), ("c", 2), ("d", 3)] {
        for _ in 0..n {
            s.update(&entry(LogLevel::Info, src, Some(src), 0));
        }
    }
    let top = s.top_sources(3);
    assert_eq!(top, vec![("b".to_string(), 3), ("d".to_string(), 3), ("c".to_string(), 2)]);
    assert_eq!(s.top_sources(0), vec![]);
    assert_eq!(s.top_sources(10).len(), 4);
    let rep = s.top_repeated(1);
    assert_eq!(rep.len(), 1);
    assert_eq!(rep[0].1, 3);
}

#[test]
fn top_counts_of_empty_table() {
    let t: KeyedTable<u64> = KeyedTable::new();
    assert!(top_counts(&t, 5).is_empty());
}

#[test]
fn user_counts_only_for_named_users() {
    let mut s = Statistics::new();
    s.update(&entry(LogLevel::Info, "x", None, 0).with_user("ann".to_string()));
    s.update(&entry(LogLevel::Info, "x", None, 0));
    assert_eq!(s.user_counts.len(), 1);
    assert_eq!(s.user_counts.get("ann").copied(), Some(1));
    assert_eq!(s.source_counts.len(), 0);
}

#[test]
fn message_counts_add_up_to_the_total() {
    let mut s = Statistics::new();
    s.update(&entry(LogLevel::Error, "boom", Some("db"), 10));
    s.update(&entry(LogLevel::Info, "boom", None, 11));
    s.update(&entry(LogLevel::Info, "ok", Some("web"), 12));
    let messages: u64 = s.top_repeated(10).iter().map(|(_, n)| *n).sum();
    assert_eq!(messages, s.total_entries);
    let sources: u64 = s.top_sources(10).iter().map(|(_, n)| *n).sum();
    assert_eq!(sources, 2);
    assert!(sources <= s.total_entries);
}
