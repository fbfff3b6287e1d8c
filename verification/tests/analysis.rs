use log_analyzer::analysis::{
    compile_rule_patterns, detect_error_spike, detect_repeated_events, entries_after, evaluate_rules, parse_log_line,
    process_log_entry, severity_from_lowercase, severity_from_name, VolumeWatch,
};
use log_analyzer::config::{Rule, RuleAction, RuleCondition};
use log_analyzer::models::{AnomalyType, LogEntry, LogLevel, Severity};
use log_analyzer::statistics::Statistics;
use log_analyzer::table::KeyedTable;

fn rule(id: &str, condition: RuleCondition, action: RuleAction) -> Rule {
    Rule {
        id: id.to_string(),
        name: format!("rule {}", id),
        condition,
        log_format: None,
        action,
        priority: 100,
        enabled: true,
    }
}

fn warn(sev: &str) -> RuleAction {
    RuleAction::Warn { severity: sev.to_string() }
}

fn line(s: &str) -> LogEntry {
    parse_log_line(s, "app.log".to_string()).unwrap()
}

#[test]
fn parses_bracketed_colon_and_plain_lines() {
    let e = line("[ERROR]   disk full  ");
    assert_eq!(e.level, LogLevel::Error);
    assert_eq!(e.message, "disk full");
    assert_eq!(e.raw_line, "[ERROR]   disk full  ");
    assert_eq!(e.file_path, "app.log");
    let e = line("Warning: low memory");
    assert_eq!(e.level, LogLevel::Warn);
    assert_eq!(e.message, "low memory");
    let e = line("just text");
    assert_eq!(e.level, LogLevel::Info);
    assert_eq!(e.message, "just text");
    let e = line("[x] a: b");
    assert_eq!(e.level, LogLevel::Unknown);
    assert_eq!(e.message, "a: b");
    let e = line("time 12:00 [INFO] ok");
    assert_eq!(e.level, LogLevel::Unknown);
    assert_eq!(e.message, "ok");
    let e = line("");
    assert_eq!(e.level, LogLevel::Info);
    assert_eq!(e.message, "");
    let e = line(":");
    assert_eq!(e.level, LogLevel::Unknown);
    assert_eq!(e.message, "");
}

#[test]
fn reads_only_lines_after_the_read_position() {
    let lines: Vec<String> = (0..12).map(|i| format!("INFO: line {}", i)).collect();
    let entries = entries_after(&lines, 0, "f.log");
    assert_eq!(entries.len(), 12);
    assert_eq!(entries[0].message, "line 0");
    assert_eq!(entries[11].message, "line 11");
    assert_eq!(entries[3].file_path, "f.log");
    let entries = entries_after(&lines, 9, "f.log");
    assert_eq!(entries.len(), 3);
    assert_eq!(entries[0].message, "line 9");
    assert!(entries_after(&lines, 12, "f.log").is_empty());
    let short: Vec<String> = vec!["[DEBUG] a".to_string(), "b".to_string()];
    let entries = entries_after(&short, 0, "f.log");
    assert_eq!(entries.len(), 2);
    assert_eq!(entries[0].level, LogLevel::Debug);
    assert_eq!(entries[1].level, LogLevel::Info);
}

#[test]
fn repeated_messages_over_the_threshold_are_reported() {
    let mut stats: KeyedTable<Statistics> = KeyedTable::new();
    for _ in 0..3 {
        process_log_entry(line("ERROR: db down"), &Vec::new(), &KeyedTable::new(), &mut stats);
    }
    process_log_entry(line("INFO: ok"), &Vec::new(), &KeyedTable::new(), &mut stats);
    let r = detect_repeated_events(&stats, 2);
    assert_eq!(r.len(), 1);
    assert_eq!(r[0].anomaly_type, AnomalyType::RepeatedEvent);
    assert_eq!(r[0].severity, Severity::Medium);
    assert_eq!(r[0].description, "Message repeated 3 times in app.log (threshold: 2): db down");
    assert!(r[0].related_entries.is_empty());
    assert!(detect_repeated_events(&stats, 3).is_empty());
    assert_eq!(detect_repeated_events(&stats, 0).len(), 2);
}

#[test]
fn severity_names() {
    assert_eq!(severity_from_name("CRITICAL"), Severity::Critical);
    assert_eq!(severity_from_name("High"), Severity::High);
    assert_eq!(severity_from_name("medium"), Severity::Medium);
    assert_eq!(severity_from_name("low"), Severity::Low);
    assert_eq!(severity_from_name("severe"), Severity::Low);
}

#[test]
fn compiles_only_valid_patterns() {
    let rules = vec![
        rule("p1", RuleCondition::Pattern("time(out|d)".to_string()), warn("high")),
        rule("p2", RuleCondition::Pattern("unclosed(".to_string()), warn("high")),
        rule("k", RuleCondition::Keyword("x".to_string()), warn("high")),
    ];
    let t = compile_rule_patterns(&rules);
    assert_eq!(t.len(), 1);
    assert!(t.contains_key("p1"));
    assert!(!t.contains_key("p2"));
}

#[test]
fn rules_raise_anomalies_in_order_until_ignore() {
    let rules = vec![
        rule("lvl", RuleCondition::Level(LogLevel::Error), warn("critical")),
        rule("off", RuleCondition::All, warn("high")),
        rule("kw", RuleCondition::Keyword("DISK".to_string()), warn("Medium")),
        rule("cnt", RuleCondition::All, RuleAction::Count),
        rule("pat", RuleCondition::Pattern("fu+ll".to_string()), warn("low")),
        rule("thr", RuleCondition::ErrorThreshold { count: 5, window_seconds: 60 }, warn("high")),
        rule("stop", RuleCondition::Source("none".to_string()), RuleAction::Ignore),
        rule("ign", RuleCondition::All, RuleAction::Ignore),
        rule("after", RuleCondition::All, warn("critical")),
    ];
    let mut rules = rules;
    rules[1].enabled = false;
    let patterns = compile_rule_patterns(&rules);
    let e = line("[ERROR] disk full");
    let out = evaluate_rules(&e, &rules, &patterns);
    assert_eq!(out.len(), 4);
    assert_eq!(out[0].severity, Severity::Critical);
    assert_eq!(out[0].description, "Rule 'rule lvl' triggered: disk full");
    assert_eq!(out[1].severity, Severity::Medium);
    assert_eq!(out[2].severity, Severity::Low);
    assert_eq!(out[3].severity, Severity::High);
    for a in &out {
        assert_eq!(a.anomaly_type, AnomalyType::RuleViolation);
        assert_eq!(a.related_entries.len(), 1);
        assert_eq!(a.related_entries[0].message, "disk full");
    }
    let info = line("[INFO] all good");
    let out = evaluate_rules(&info, &rules, &patterns);
    assert_eq!(out.len(), 0);
}

#[test]
fn pattern_matches_raw_line_too() {
    let rules = vec![rule("p", RuleCondition::Pattern("^\\[WARN\\]".to_string()), warn("medium"))];
    let patterns = compile_rule_patterns(&rules);
    let e = line("[WARN] x");
    assert_eq!(evaluate_rules(&e, &rules, &patterns).len(), 1);
    let empty_patterns = KeyedTable::new();
    assert_eq!(evaluate_rules(&e, &rules, &empty_patterns).len(), 0);
}

#[test]
fn processing_records_statistics_per_file() {
    let rules = vec![rule("w", RuleCondition::Source("db".to_string()), warn("high"))];
    let patterns = compile_rule_patterns(&rules);
    let mut stats: KeyedTable<Statistics> = KeyedTable::new();
    let a = process_log_entry(line("[ERROR] one").with_source("db".to_string()), &rules, &patterns, &mut stats);
    assert_eq!(a.len(), 1);
    let b = process_log_entry(line("INFO: two"), &rules, &patterns, &mut stats);
    assert_eq!(b.len(), 0);
    let other = parse_log_line("[WARN] three", "other.log".to_string()).unwrap();
    process_log_entry(other, &rules, &patterns, &mut stats);
    assert_eq!(stats.len(), 2);
    let s = stats.get("app.log").unwrap();
    assert_eq!(s.total_entries, 2);
    assert_eq!(s.get_level_count(&LogLevel::Error), 1);
    assert_eq!(stats.get("other.log").unwrap().get_level_count(&LogLevel::Warn), 1);
}

#[test]
fn error_spike_above_threshold_only() {
    let rules: Vec<Rule> = vec![];
    let patterns = compile_rule_patterns(&rules);
    let mut stats: KeyedTable<Statistics> = KeyedTable::new();
    for i in 0..3 {
        let path = if i == 0 { "a.log" } else { "b.log" };
        process_log_entry(parse_log_line("[ERROR] e", path.to_string()).unwrap(), &rules, &patterns, &mut stats);
    }
    assert!(detect_error_spike(&stats, 3, 60).is_none());
    let a = detect_error_spike(&stats, 2, 60).unwrap();
    assert_eq!(a.anomaly_type, AnomalyType::ErrorSpike);
    assert_eq!(a.severity, Severity::High);
    assert_eq!(a.description, "Error count (3) exceeded threshold (2) in last 60 seconds");
    let empty: KeyedTable<Statistics> = KeyedTable::new();
    assert!(detect_error_spike(&empty, 0, 1).is_none());
}

#[test]
fn volume_watch_reports_current_and_previous_totals() {
    let rules: Vec<Rule> = vec![];
    let patterns = compile_rule_patterns(&rules);
    let mut stats: KeyedTable<Statistics> = KeyedTable::new();
    let mut watch = VolumeWatch::new();
    assert_eq!(watch.observe(&stats), (0, 0));
    process_log_entry(line("a"), &rules, &patterns, &mut stats);
    process_log_entry(line("b"), &rules, &patterns, &mut stats);
    assert_eq!(watch.observe(&stats), (2, 0));
    process_log_entry(line("c"), &rules, &patterns, &mut stats);
    assert_eq!(watch.observe(&stats), (3, 2));
    assert_eq!(watch.previous.get("app.log").copied(), Some(3));
}

#[test]
fn severity_from_lowercase_names() {
    assert_eq!(severity_from_lowercase("critical"), Severity::Critical);
    assert_eq!(severity_from_lowercase("high"), Severity::High);
    assert_eq!(severity_from_lowercase("medium"), Severity::Medium);
    assert_eq!(severity_from_lowercase("HIGH"), Severity::Low);
    assert_eq!(severity_from_lowercase(""), Severity::Low);
}

#[test]
fn volume_check_compares_with_the_previous_total() {
    let mut stats: KeyedTable<Statistics> = KeyedTable::new();
    process_log_entry(parse_log_line("INFO: a", "a.log".to_string()).unwrap(), &Vec::new(), &KeyedTable::new(), &mut stats);
    process_log_entry(parse_log_line("INFO: b", "b.log".to_string()).unwrap(), &Vec::new(), &KeyedTable::new(), &mut stats);
    let mut watch = VolumeWatch::new();
    let (current, _) = watch.observe(&stats);
    assert_eq!(current, 2);
    let kept: u64 = (0..watch.previous.len()).map(|i| *watch.previous.entry_at(i).1).sum();
    assert_eq!(kept, current);
    assert_eq!(watch.observe(&stats), (2, 2));
}
