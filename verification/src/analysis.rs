//! Turning log lines into entries, checking entries against rules, keeping
//! per-file statistics and spotting error spikes.

use vstd::prelude::*;
use crate::config::{Rule, RuleAction, RuleCondition};
use crate::models::{level_named, opt_chars, Anomaly, AnomalyType, LogEntry, LogLevel, Severity};
use crate::patterns::{compile_pattern, pattern_is_match, regex_compiles, regex_matches, CompiledPattern};
use crate::statistics::{counts_total, lemma_sum_agree, lemma_sum_bounded, recorded, sum_over, StatsView, Statistics};
use crate::table::KeyedTable;
use crate::text::{
    chars_of, find_char, push_str, first_index_of, lowercase_of, push_decimal, decimal, str_equals, string_of,
    to_lowercase, trim_bounds, trimmed,
};
use crate::time::now;

verus! {

/// Slicing the line as `parse_log_line` does stays on character boundaries:
/// when the line holds a `]`, the first `]` is not its first character and the
/// first character is one byte long in UTF-8.
pub open spec fn line_is_sliceable(line: Seq<char>) -> bool {
    first_index_of(line, ']') matches Some(k) ==> k >= 1 && (line[0] as u32) < 0x80
}

/// The level and message that `parse_log_line` reads from `line`: `[LEVEL] message`,
/// else `LEVEL: message` (split at the first `]`, else the first `:`, with the
/// message trimmed), else level `Info` and the whole line as message.
pub open spec fn parsed_parts(line: Seq<char>) -> (LogLevel, Seq<char>) {
    match first_index_of(line, ']') {
        Some(k) => (level_named(lowercase_of(line.subrange(1, k))), trimmed(line.subrange(k + 1, line.len() as int))),
        None => match first_index_of(line, ':') {
            Some(k) => (level_named(lowercase_of(line.subrange(0, k))), trimmed(line.subrange(k + 1, line.len() as int))),
            None => (LogLevel::Info, line),
        },
    }
}

/// `e` is the entry that `parse_log_line` makes of `line` from the file `path`.
pub open spec fn parses_to(e: &LogEntry, line: Seq<char>, path: Seq<char>) -> bool {
    &&& e.wf()
    &&& e.level == parsed_parts(line).0
    &&& e.message@ == parsed_parts(line).1
    &&& e.raw_line@ == line
    &&& e.file_path@ == path
    &&& e.source is None
    &&& e.user is None
    &&& e.params@ == Map::<Seq<char>, String>::empty()
}

/// Reads a log line of the form `[LEVEL] message` or `LEVEL: message`; any other
/// line becomes an `Info` entry with the whole line as message. Always `Some`.
pub fn parse_log_line(line: &str, file_path: String) -> (r: Option<LogEntry>)
    requires
        line_is_sliceable(line@),
    ensures
        r matches Some(e) && parses_to(&e, line@, file_path@),
{
    let chars = chars_of(line);
    let n = chars.len();
    let (level, message) = match find_char(chars.as_slice(), ']') {
        Some(k) => {
            let level_text = string_of(slice_of(&chars, 1, k).as_slice());
            let rest = slice_of(&chars, k + 1, n);
            let (a, b) = trim_bounds(rest.as_slice());
            let msg = string_of(slice_of(&rest, a, b).as_slice());
            proof {
                assert(chars@.subrange(k + 1, n as int).subrange(a as int, b as int) =~= rest@.subrange(a as int, b as int));
            }
            (LogLevel::from(level_text.as_str()), msg)
        },
        None => match find_char(chars.as_slice(), ':') {
            Some(k) => {
                let level_text = string_of(slice_of(&chars, 0, k).as_slice());
                let rest = slice_of(&chars, k + 1, n);
                let (a, b) = trim_bounds(rest.as_slice());
                let msg = string_of(slice_of(&rest, a, b).as_slice());
                (LogLevel::from(level_text.as_str()), msg)
            },
            None => (LogLevel::Info, String::from_str(line)),
        },
    };
    Some(LogEntry::new(level, message, String::from_str(line), file_path))
}

/// The characters of `v` from `a` up to (not including) `b`.
fn slice_of(v: &Vec<char>, a: usize, b: usize) -> (r: Vec<char>)
    requires
        a <= b <= v@.len(),
    ensures
        r@ == v@.subrange(a as int, b as int),
{
    let mut r: Vec<char> = Vec::new();
    let mut i = a;
    while i < b
        invariant
            a <= i <= b <= v@.len(),
            r@ == v@.subrange(a as int, i as int),
        decreases b - i,
    {
        r.push(v[i]);
        i = i + 1;
        assert(r@ =~= v@.subrange(a as int, i as int));
    }
    r
}

/// The entries made of the lines of a file from position `seen` on (the lines
/// not read before), in file order.
pub fn entries_after(lines: &Vec<String>, seen: usize, file_path: &str) -> (r: Vec<LogEntry>)
    requires
        seen <= lines@.len(),
        forall|i: int| seen <= i < lines@.len() ==> line_is_sliceable(#[trigger] lines@[i]@),
    ensures
        r@.len() == lines@.len() - seen,
        forall|j: int| 0 <= j < r@.len() ==> parses_to(#[trigger] &r@[j], lines@[seen + j]@, file_path@),
{
    let n = lines.len();
    let mut r: Vec<LogEntry> = Vec::new();
    let mut i = seen;
    while i < n
        invariant
            seen <= i <= n,
            n == lines@.len(),
            r@.len() == i - seen,
            forall|k: int| seen <= k < lines@.len() ==> line_is_sliceable(#[trigger] lines@[k]@),
            forall|j: int| 0 <= j < r@.len() ==> parses_to(#[trigger] &r@[j], lines@[seen + j]@, file_path@),
        decreases n - i,
    {
        let e = parse_log_line(lines[i].as_str(), String::from_str(file_path));
        match e {
            Some(e) => r.push(e),
            None => {},
        }
        i = i + 1;
    }
    r
}

/// The severity that a `Warn` rule names, ignoring case: "critical", "high",
/// "medium"; anything else is `Low`.
pub open spec fn severity_named(lower: Seq<char>) -> Severity {
    if lower == seq!['c', 'r', 'i', 't', 'i', 'c', 'a', 'l'] {
        Severity::Critical
    } else if lower == seq!['h', 'i', 'g', 'h'] {
        Severity::High
    } else if lower == seq!['m', 'e', 'd', 'i', 'u', 'm'] {
        Severity::Medium
    } else {
        Severity::Low
    }
}

/// The severity named by `name`, ignoring case.
pub fn severity_from_name(name: &str) -> (s: Severity)
    ensures
        s == severity_named(lowercase_of(name@)),
{
    let lower = to_lowercase(name);
    severity_from_lowercase(lower.as_str())
}

/// The severity named by an already lower-cased name.
pub fn severity_from_lowercase(lower: &str) -> (s: Severity)
    ensures
        s == severity_named(lower@),
{
    proof {
        reveal_strlit("critical");
        reveal_strlit("high");
        reveal_strlit("medium");
        assert("critical"@ =~= seq!['c', 'r', 'i', 't', 'i', 'c', 'a', 'l']);
        assert("high"@ =~= seq!['h', 'i', 'g', 'h']);
        assert("medium"@ =~= seq!['m', 'e', 'd', 'i', 'u', 'm']);
    }
    if str_equals(lower, "critical") {
        Severity::Critical
    } else if str_equals(lower, "high") {
        Severity::High
    } else if str_equals(lower, "medium") {
        Severity::Medium
    } else {
        Severity::Low
    }
}

/// The patterns of the rules with a `Pattern` condition that compiles, by rule
/// id; a later rule with the same id replaces an earlier one.
pub open spec fn pattern_sources(rules: Seq<Rule>) -> Map<Seq<char>, Seq<char>>
    decreases rules.len(),
{
    if rules.len() == 0 {
        Map::empty()
    } else {
        let m = pattern_sources(rules.drop_last());
        match rules.last().condition {
            RuleCondition::Pattern(p) => if regex_compiles(p@) {
                m.insert(rules.last().id@, p@)
            } else {
                m
            },
            _ => m,
        }
    }
}

/// The patterns held by a table of compiled expressions.
pub open spec fn sources_of(t: Map<Seq<char>, CompiledPattern>) -> Map<Seq<char>, Seq<char>> {
    t.map_values(|c: CompiledPattern| c.pattern())
}

/// Compiles the regular expression of every rule with a `Pattern` condition,
/// keyed by rule id; a pattern that does not compile is left out.
pub fn compile_rule_patterns(rules: &Vec<Rule>) -> (t: KeyedTable<CompiledPattern>)
    ensures
        t.wf(),
        sources_of(t@) == pattern_sources(rules@),
{
    let mut t: KeyedTable<CompiledPattern> = KeyedTable::new();
    let mut i: usize = 0;
    assert(sources_of(t@) =~= pattern_sources(rules@.take(0)));
    while i < rules.len()
        invariant
            i <= rules@.len(),
            t.wf(),
            sources_of(t@) == pattern_sources(rules@.take(i as int)),
        decreases rules@.len() - i,
    {
        let rule = &rules[i];
        assert(rules@.take(i + 1).drop_last() =~= rules@.take(i as int));
        assert(rules@.take(i + 1).last() == rules@[i as int]);
        match &rule.condition {
            RuleCondition::Pattern(p) => {
                match compile_pattern(p.as_str()) {
                    Ok(c) => {
                        let ghost before = t@;
                        let ghost src = c.pattern();
                        t.insert(rule.id.clone(), c);
                        assert(sources_of(t@) =~= sources_of(before).insert(rule.id@, src));
                    },
                    Err(_) => {},
                }
            },
            _ => {},
        }
        i = i + 1;
    }
    assert(rules@.take(rules@.len() as int) =~= rules@);
    t
}

/// Whether `rule`'s condition holds of entry `e`, with `patterns` the compiled
/// rule patterns by rule id.
pub open spec fn rule_applies(rule: Rule, e: &LogEntry, patterns: Map<Seq<char>, CompiledPattern>) -> bool {
    match rule.condition {
        RuleCondition::Level(l) => e.level == l,
        RuleCondition::Keyword(k) => e.mentions(k@),
        RuleCondition::Source(s) => opt_chars(e.source) == Some(s@),
        RuleCondition::Pattern(_) => patterns.contains_key(rule.id@) && (regex_matches(
            patterns[rule.id@].pattern(),
            e.message@,
        ) || regex_matches(patterns[rule.id@].pattern(), e.raw_line@)),
        RuleCondition::ErrorThreshold { .. } => e.level == LogLevel::Error,
        RuleCondition::All => true,
    }
}

/// The `Warn` rules that fire for `e`, in order: rules are taken in order,
/// disabled rules and rules whose condition fails are passed over, and the first
/// enabled rule that applies with action `Ignore` ends the evaluation.
pub open spec fn fired_rules(rules: Seq<Rule>, e: &LogEntry, patterns: Map<Seq<char>, CompiledPattern>) -> Seq<Rule>
    decreases rules.len(),
{
    if rules.len() == 0 {
        Seq::empty()
    } else {
        let r = rules[0];
        let rest = fired_rules(rules.drop_first(), e, patterns);
        if r.enabled && rule_applies(r, e, patterns) {
            match r.action {
                RuleAction::Ignore => Seq::empty(),
                RuleAction::Warn { .. } => seq![r] + rest,
                _ => rest,
            }
        } else {
            rest
        }
    }
}

/// The description of a rule violation: `Rule '<name>' triggered: <message>`.
pub open spec fn violation_text(name: Seq<char>, message: Seq<char>) -> Seq<char> {
    seq!['R', 'u', 'l', 'e', ' ', '\''] + name + seq!['\'', ' ', 't', 'r', 'i', 'g', 'g', 'e', 'r', 'e', 'd', ':', ' '] + message
}

/// `a` is the anomaly that `rule` raises for `e`.
pub open spec fn raised_by(a: &Anomaly, rule: Rule, e: &LogEntry) -> bool {
    &&& a.anomaly_type == AnomalyType::RuleViolation
    &&& a.description@ == violation_text(rule.name@, e.message@)
    &&& (rule.action matches RuleAction::Warn { severity } && a.severity == severity_named(lowercase_of(severity@)))
    &&& a.related_entries@.len() == 1
    &&& a.related_entries@[0].same_as(e)
    &&& a.related_entries@[0].wf()
}

fn rule_condition_holds(rule: &Rule, entry: &LogEntry, patterns: &KeyedTable<CompiledPattern>) -> (r: bool)
    requires
        patterns.wf(),
    ensures
        r == rule_applies(*rule, entry, patterns@),
{
    match &rule.condition {
        RuleCondition::Level(level) => entry.level == *level,
        RuleCondition::Keyword(keyword) => entry.contains_keyword(keyword.as_str()),
        RuleCondition::Source(source) => match &entry.source {
            Some(s) => str_equals(s.as_str(), source.as_str()),
            None => false,
        },
        RuleCondition::Pattern(_) => match patterns.get(rule.id.as_str()) {
            Some(re) => pattern_is_match(re, entry.message.as_str()) || pattern_is_match(re, entry.raw_line.as_str()),
            None => false,
        },
        RuleCondition::ErrorThreshold { .. } => entry.level == LogLevel::Error,
        RuleCondition::All => true,
    }
}

fn violation_description(name: &str, message: &str) -> (d: String)
    ensures
        d@ == violation_text(name@, message@),
{
    proof {
        reveal_strlit("Rule '");
        reveal_strlit("' triggered: ");
        assert("Rule '"@ =~= seq!['R', 'u', 'l', 'e', ' ', '\'']);
        assert("' triggered: "@ =~= seq!['\'', ' ', 't', 'r', 'i', 'g', 'g', 'e', 'r', 'e', 'd', ':', ' ']);
    }
    let d = String::from_str("Rule '").concat(name).concat("' triggered: ").concat(message);
    assert(d@ =~= violation_text(name@, message@));
    d
}

/// The anomalies that the rules raise for `entry` (see `fired_rules`), one per
/// firing `Warn` rule, in rule order, each stamped with the current time.
pub fn evaluate_rules(entry: &LogEntry, rules: &Vec<Rule>, patterns: &KeyedTable<CompiledPattern>) -> (r: Vec<Anomaly>)
    requires
        entry.wf(),
        patterns.wf(),
    ensures
        r@.len() == fired_rules(rules@, entry, patterns@).len(),
        forall|j: int| 0 <= j < r@.len() ==> raised_by(#[trigger] &r@[j], fired_rules(rules@, entry, patterns@)[j], entry),
{
    let ghost all = fired_rules(rules@, entry, patterns@);
    let mut out: Vec<Anomaly> = Vec::new();
    let mut i: usize = 0;
    assert(rules@.subrange(0, rules@.len() as int) =~= rules@);
    while i < rules.len()
        invariant_except_break
            i <= rules@.len(),
            entry.wf(),
            patterns.wf(),
            all == fired_rules(rules@, entry, patterns@),
            all.len() == out@.len() + fired_rules(rules@.subrange(i as int, rules@.len() as int), entry, patterns@).len(),
            forall|j: int| 0 <= j < out@.len() ==> raised_by(#[trigger] &out@[j], all[j], entry),
            forall|j: int| 0 <= j < fired_rules(rules@.subrange(i as int, rules@.len() as int), entry, patterns@).len() ==>
                all[out@.len() + j] == fired_rules(rules@.subrange(i as int, rules@.len() as int), entry, patterns@)[j],
        ensures
            out@.len() == all.len(),
            forall|j: int| 0 <= j < out@.len() ==> raised_by(#[trigger] &out@[j], all[j], entry),
        decreases rules@.len() - i,
    {
        let rule = &rules[i];
        let ghost rest = rules@.subrange(i as int, rules@.len() as int);
        let ghost tail = rules@.subrange(i + 1, rules@.len() as int);
        assert(rest.drop_first() =~= tail);
        assert(rest[0] == rules@[i as int]);
        if rule.enabled && rule_condition_holds(rule, entry, patterns) {
            match &rule.action {
                RuleAction::Ignore => {
                    assert(fired_rules(rest, entry, patterns@) =~= Seq::<Rule>::empty());
                    break;
                },
                RuleAction::Warn { severity } => {
                    let anomaly = Anomaly {
                        anomaly_type: AnomalyType::RuleViolation,
                        description: violation_description(rule.name.as_str(), entry.message.as_str()),
                        detected_at: now(),
                        severity: severity_from_name(severity.as_str()),
                        related_entries: vec![entry.duplicate()],
                    };
                    let ghost fr = fired_rules(rest, entry, patterns@);
                    let ghost ft = fired_rules(tail, entry, patterns@);
                    assert(fr == seq![*rule] + ft);
                    let ghost k = out@.len() as int;
                    assert(fr[0] == *rule);
                    assert(all[k + 0] == fr[0]);
                    out.push(anomaly);
                    assert(raised_by(&out@[k], all[k], entry));
                    assert forall|j: int| 0 <= j < ft.len() implies all[out@.len() + j] == ft[j] by {
                        assert(fr[j + 1] == ft[j]);
                        assert(all[k + (j + 1)] == fr[j + 1]);
                    }
                },
                _ => {
                    assert(fired_rules(rest, entry, patterns@) == fired_rules(tail, entry, patterns@));
                },
            }
        } else {
            assert(fired_rules(rest, entry, patterns@) == fired_rules(tail, entry, patterns@));
        }
        i = i + 1;
    }
    proof {
        if i == rules@.len() {
            assert(rules@.subrange(i as int, rules@.len() as int) =~= Seq::<Rule>::empty());
        }
    }
    out
}

/// Every statistics value in `m` is consistent.
pub open spec fn all_wf(m: Map<Seq<char>, Statistics>) -> bool {
    forall|k: Seq<char>| #[trigger] m.contains_key(k) ==> m[k].wf()
}

/// Records `entry` in the statistics of its file, starting them if the file is new.
pub fn record_entry(statistics: &mut KeyedTable<Statistics>, entry: &LogEntry)
    requires
        old(statistics).wf(),
        all_wf(old(statistics)@),
        old(statistics)@.contains_key(entry.file_path@) ==> old(statistics)@[entry.file_path@].total_entries < u64::MAX,
    ensures
        final(statistics).wf(),
        all_wf(final(statistics)@),
        final(statistics)@.dom() == old(statistics)@.dom().insert(entry.file_path@),
        forall|k: Seq<char>| k != entry.file_path@ && #[trigger] old(statistics)@.contains_key(k)
            ==> final(statistics)@[k] == old(statistics)@[k],
        final(statistics)@[entry.file_path@]@ == recorded(
            if old(statistics)@.contains_key(entry.file_path@) {
                old(statistics)@[entry.file_path@]@
            } else {
                StatsView::empty()
            },
            entry,
        ),
{
    let key = entry.file_path.as_str();
    match statistics.replace(key, Statistics::new()) {
        Some(mut stats) => {
            stats.update(entry);
            statistics.insert(entry.file_path.clone(), stats);
        },
        None => {
            let mut stats = Statistics::new();
            stats.update(entry);
            statistics.insert(entry.file_path.clone(), stats);
        },
    }
    assert(final(statistics)@.dom() =~= old(statistics)@.dom().insert(entry.file_path@));
}

/// Processes one entry: records it in its file's statistics and returns the
/// anomalies that the rules raise for it (see `evaluate_rules`).
pub fn process_log_entry(
    entry: LogEntry,
    rules: &Vec<Rule>,
    patterns: &KeyedTable<CompiledPattern>,
    statistics: &mut KeyedTable<Statistics>,
) -> (r: Vec<Anomaly>)
    requires
        entry.wf(),
        patterns.wf(),
        old(statistics).wf(),
        all_wf(old(statistics)@),
        old(statistics)@.contains_key(entry.file_path@) ==> old(statistics)@[entry.file_path@].total_entries < u64::MAX,
    ensures
        final(statistics).wf(),
        all_wf(final(statistics)@),
        final(statistics)@.dom() == old(statistics)@.dom().insert(entry.file_path@),
        forall|k: Seq<char>| k != entry.file_path@ && #[trigger] old(statistics)@.contains_key(k)
            ==> final(statistics)@[k] == old(statistics)@[k],
        final(statistics)@[entry.file_path@]@ == recorded(
            if old(statistics)@.contains_key(entry.file_path@) {
                old(statistics)@[entry.file_path@]@
            } else {
                StatsView::empty()
            },
            &entry,
        ),
        r@.len() == fired_rules(rules@, &entry, patterns@).len(),
        forall|j: int| 0 <= j < r@.len() ==> raised_by(#[trigger] &r@[j], fired_rules(rules@, &entry, patterns@)[j], &entry),
{
    record_entry(statistics, &entry);
    evaluate_rules(&entry, rules, patterns)
}

/// Error entries over all files.
pub open spec fn errors_total(t: KeyedTable<Statistics>) -> int {
    sum_over(t.keys(), |k: Seq<char>| t@[k].level_counts.error as int)
}

/// Entries over all files.
pub open spec fn entries_total(t: KeyedTable<Statistics>) -> int {
    sum_over(t.keys(), |k: Seq<char>| t@[k].total_entries as int)
}

/// The description of an error spike.
pub open spec fn spike_text(errors: u64, threshold: u32, window_seconds: u64) -> Seq<char> {
    "Error count ("@ + decimal(errors as nat) + ") exceeded threshold ("@ + decimal(threshold as nat)
        + ") in last "@ + decimal(window_seconds as nat) + " seconds"@
}

/// Adds up the error counts of all files.
fn sum_errors(statistics: &KeyedTable<Statistics>) -> (n: u64)
    requires
        statistics.wf(),
        errors_total(*statistics) <= u64::MAX,
    ensures
        n == errors_total(*statistics),
{
    let ghost f = |k: Seq<char>| statistics@[k].level_counts.error as int;
    let ghost keys = statistics.keys();
    let mut total: u64 = 0;
    let mut i: usize = 0;
    while i < statistics.len()
        invariant
            statistics.wf(),
            keys == statistics.keys(),
            f == (|k: Seq<char>| statistics@[k].level_counts.error as int),
            sum_over(keys, f) <= u64::MAX,
            i <= keys.len(),
            total == sum_over(keys.take(i as int), f),
        decreases keys.len() - i,
    {
        let (k, s) = statistics.entry_at(i);
        proof {
            assert(keys.take(i + 1).drop_last() =~= keys.take(i as int));
            lemma_sum_bounded(keys, f, i + 1);
        }
        total = total + s.level_counts.error;
        i = i + 1;
    }
    assert(keys.take(keys.len() as int) =~= keys);
    total
}

/// Adds up the entry counts of all files.
fn sum_entries(statistics: &KeyedTable<Statistics>) -> (n: u64)
    requires
        statistics.wf(),
        entries_total(*statistics) <= u64::MAX,
    ensures
        n == entries_total(*statistics),
{
    let ghost f = |k: Seq<char>| statistics@[k].total_entries as int;
    let ghost keys = statistics.keys();
    let mut total: u64 = 0;
    let mut i: usize = 0;
    while i < statistics.len()
        invariant
            statistics.wf(),
            keys == statistics.keys(),
            f == (|k: Seq<char>| statistics@[k].total_entries as int),
            sum_over(keys, f) <= u64::MAX,
            i <= keys.len(),
            total == sum_over(keys.take(i as int), f),
        decreases keys.len() - i,
    {
        let (k, s) = statistics.entry_at(i);
        proof {
            assert(keys.take(i + 1).drop_last() =~= keys.take(i as int));
            lemma_sum_bounded(keys, f, i + 1);
        }
        total = total + s.total_entries;
        i = i + 1;
    }
    assert(keys.take(keys.len() as int) =~= keys);
    total
}

/// Adds up the counts of a table.
fn sum_counts(t: &KeyedTable<u64>) -> (n: u64)
    requires
        t.wf(),
        counts_total(*t) <= u64::MAX,
    ensures
        n == counts_total(*t),
{
    let ghost f = |k: Seq<char>| t@[k] as int;
    let ghost keys = t.keys();
    let mut total: u64 = 0;
    let mut i: usize = 0;
    while i < t.len()
        invariant
            t.wf(),
            keys == t.keys(),
            f == (|k: Seq<char>| t@[k] as int),
            sum_over(keys, f) <= u64::MAX,
            i <= keys.len(),
            total == sum_over(keys.take(i as int), f),
        decreases keys.len() - i,
    {
        let (k, v) = t.entry_at(i);
        proof {
            assert(keys.take(i + 1).drop_last() =~= keys.take(i as int));
            lemma_sum_bounded(keys, f, i + 1);
        }
        total = total + *v;
        i = i + 1;
    }
    assert(keys.take(keys.len() as int) =~= keys);
    total
}

/// An error-spike anomaly when the error entries of all files exceed
/// `error_threshold`, described as `Error count (N) exceeded threshold (T) in
/// last W seconds`, with severity `High` and no related entries.
pub fn detect_error_spike(statistics: &KeyedTable<Statistics>, error_threshold: u32, window_seconds: u64) -> (r: Option<Anomaly>)
    requires
        statistics.wf(),
        errors_total(*statistics) <= u64::MAX,
    ensures
        r is Some <==> errors_total(*statistics) > error_threshold,
        r matches Some(a) ==> {
            &&& a.anomaly_type == AnomalyType::ErrorSpike
            &&& a.severity == Severity::High
            &&& a.related_entries@.len() == 0
            &&& a.description@ == spike_text(errors_total(*statistics) as u64, error_threshold, window_seconds)
        },
{
    let total_errors = sum_errors(statistics);
    if total_errors > error_threshold as u64 {
        let mut text: Vec<char> = Vec::new();
        push_str(&mut text, "Error count (");
        push_decimal(&mut text, total_errors);
        push_str(&mut text, ") exceeded threshold (");
        push_decimal(&mut text, error_threshold as u64);
        push_str(&mut text, ") in last ");
        push_decimal(&mut text, window_seconds);
        push_str(&mut text, " seconds");
        let description = string_of(text.as_slice());
        assert(description@ =~= spike_text(total_errors, error_threshold, window_seconds));
        Some(Anomaly::new(AnomalyType::ErrorSpike, description, Severity::High))
    } else {
        None
    }
}

/// A message of `file` recorded `count` times, more than the threshold allows.
pub ghost struct Repeat {
    pub file: Seq<char>,
    pub message: Seq<char>,
    pub count: u64,
}

/// The messages among the first `k` keys of `counts` recorded more than
/// `threshold` times, in key order.
pub open spec fn repeats_within(file: Seq<char>, counts: KeyedTable<u64>, threshold: u32, k: nat) -> Seq<Repeat>
    decreases k,
{
    if k == 0 {
        Seq::empty()
    } else {
        let rest = repeats_within(file, counts, threshold, (k - 1) as nat);
        let m = counts.keys()[k - 1];
        if counts@[m] > threshold {
            rest.push(Repeat { file, message: m, count: counts@[m] })
        } else {
            rest
        }
    }
}

/// The repeated messages of the first `k` files of `statistics`, file by file.
pub open spec fn repeats_across(statistics: KeyedTable<Statistics>, threshold: u32, k: nat) -> Seq<Repeat>
    decreases k,
{
    if k == 0 {
        Seq::empty()
    } else {
        let f = statistics.keys()[k - 1];
        let counts = statistics@[f].repeated_messages;
        repeats_across(statistics, threshold, (k - 1) as nat) + repeats_within(f, counts, threshold, counts.keys().len())
    }
}

/// The description of a repeated event.
pub open spec fn repeat_text(r: Repeat, threshold: u32) -> Seq<char> {
    "Message repeated "@ + decimal(r.count as nat) + " times in "@ + r.file + " (threshold: "@
        + decimal(threshold as nat) + "): "@ + r.message
}

/// `a` is the repeated-event anomaly reported for `r`.
pub open spec fn reports_repeat(a: &Anomaly, r: Repeat, threshold: u32) -> bool {
    &&& a.anomaly_type == AnomalyType::RepeatedEvent
    &&& a.severity == Severity::Medium
    &&& a.related_entries@.len() == 0
    &&& a.description@ == repeat_text(r, threshold)
}

fn repeat_description(file: &str, message: &str, count: u64, threshold: u32) -> (d: String)
    ensures
        d@ == repeat_text(Repeat { file: file@, message: message@, count }, threshold),
{
    let mut text: Vec<char> = Vec::new();
    push_str(&mut text, "Message repeated ");
    push_decimal(&mut text, count);
    push_str(&mut text, " times in ");
    push_str(&mut text, file);
    push_str(&mut text, " (threshold: ");
    push_decimal(&mut text, threshold as u64);
    push_str(&mut text, "): ");
    push_str(&mut text, message);
    let d = string_of(text.as_slice());
    assert(d@ =~= repeat_text(Repeat { file: file@, message: message@, count }, threshold));
    d
}

/// A repeated-event anomaly for every message of every file recorded more than
/// `threshold` times (see `repeats_across`), files and messages in the order
/// they were first seen, each with severity `Medium` and no related entries.
pub fn detect_repeated_events(statistics: &KeyedTable<Statistics>, threshold: u32) -> (r: Vec<Anomaly>)
    requires
        statistics.wf(),
        all_wf(statistics@),
    ensures
        r@.len() == repeats_across(*statistics, threshold, statistics.keys().len()).len(),
        forall|j: int| 0 <= j < r@.len() ==> reports_repeat(
            #[trigger] &r@[j],
            repeats_across(*statistics, threshold, statistics.keys().len())[j],
            threshold,
        ),
{
    let mut out: Vec<Anomaly> = Vec::new();
    let mut i: usize = 0;
    while i < statistics.len()
        invariant
            statistics.wf(),
            all_wf(statistics@),
            i <= statistics.keys().len(),
            out@.len() == repeats_across(*statistics, threshold, i as nat).len(),
            forall|j: int| 0 <= j < out@.len() ==> reports_repeat(
                #[trigger] &out@[j],
                repeats_across(*statistics, threshold, i as nat)[j],
                threshold,
            ),
        decreases statistics.keys().len() - i,
    {
        let (file, stats) = statistics.entry_at(i);
        let counts = &stats.repeated_messages;
        let ghost done = repeats_across(*statistics, threshold, i as nat);
        let mut k: usize = 0;
        while k < counts.len()
            invariant
                counts.wf(),
                k <= counts.keys().len(),
                out@.len() == done.len() + repeats_within(file@, *counts, threshold, k as nat).len(),
                forall|j: int| 0 <= j < out@.len() ==> reports_repeat(
                    #[trigger] &out@[j],
                    (done + repeats_within(file@, *counts, threshold, k as nat))[j],
                    threshold,
                ),
            decreases counts.keys().len() - k,
        {
            let (message, n) = counts.entry_at(k);
            let ghost before = done + repeats_within(file@, *counts, threshold, k as nat);
            if *n > threshold as u64 {
                let d = repeat_description(file.as_str(), message.as_str(), *n, threshold);
                let a = Anomaly::new(AnomalyType::RepeatedEvent, d, Severity::Medium);
                out.push(a);
                assert(done + repeats_within(file@, *counts, threshold, (k + 1) as nat)
                    =~= before.push(Repeat { file: file@, message: message@, count: *n }));
            } else {
                assert(done + repeats_within(file@, *counts, threshold, (k + 1) as nat) =~= before);
            }
            k = k + 1;
        }
        assert(repeats_across(*statistics, threshold, (i + 1) as nat)
            =~= done + repeats_within(file@, *counts, threshold, counts.keys().len()));
        i = i + 1;
    }
    out
}

/// The entry counts seen at the previous volume check, by file.
pub struct VolumeWatch {
    pub previous: KeyedTable<u64>,
}

/// The entry count of each file.
pub open spec fn totals_by_file(m: Map<Seq<char>, Statistics>) -> Map<Seq<char>, u64> {
    m.map_values(|s: Statistics| s.total_entries)
}

impl VolumeWatch {
    /// A watch that has seen nothing yet.
    pub fn new() -> (w: VolumeWatch)
        ensures
            w.previous.wf(),
            w.previous@ == Map::<Seq<char>, u64>::empty(),
    {
        VolumeWatch { previous: KeyedTable::new() }
    }

    /// The entries over all files now and at the previous check; the current
    /// counts by file become the previous ones.
    pub fn observe(&mut self, statistics: &KeyedTable<Statistics>) -> (r: (u64, u64))
        requires
            old(self).previous.wf(),
            statistics.wf(),
            entries_total(*statistics) <= u64::MAX,
            counts_total(old(self).previous) <= u64::MAX,
        ensures
            r.0 == entries_total(*statistics),
            r.1 == counts_total(old(self).previous),
            final(self).previous.wf(),
            final(self).previous@ == totals_by_file(statistics@),
            final(self).previous.keys() == statistics.keys(),
            counts_total(final(self).previous) == entries_total(*statistics),
    {
        let current = sum_entries(statistics);
        let prev = sum_counts(&self.previous);
        let mut next: KeyedTable<u64> = KeyedTable::new();
        let mut i: usize = 0;
        proof { statistics.lemma_keys(); }
        while i < statistics.len()
            invariant
                statistics.wf(),
                next.wf(),
                i <= statistics.keys().len(),
                statistics.keys().no_duplicates(),
                forall|a: int| 0 <= a < statistics.keys().len() ==> #[trigger] statistics@.contains_key(statistics.keys()[a]),
                forall|k: Seq<char>| #[trigger] statistics@.contains_key(k) <==> statistics.keys().contains(k),
                forall|k: Seq<char>| #[trigger] next@.contains_key(k) <==> statistics.keys().take(i as int).contains(k),
                forall|k: Seq<char>| #[trigger] next@.contains_key(k) ==> next@[k] == statistics@[k].total_entries,
                next.keys() == statistics.keys().take(i as int),
            decreases statistics.keys().len() - i,
        {
            let (k, s) = statistics.entry_at(i);
            let ghost keys = statistics.keys();
            proof {
                let longer = keys.take(i + 1);
                let shorter = keys.take(i as int);
                assert forall|m: Seq<char>| longer.contains(m) <==> (shorter.contains(m) || m == keys[i as int]) by {
                    if longer.contains(m) {
                        let a = choose|a: int| 0 <= a < longer.len() && longer[a] == m;
                        if a < i {
                            assert(shorter[a] == m);
                        }
                    }
                    if shorter.contains(m) {
                        let a = choose|a: int| 0 <= a < shorter.len() && shorter[a] == m;
                        assert(longer[a] == m);
                    }
                    if m == keys[i as int] {
                        assert(longer[i as int] == m);
                    }
                }
            }
            proof {
                let keys = statistics.keys();
                if keys.take(i as int).contains(k@) {
                    let a = choose|a: int| 0 <= a < i && keys.take(i as int)[a] == k@;
                    assert(keys[a] == keys[i as int]);
                }
                assert(keys.take(i + 1) =~= keys.take(i as int).push(k@));
            }
            next.insert(k.clone(), s.total_entries);
            i = i + 1;
        }
        proof {
            assert(statistics.keys().take(statistics.keys().len() as int) =~= statistics.keys());
            assert(next@ =~= totals_by_file(statistics@));
            let keys = statistics.keys();
            let f = |k: Seq<char>| next@[k] as int;
            let g = |k: Seq<char>| statistics@[k].total_entries as int;
            assert forall|a: int| 0 <= a < keys.len() implies f(#[trigger] keys[a]) == g(keys[a]) by {
                assert(statistics@.contains_key(keys[a]));
            }
            lemma_sum_agree(keys, f, g);
        }
        self.previous = next;
        (current, prev)
    }
}

} // verus!
