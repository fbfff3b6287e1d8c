//! Properties of the library that span several operations or all inputs.

use vstd::prelude::*;
use crate::analysis::{
    all_wf, entries_total, errors_total, fired_rules, parsed_parts, repeats_across, repeats_within, rule_applies,
    totals_by_file, Repeat,
};
use crate::config::{Rule, RuleAction, RuleCondition};
use crate::report::{anomaly_line, file_block, recent_lines};
use crate::statistics::sum_over;
use crate::text::{decimal, is_white_space, lowercase_of, occurs_at, trim_back, trim_front, trimmed};
use crate::patterns::regex_matches;
use crate::models::{level_named, Anomaly, LogEntry, LogFilter, LogLevel};
use crate::monitor::{
    accepted, added, advanced, find_file, halted, lemma_find_file, lemma_find_file_is, removed, same_file, unread_from,
    WatchedFile,
};
use crate::patterns::CompiledPattern;
use crate::statistics::{count_of, counts_total, lemma_sum_agree, recorded, Statistics, StatsView};
use crate::table::KeyedTable;
use crate::tui_state::{after_key, Key, ViewState};

verus! {

/// The lower-case name under which each level is read back.
pub open spec fn canonical_name(l: LogLevel) -> Seq<char> {
    match l {
        LogLevel::Trace => seq!['t', 'r', 'a', 'c', 'e'],
        LogLevel::Debug => seq!['d', 'e', 'b', 'u', 'g'],
        LogLevel::Info => seq!['i', 'n', 'f', 'o'],
        LogLevel::Warn => seq!['w', 'a', 'r', 'n'],
        LogLevel::Error => seq!['e', 'r', 'r', 'o', 'r'],
        LogLevel::Unknown => seq!['u', 'n', 'k', 'n', 'o', 'w', 'n'],
    }
}

/// Every level is read back from its own lower-case name.
pub proof fn law_level_names_round_trip(l: LogLevel)
    ensures
        level_named(canonical_name(l)) == l,
{
    let n = canonical_name(l);
    if l == LogLevel::Unknown {
        assert(n[0] == 'u');
        assert(n != seq!['t', 'r', 'a', 'c', 'e']);
        assert(n != seq!['d', 'e', 'b', 'u', 'g']);
        assert(n != seq!['i', 'n', 'f', 'o']);
        assert(n != seq!['w', 'a', 'r', 'n']);
        assert(n != seq!['w', 'a', 'r', 'n', 'i', 'n', 'g']);
        assert(n != seq!['e', 'r', 'r', 'o', 'r']);
        assert(n != seq!['e', 'r', 'r']);
    } else if l == LogLevel::Debug {
        assert(n[0] == 'd');
        assert(n != seq!['t', 'r', 'a', 'c', 'e']);
    } else if l == LogLevel::Info {
        assert(n[0] == 'i');
        assert(n != seq!['t', 'r', 'a', 'c', 'e']);
        assert(n != seq!['d', 'e', 'b', 'u', 'g']);
    } else if l == LogLevel::Warn {
        assert(n[0] == 'w');
        assert(n != seq!['t', 'r', 'a', 'c', 'e']);
        assert(n != seq!['d', 'e', 'b', 'u', 'g']);
        assert(n != seq!['i', 'n', 'f', 'o']);
    } else if l == LogLevel::Error {
        assert(n[0] == 'e');
        assert(n != seq!['t', 'r', 'a', 'c', 'e']);
        assert(n != seq!['d', 'e', 'b', 'u', 'g']);
        assert(n != seq!['i', 'n', 'f', 'o']);
        assert(n != seq!['w', 'a', 'r', 'n']);
        assert(n != seq!['w', 'a', 'r', 'n', 'i', 'n', 'g']);
    }
}

/// Reading a level ignores case: names with the same lower-case form give the same level.
pub proof fn law_level_from_ignores_case(s: Seq<char>, t: Seq<char>)
    requires
        crate::text::lowercase_of(s) == crate::text::lowercase_of(t),
    ensures
        level_named(crate::text::lowercase_of(s)) == level_named(crate::text::lowercase_of(t)),
{
}

/// Priorities order the levels from Trace (lowest) to Unknown (highest), and
/// different levels have different priorities.
pub proof fn law_priority_orders_levels(a: LogLevel, b: LogLevel)
    ensures
        a.rank() == b.rank() <==> a == b,
        LogLevel::Trace.rank() < LogLevel::Debug.rank(),
        LogLevel::Debug.rank() < LogLevel::Info.rank(),
        LogLevel::Info.rank() < LogLevel::Warn.rank(),
        LogLevel::Warn.rank() < LogLevel::Error.rank(),
        LogLevel::Error.rank() < LogLevel::Unknown.rank(),
{
}

/// Recording an entry adds one to the total and one to the count of the entry's
/// level, and keeps the level counts adding up to the total.
pub proof fn law_recording_keeps_level_total(v: StatsView, e: &LogEntry)
    requires
        v.level_counts.sum() == v.total_entries,
        v.total_entries < u64::MAX,
    ensures
        recorded(v, e).total_entries == v.total_entries + 1,
        recorded(v, e).level_counts.count(e.level) == v.level_counts.count(e.level) + 1,
        forall|l: LogLevel| l != e.level ==> #[trigger] recorded(v, e).level_counts.count(l) == v.level_counts.count(l),
        recorded(v, e).level_counts.sum() == recorded(v, e).total_entries,
{
    assert(v.level_counts.count(e.level) <= v.total_entries);
}

/// The first timestamp is that of the first entry recorded and is never replaced;
/// the last timestamp is that of the latest entry.
pub proof fn law_first_entry_is_kept(v: StatsView, e1: &LogEntry, e2: &LogEntry)
    requires
        v.first_entry is None,
    ensures
        recorded(v, e1).first_entry == Some(e1.timestamp),
        recorded(recorded(v, e1), e2).first_entry == Some(e1.timestamp),
        recorded(recorded(v, e1), e2).last_entry == Some(e2.timestamp),
{
}

/// Each message seen is counted once per occurrence: recording the same message
/// twice from empty statistics counts it twice.
pub proof fn law_repeated_message_counts(e1: &LogEntry, e2: &LogEntry)
    requires
        e1.message@ == e2.message@,
    ensures
        count_of(recorded(recorded(StatsView::empty(), e1), e2).repeated_messages, e1.message@) == 2,
        recorded(recorded(StatsView::empty(), e1), e2).total_entries == 2,
{
}

/// A filter without criteria admits every entry.
pub proof fn law_empty_filter_admits_all(f: LogFilter, e: &LogEntry)
    requires
        f.min_level is None,
        f.level is None,
        f.keyword is None,
        f.source is None,
        f.user is None,
        f.start_time is None,
        f.end_time is None,
    ensures
        f.admits(e),
{
}

/// A filter admits only entries that meet each of its criteria; in particular a
/// filter on a level admits only entries of that level.
pub proof fn law_filter_on_level(f: LogFilter, e: &LogEntry, l: LogLevel)
    requires
        f.level == Some(l),
        f.admits(e),
    ensures
        e.level == l,
{
}

/// Every anomaly-raising rule is one of the rules, is enabled, applies to the
/// entry and has a `Warn` action; a first enabled `Ignore` rule that applies
/// silences all rules.
pub proof fn law_fired_rules_are_enabled_warnings(rules: Seq<Rule>, e: &LogEntry, patterns: Map<Seq<char>, CompiledPattern>)
    ensures
        forall|j: int| 0 <= j < fired_rules(rules, e, patterns).len() ==> {
            let r = #[trigger] fired_rules(rules, e, patterns)[j];
            &&& rules.contains(r)
            &&& r.enabled
            &&& rule_applies(r, e, patterns)
            &&& r.action is Warn
        },
        (rules.len() > 0 && rules[0].enabled && rule_applies(rules[0], e, patterns) && rules[0].action is Ignore)
            ==> fired_rules(rules, e, patterns).len() == 0,
    decreases rules.len(),
{
    if rules.len() > 0 {
        law_fired_rules_are_enabled_warnings(rules.drop_first(), e, patterns);
        let rest = fired_rules(rules.drop_first(), e, patterns);
        assert forall|j: int| 0 <= j < fired_rules(rules, e, patterns).len() implies {
            let r = #[trigger] fired_rules(rules, e, patterns)[j];
            &&& rules.contains(r)
            &&& r.enabled
            &&& rule_applies(r, e, patterns)
            &&& r.action is Warn
        } by {
            let all = fired_rules(rules, e, patterns);
            let r0 = rules[0];
            if r0.enabled && rule_applies(r0, e, patterns) && r0.action is Warn {
                assert(all == seq![r0] + rest);
                if j == 0 {
                    assert(rules[0] == all[0]);
                } else {
                    assert(all[j] == rest[j - 1]);
                    let r = rest[j - 1];
                    assert(rules.drop_first().contains(r));
                    let k = choose|k: int| 0 <= k < rules.drop_first().len() && rules.drop_first()[k] == r;
                    assert(rules[k + 1] == r);
                }
            } else {
                assert(all.len() == 0 || all == rest);
                if all == rest {
                    let r = rest[j];
                    assert(rules.drop_first().contains(r));
                    let k = choose|k: int| 0 <= k < rules.drop_first().len() && rules.drop_first()[k] == r;
                    assert(rules[k + 1] == r);
                }
            }
        }
    }
}

/// Disabled rules never take part: removing a disabled rule from the front
/// changes nothing.
pub proof fn law_disabled_rule_is_inert(rules: Seq<Rule>, e: &LogEntry, patterns: Map<Seq<char>, CompiledPattern>)
    requires
        rules.len() > 0,
        !rules[0].enabled,
    ensures
        fired_rules(rules, e, patterns) == fired_rules(rules.drop_first(), e, patterns),
{
}

/// Three presses of Tab return to the tab one started on.
pub proof fn law_tab_cycles(v: ViewState, n: usize)
    requires
        v.wf(),
    ensures
        after_key(after_key(after_key(v, Key::Tab, n).0, Key::Tab, n).0, Key::Tab, n).0 == v,
{
}

/// The log list never scrolls past its last entry: a scroll position within the
/// list stays within it whatever key is pressed.
pub proof fn law_scroll_stays_in_range(v: ViewState, key: Key, n: usize)
    requires
        v.scroll_offset <= if n == 0 { 0 } else { n - 1 },
    ensures
        after_key(v, key, n).0.scroll_offset <= if n == 0 { 0 } else { n - 1 },
{
}

/// A bounded buffer never grows past its bound: appending with `push_bounded`
/// (or `Session::add_recent_log`) to a buffer within the bound keeps it within,
/// and the newest item is always last.
pub proof fn law_bounded_buffer<T>(buf: Seq<T>, item: T, cap: nat)
    requires
        buf.len() <= cap,
        cap > 0,
    ensures
        ({
            let after = if buf.len() + 1 > cap { buf.push(item).drop_first() } else { buf.push(item) };
            after.len() <= cap && after.last() == item
        }),
        ({
            let after = if buf.len() >= cap { buf.drop_first().push(item) } else { buf.push(item) };
            after.len() <= cap && after.last() == item
        }),
{
}

/// A keyed table gives back what was last stored under a key, leaves the other
/// keys alone, and forgets a key once it is removed (`KeyedTable::insert`,
/// `KeyedTable::get`, `KeyedTable::remove`).
pub proof fn law_table_read_after_write<V>(m: Map<Seq<char>, V>, k: Seq<char>, v: V, other: Seq<char>)
    requires
        other != k,
    ensures
        m.insert(k, v).contains_key(k),
        m.insert(k, v)[k] == v,
        m.insert(k, v).contains_key(other) == m.contains_key(other),
        m.contains_key(other) ==> m.insert(k, v)[other] == m[other],
        !m.insert(k, v).remove(k).contains_key(k),
        m.insert(k, v).remove(k) == m.remove(k),
{
    assert(m.insert(k, v).remove(k) =~= m.remove(k));
}

/// Once the analyzer is halted no monitored file is read any more: every stop
/// flag is set (`MonitorState::halt`, `MonitorState::accepts`).
pub proof fn law_halt_stops_every_file(files: Seq<WatchedFile>, path: Seq<char>)
    ensures
        !accepted(halted(files), path),
{
    lemma_find_file(halted(files), path);
}

/// A file that is added is read until it is removed, and a removed file is not
/// read (`MonitorState::add_file`, `MonitorState::remove_file`, `MonitorState::accepts`).
pub proof fn law_added_file_is_read_until_removed(files: Seq<WatchedFile>, path: String, line_count: usize)
    ensures
        accepted(added(files, path, line_count), path@),
        !accepted(removed(added(files, path, line_count), path@), path@),
{
    let after = added(files, path, line_count);
    lemma_find_file(files, path@);
    match find_file(files, path@) {
        Some(i) => {
            lemma_find_file_is(after, path@, i);
        },
        None => {
            assert forall|j: int| 0 <= j < files.len() implies !same_file(#[trigger] after[j].path@, path@) by {
                assert(after[j] == files[j]);
            }
            lemma_find_file_is(after, path@, files.len() as int);
        },
    }
    let rest = removed(after, path@);
    after.filter_lemma(|f: WatchedFile| !same_file(f.path@, path@));
    lemma_find_file(rest, path@);
    if let Some(i) = find_file(rest, path@) {
        assert(!same_file(rest[i].path@, path@));
    }
}

/// Each line appended to a monitored file is read once: a newly monitored file
/// is read from the line count it had when added, and each read continues where
/// the previous one ended (`MonitorState::add_file`, `MonitorState::advance`,
/// `entries_after`), as long as the file does not shrink.
pub proof fn law_reads_continue(files: Seq<WatchedFile>, path: String, n0: usize, n1: usize, n2: usize)
    requires
        n0 <= n1 <= n2,
    ensures
        ({
            let f0 = added(files, path, n0);
            let f1 = advanced(f0, path@, n1);
            &&& accepted(f0, path@)
            &&& unread_from(f0[find_file(f0, path@)->0].lines_read, n1) == n0
            &&& accepted(f1, path@)
            &&& unread_from(f1[find_file(f1, path@)->0].lines_read, n2) == n1
        }),
{
    let f0 = added(files, path, n0);
    law_added_file_is_read_until_removed(files, path, n0);
    lemma_find_file(f0, path@);
    let i = find_file(f0, path@)->0;
    lemma_find_file(files, path@);
    match find_file(files, path@) {
        Some(k) => {
            assert forall|j: int| 0 <= j < k implies !same_file(#[trigger] f0[j].path@, path@) by {
                assert(f0[j] == files[j]);
            }
            assert(f0[k].path == files[k].path);
            lemma_find_file_is(f0, path@, k);
            assert(i == k);
        },
        None => {
            assert forall|j: int| 0 <= j < files.len() implies !same_file(#[trigger] f0[j].path@, path@) by {
                assert(f0[j] == files[j]);
            }
            lemma_find_file_is(f0, path@, files.len() as int);
            assert(i == files.len());
        },
    }
    assert(f0[i].lines_read == n0);
    let f1 = advanced(f0, path@, n1);
    assert forall|j: int| 0 <= j < i implies !same_file(#[trigger] f1[j].path@, path@) by {
        assert(f1[j] == f0[j]);
    }
    lemma_find_file_is(f1, path@, i);
}

/// A message counted at position `a` of a table, above the threshold, is among
/// the repeats of every longer prefix of the table's keys.
proof fn lemma_repeat_within(file: Seq<char>, counts: KeyedTable<u64>, threshold: u32, a: int, k: nat)
    requires
        0 <= a < k <= counts.keys().len(),
        counts@[counts.keys()[a]] > threshold,
    ensures
        repeats_within(file, counts, threshold, k).contains(
            Repeat { file, message: counts.keys()[a], count: counts@[counts.keys()[a]] },
        ),
    decreases k,
{
    let r = Repeat { file, message: counts.keys()[a], count: counts@[counts.keys()[a]] };
    let prev = repeats_within(file, counts, threshold, (k - 1) as nat);
    if k == a + 1 {
        assert(prev.push(r)[prev.len() as int] == r);
    } else {
        lemma_repeat_within(file, counts, threshold, a, (k - 1) as nat);
        let i = choose|i: int| 0 <= i < prev.len() && prev[i] == r;
        let m = counts.keys()[k - 1];
        if counts@[m] > threshold {
            assert(prev.push(Repeat { file, message: m, count: counts@[m] })[i] == r);
        }
    }
}

/// The repeats of a file at position `b` are among the repeats of every longer
/// prefix of the files.
proof fn lemma_repeat_across(statistics: KeyedTable<Statistics>, threshold: u32, b: int, k: nat, r: Repeat)
    requires
        0 <= b < k <= statistics.keys().len(),
        ({
            let counts = statistics@[statistics.keys()[b]].repeated_messages;
            repeats_within(statistics.keys()[b], counts, threshold, counts.keys().len()).contains(r)
        }),
    ensures
        repeats_across(statistics, threshold, k).contains(r),
    decreases k,
{
    let f = statistics.keys()[k - 1];
    let counts = statistics@[f].repeated_messages;
    let prev = repeats_across(statistics, threshold, (k - 1) as nat);
    let here = repeats_within(f, counts, threshold, counts.keys().len());
    if k == b + 1 {
        let i = choose|i: int| 0 <= i < here.len() && here[i] == r;
        assert((prev + here)[prev.len() + i] == r);
    } else {
        lemma_repeat_across(statistics, threshold, b, (k - 1) as nat, r);
        let i = choose|i: int| 0 <= i < prev.len() && prev[i] == r;
        assert((prev + here)[i] == r);
    }
}

/// Every message that a file has recorded more times than the threshold is
/// reported as a repeated event (`detect_repeated_events`).
pub proof fn law_repeated_message_reported(statistics: KeyedTable<Statistics>, threshold: u32, file: Seq<char>, message: Seq<char>)
    requires
        statistics.wf(),
        all_wf(statistics@),
        statistics@.contains_key(file),
        statistics@[file].repeated_messages@.contains_key(message),
        statistics@[file].repeated_messages@[message] > threshold,
    ensures
        repeats_across(statistics, threshold, statistics.keys().len()).contains(
            Repeat { file, message, count: statistics@[file].repeated_messages@[message] },
        ),
{
    statistics.lemma_keys();
    let b = choose|b: int| 0 <= b < statistics.keys().len() && statistics.keys()[b] == file;
    let counts = statistics@[file].repeated_messages;
    assert(counts.wf());
    counts.lemma_keys();
    let a = choose|a: int| 0 <= a < counts.keys().len() && counts.keys()[a] == message;
    lemma_repeat_within(file, counts, threshold, a, counts.keys().len());
    lemma_repeat_across(statistics, threshold, b, statistics.keys().len(), Repeat { file, message, count: counts@[message] });
}

/// The counts that a volume check keeps (`VolumeWatch::observe`) add up to the
/// entries it saw, so the next check compares against exactly this check's total.
pub proof fn law_volume_totals_chain(statistics: KeyedTable<Statistics>, kept: KeyedTable<u64>)
    requires
        statistics.wf(),
        kept@ == totals_by_file(statistics@),
        kept.keys() == statistics.keys(),
    ensures
        counts_total(kept) == entries_total(statistics),
{
    statistics.lemma_keys();
    let keys = statistics.keys();
    let f = |k: Seq<char>| kept@[k] as int;
    let g = |k: Seq<char>| statistics@[k].total_entries as int;
    assert forall|a: int| 0 <= a < keys.len() implies f(#[trigger] keys[a]) == g(keys[a]) by {
        assert(statistics@.contains_key(keys[a]));
    }
    lemma_sum_agree(keys, f, g);
}

/// A created session can be found under its identifier until it is removed, and
/// removing it again is refused (`SessionManager::create_session`,
/// `SessionManager::get_session`, `SessionManager::remove_session`).
pub proof fn law_session_found_until_removed<S>(sessions: Map<Seq<char>, S>, id: Seq<char>, s: S)
    ensures
        sessions.insert(id, s).contains_key(id),
        !sessions.insert(id, s).remove(id).contains_key(id),
{
}

/// What each kind of rule condition asks of an entry: a level condition holds
/// exactly for entries of that very level (no other level, higher or lower,
/// triggers it), an error threshold for error entries, a source condition for
/// entries naming that source, a keyword condition when the keyword occurs in
/// the message or the raw line ignoring case, a pattern condition when the
/// rule's compiled expression matches the message or the raw line, and `All`
/// for every entry.
pub proof fn law_rule_conditions(rule: Rule, e: &LogEntry, patterns: Map<Seq<char>, CompiledPattern>)
    ensures
        rule.condition matches RuleCondition::Level(l) ==> (rule_applies(rule, e, patterns) <==> e.level == l),
        rule.condition matches RuleCondition::ErrorThreshold { .. }
            ==> (rule_applies(rule, e, patterns) <==> e.level == LogLevel::Error),
        rule.condition matches RuleCondition::Source(src)
            ==> (rule_applies(rule, e, patterns) <==> (e.source matches Some(x) && x@ == src@)),
        rule.condition matches RuleCondition::Keyword(k) ==> (rule_applies(rule, e, patterns) <==> (
            (exists|i: int| occurs_at(lowercase_of(e.message@), lowercase_of(k@), i))
            || (exists|i: int| occurs_at(lowercase_of(e.raw_line@), lowercase_of(k@), i)))),
        rule.condition matches RuleCondition::Pattern(_) ==> (rule_applies(rule, e, patterns) <==> (
            patterns.contains_key(rule.id@)
            && (regex_matches(patterns[rule.id@].pattern(), e.message@)
                || regex_matches(patterns[rule.id@].pattern(), e.raw_line@)))),
        rule.condition is All ==> rule_applies(rule, e, patterns),
{
}

/// An enabled rule on a level other than the entry's is passed over: the rules
/// raise for the entry exactly what the remaining rules raise; on the entry's
/// own level a `Warn` rule raises an anomaly before the remaining rules'.
pub proof fn law_level_rule_fires_only_on_its_level(
    rule: Rule,
    rest: Seq<Rule>,
    e: &LogEntry,
    patterns: Map<Seq<char>, CompiledPattern>,
    l: LogLevel,
)
    requires
        rule.enabled,
        rule.condition == RuleCondition::Level(l),
    ensures
        e.level != l ==> fired_rules(seq![rule] + rest, e, patterns) == fired_rules(rest, e, patterns),
        e.level == l && rule.action is Warn
            ==> fired_rules(seq![rule] + rest, e, patterns) == seq![rule] + fired_rules(rest, e, patterns),
{
    let all = seq![rule] + rest;
    assert(all[0] == rule);
    assert(all.drop_first() =~= rest);
}

/// A line without `]` whose first `:` is at `k` is read as `LEVEL: message`:
/// the level is named by the text before that first `:` and the message is the
/// text after it, trimmed; any later `:` stays in the message.
pub proof fn law_parse_splits_at_first_colon(line: Seq<char>, k: int)
    requires
        forall|j: int| 0 <= j < line.len() ==> line[j] != ']',
        0 <= k < line.len(),
        line[k] == ':',
        forall|j: int| 0 <= j < k ==> line[j] != ':',
    ensures
        parsed_parts(line) == (
            level_named(lowercase_of(line.subrange(0, k))),
            trimmed(line.subrange(k + 1, line.len() as int)),
        ),
{
    assert(!(exists|i: int| 0 <= i < line.len() && line[i] == ']'));
    assert(exists|i: int| 0 <= i < line.len() && line[i] == ':');
    let c = choose|i: int| 0 <= i < line.len() && line[i] == ':' && forall|j: int| 0 <= j < i ==> line[j] != ':';
    assert(0 <= c < line.len() && line[c] == ':' && forall|j: int| 0 <= j < c ==> line[j] != ':');
    if c < k {
        assert(line[c] != ':');
    }
    if c > k {
        assert(line[k] != ':');
    }
}

/// A line whose first `]` is at `k` is read as `[LEVEL] message`: the level is
/// named by the text between the first character and that `]`, the message is
/// the text after it, trimmed.
pub proof fn law_parse_splits_at_first_bracket(line: Seq<char>, k: int)
    requires
        0 <= k < line.len(),
        line[k] == ']',
        forall|j: int| 0 <= j < k ==> line[j] != ']',
    ensures
        parsed_parts(line) == (
            level_named(lowercase_of(line.subrange(1, k))),
            trimmed(line.subrange(k + 1, line.len() as int)),
        ),
{
    assert(exists|i: int| 0 <= i < line.len() && line[i] == ']');
    let c = choose|i: int| 0 <= i < line.len() && line[i] == ']' && forall|j: int| 0 <= j < i ==> line[j] != ']';
    assert(0 <= c < line.len() && line[c] == ']' && forall|j: int| 0 <= j < c ==> line[j] != ']');
    if c < k {
        assert(line[c] != ']');
    }
    if c > k {
        assert(line[k] != ']');
    }
}

/// A line with neither `]` nor `:` is an `Info` entry whose message is the whole line.
pub proof fn law_parse_plain_line(line: Seq<char>)
    requires
        forall|j: int| 0 <= j < line.len() ==> line[j] != ']' && line[j] != ':',
    ensures
        parsed_parts(line) == (LogLevel::Info, line),
{
    assert(!(exists|i: int| 0 <= i < line.len() && line[i] == ']'));
    assert(!(exists|i: int| 0 <= i < line.len() && line[i] == ':'));
}

proof fn lemma_trim_front_at(s: Seq<char>) -> (a: int)
    ensures
        0 <= a <= s.len(),
        trim_front(s) == s.subrange(a, s.len() as int),
        forall|j: int| 0 <= j < a ==> is_white_space(#[trigger] s[j]),
        a < s.len() ==> !is_white_space(s[a]),
    decreases s.len(),
{
    if s.len() > 0 && is_white_space(s[0]) {
        let t = s.drop_first();
        let b = lemma_trim_front_at(t);
        assert(t.subrange(b, t.len() as int) =~= s.subrange(b + 1, s.len() as int));
        assert forall|j: int| 0 <= j < b + 1 implies is_white_space(#[trigger] s[j]) by {
            if j > 0 {
                assert(s[j] == t[j - 1]);
            }
        }
        if b + 1 < s.len() {
            assert(s[b + 1] == t[b]);
        }
        b + 1
    } else {
        assert(s.subrange(0, s.len() as int) =~= s);
        0
    }
}

proof fn lemma_trim_back_at(s: Seq<char>) -> (b: int)
    ensures
        0 <= b <= s.len(),
        trim_back(s) == s.subrange(0, b),
        forall|j: int| b <= j < s.len() ==> is_white_space(#[trigger] s[j]),
        b > 0 ==> !is_white_space(s[b - 1]),
    decreases s.len(),
{
    if s.len() > 0 && is_white_space(s.last()) {
        let t = s.drop_last();
        let c = lemma_trim_back_at(t);
        assert(t.subrange(0, c) =~= s.subrange(0, c));
        assert forall|j: int| c <= j < s.len() implies is_white_space(#[trigger] s[j]) by {
            if j < s.len() - 1 {
                assert(s[j] == t[j]);
            }
        }
        if c > 0 {
            assert(s[c - 1] == t[c - 1]);
        }
        c
    } else {
        assert(s.subrange(0, s.len() as int) =~= s);
        s.len() as int
    }
}

/// Trimming removes exactly the white space at both ends: the result is the
/// part of the text between its first and last characters that are not white
/// space (empty when there are none), all that is cut off is white space, and the
/// result neither starts nor ends with white space.
pub proof fn law_trim_strips_only_outer_white_space(s: Seq<char>)
    ensures
        exists|a: int| #[trigger] occurs_at(s, trimmed(s), a)
            && (forall|j: int| 0 <= j < a ==> is_white_space(#[trigger] s[j]))
            && (forall|j: int| a + trimmed(s).len() <= j < s.len() ==> is_white_space(#[trigger] s[j])),
        trimmed(s).len() > 0 ==> !is_white_space(trimmed(s)[0]) && !is_white_space(trimmed(s).last()),
{
    let a = lemma_trim_front_at(s);
    let f = s.subrange(a, s.len() as int);
    let b = lemma_trim_back_at(f);
    let t = trimmed(s);
    assert(t == f.subrange(0, b));
    assert(t =~= s.subrange(a, a + b));
    assert(occurs_at(s, t, a));
    assert forall|j: int| a + t.len() <= j < s.len() implies is_white_space(#[trigger] s[j]) by {
        assert(s[j] == f[j - a]);
    }
    if t.len() > 0 {
        assert(t[0] == f[0] && f[0] == s[a]);
        assert(t.last() == f[b - 1]);
    }
}

proof fn lemma_sum_zero(keys: Seq<Seq<char>>, f: spec_fn(Seq<char>) -> int)
    requires
        forall|i: int| 0 <= i < keys.len() ==> f(#[trigger] keys[i]) == 0,
    ensures
        sum_over(keys, f) == 0,
    decreases keys.len(),
{
    if keys.len() > 0 {
        let init = keys.drop_last();
        assert forall|i: int| 0 <= i < init.len() implies f(#[trigger] init[i]) == 0 by {
            assert(init[i] == keys[i]);
        }
        lemma_sum_zero(init, f);
        assert(keys.last() == keys[keys.len() - 1]);
    }
}

proof fn lemma_sum_at_least_each(keys: Seq<Seq<char>>, f: spec_fn(Seq<char>) -> int, i: int)
    requires
        0 <= i < keys.len(),
        forall|j: int| 0 <= j < keys.len() ==> f(#[trigger] keys[j]) >= 0,
    ensures
        sum_over(keys, f) >= f(keys[i]),
    decreases keys.len(),
{
    let init = keys.drop_last();
    assert forall|j: int| 0 <= j < init.len() implies f(#[trigger] init[j]) >= 0 by {
        assert(init[j] == keys[j]);
    }
    lemma_sum_zero_or_more(init, f);
    assert(keys.last() == keys[keys.len() - 1]);
    if i < keys.len() - 1 {
        assert(init[i] == keys[i]);
        lemma_sum_at_least_each(init, f, i);
    }
}

proof fn lemma_sum_zero_or_more(keys: Seq<Seq<char>>, f: spec_fn(Seq<char>) -> int)
    requires
        forall|j: int| 0 <= j < keys.len() ==> f(#[trigger] keys[j]) >= 0,
    ensures
        sum_over(keys, f) >= 0,
    decreases keys.len(),
{
    if keys.len() > 0 {
        let init = keys.drop_last();
        assert forall|j: int| 0 <= j < init.len() implies f(#[trigger] init[j]) >= 0 by {
            assert(init[j] == keys[j]);
        }
        lemma_sum_zero_or_more(init, f);
        assert(keys.last() == keys[keys.len() - 1]);
    }
}

/// The error total that an error spike is judged by counts error entries and
/// nothing else: tables whose files have the same error counts have the same
/// total whatever their other levels, a table without error entries has a total
/// of zero (and so never shows a spike), and each file's errors are part of it.
pub proof fn law_error_total_counts_only_errors(t1: KeyedTable<Statistics>, t2: KeyedTable<Statistics>, i: int)
    requires
        t1.keys() == t2.keys(),
        forall|j: int| 0 <= j < t1.keys().len()
            ==> #[trigger] t1@[t1.keys()[j]].level_counts.count(LogLevel::Error)
                == t2@[t1.keys()[j]].level_counts.count(LogLevel::Error),
    ensures
        errors_total(t1) == errors_total(t2),
        (forall|j: int| 0 <= j < t1.keys().len() ==> #[trigger] t1@[t1.keys()[j]].level_counts.count(LogLevel::Error) == 0)
            ==> errors_total(t1) == 0,
        0 <= i < t1.keys().len() ==> errors_total(t1) >= t1@[t1.keys()[i]].level_counts.count(LogLevel::Error),
{
    let keys = t1.keys();
    let f = |k: Seq<char>| t1@[k].level_counts.error as int;
    let g = |k: Seq<char>| t2@[k].level_counts.error as int;
    assert forall|j: int| 0 <= j < keys.len() implies f(#[trigger] keys[j]) == g(keys[j]) by {
        assert(t1@[keys[j]].level_counts.count(LogLevel::Error) == t2@[keys[j]].level_counts.count(LogLevel::Error));
    }
    lemma_sum_agree(keys, f, g);
    if forall|j: int| 0 <= j < keys.len() ==> #[trigger] t1@[keys[j]].level_counts.count(LogLevel::Error) == 0 {
        assert forall|j: int| 0 <= j < keys.len() implies f(#[trigger] keys[j]) == 0 by {
            assert(t1@[keys[j]].level_counts.count(LogLevel::Error) == 0);
        }
        lemma_sum_zero(keys, f);
    }
    if 0 <= i < keys.len() {
        lemma_sum_at_least_each(keys, f, i);
    }
}

/// The entry total of a volume check counts entries per file and nothing else:
/// tables whose files have the same entry counts have the same total, and each
/// file's entries are part of it.
pub proof fn law_entry_total_counts_entries(t1: KeyedTable<Statistics>, t2: KeyedTable<Statistics>, i: int)
    requires
        t1.keys() == t2.keys(),
        forall|j: int| 0 <= j < t1.keys().len()
            ==> #[trigger] t1@[t1.keys()[j]].total_entries == t2@[t1.keys()[j]].total_entries,
    ensures
        entries_total(t1) == entries_total(t2),
        0 <= i < t1.keys().len() ==> entries_total(t1) >= t1@[t1.keys()[i]].total_entries,
{
    let keys = t1.keys();
    let f = |k: Seq<char>| t1@[k].total_entries as int;
    let g = |k: Seq<char>| t2@[k].total_entries as int;
    assert forall|j: int| 0 <= j < keys.len() implies f(#[trigger] keys[j]) == g(keys[j]) by {
        assert(t1@[keys[j]].total_entries == t2@[keys[j]].total_entries);
    }
    lemma_sum_agree(keys, f, g);
    if 0 <= i < keys.len() {
        lemma_sum_at_least_each(keys, f, i);
    }
}

/// A filter whose only criterion is a minimum level admits an entry exactly when
/// its level has at least that priority; in particular it admits entries at the
/// minimum level itself, and rejects only lower priorities.
pub proof fn law_min_level_admits_at_or_above(f: LogFilter, e: &LogEntry, m: LogLevel)
    requires
        f.min_level == Some(m),
        f.level is None,
        f.keyword is None,
        f.source is None,
        f.user is None,
        f.start_time is None,
        f.end_time is None,
    ensures
        f.admits(e) <==> e.level.rank() >= m.rank(),
        e.level == m ==> f.admits(e),
        e.level.rank() < m.rank() ==> !f.admits(e),
{
}

/// A file's block in the report shows, in order, its path, its total, its count
/// of Error entries after `Errors: `, its count of Warn entries after
/// `Warnings: `, and its error rate.
pub proof fn law_report_block_shows_level_counts(path: Seq<char>, s: Statistics, rate: Seq<char>)
    ensures
        file_block(path, s, rate) == ("File: "@ + path + "\n"@ + "  Total: "@ + decimal(s@.total_entries as nat) + "\n"@)
            + ("  Errors: "@ + decimal(s@.level_counts.count(LogLevel::Error) as nat) + "\n"@)
            + ("  Warnings: "@ + decimal(s@.level_counts.count(LogLevel::Warn) as nat) + "\n"@)
            + ("  Error rate: "@ + rate + "%\n"@ + "\n"@),
{
    assert(file_block(path, s, rate) =~= ("File: "@ + path + "\n"@ + "  Total: "@ + decimal(s@.total_entries as nat) + "\n"@)
        + ("  Errors: "@ + decimal(s@.level_counts.count(LogLevel::Error) as nat) + "\n"@)
        + ("  Warnings: "@ + decimal(s@.level_counts.count(LogLevel::Warn) as nat) + "\n"@)
        + ("  Error rate: "@ + rate + "%\n"@ + "\n"@));
}

/// The report lists anomalies newest first: the list of the last `count`
/// anomalies starts with the newest one, followed by the list of the last
/// `count - 1` among those before it.
pub proof fn law_report_lists_newest_first(anomalies: Seq<Anomaly>, count: nat)
    requires
        1 <= count <= anomalies.len(),
    ensures
        recent_lines(anomalies, count)
            == anomaly_line(anomalies.last()) + recent_lines(anomalies.drop_last(), (count - 1) as nat),
    decreases count,
{
    let n = anomalies.len();
    let before = anomalies.drop_last();
    if count == 1 {
        assert(recent_lines(anomalies, 0) == Seq::<char>::empty());
        assert(recent_lines(before, 0) == Seq::<char>::empty());
        assert(anomalies[n - 1] == anomalies.last());
        assert(recent_lines(anomalies, 1) =~= anomaly_line(anomalies.last()) + recent_lines(before, 0));
    } else {
        law_report_lists_newest_first(anomalies, (count - 1) as nat);
        assert(before[before.len() - (count - 1)] == anomalies[n - count]);
        assert(recent_lines(anomalies, count) =~= anomaly_line(anomalies.last())
            + recent_lines(before, (count - 1) as nat));
    }
}

} // verus!
