//! Data models: log levels, log entries, severities, anomalies and entry filters.

use vstd::prelude::*;
use crate::table::KeyedTable;
use crate::patterns::{compile_pattern, pattern_captures, regex_captures, regex_compiles, captures_view};
use crate::text::{chars_of, contains_chars, contains_seq, lowercase_of, str_equals, to_lowercase};
use crate::time::{now, Timestamp};

verus! {

/// Severity of a log entry.
#[derive(Clone, Copy, Debug, PartialEq, Eq, Hash, Structural)]
pub enum LogLevel {
    /// Very detailed debugging information.
    Trace,
    /// Debugging information.
    Debug,
    /// General informational messages.
    Info,
    /// Warnings.
    Warn,
    /// Errors.
    Error,
    /// A level that could not be recognised.
    Unknown,
}

/// The level that a lower-cased level name denotes.
pub open spec fn level_named(lower: Seq<char>) -> LogLevel {
    if lower == seq!['t', 'r', 'a', 'c', 'e'] {
        LogLevel::Trace
    } else if lower == seq!['d', 'e', 'b', 'u', 'g'] {
        LogLevel::Debug
    } else if lower == seq!['i', 'n', 'f', 'o'] {
        LogLevel::Info
    } else if lower == seq!['w', 'a', 'r', 'n'] || lower == seq!['w', 'a', 'r', 'n', 'i', 'n', 'g'] {
        LogLevel::Warn
    } else if lower == seq!['e', 'r', 'r', 'o', 'r'] || lower == seq!['e', 'r', 'r'] {
        LogLevel::Error
    } else {
        LogLevel::Unknown
    }
}

impl LogLevel {
    /// Numeric priority, higher is more severe.
    pub open spec fn rank(self) -> u8 {
        match self {
            LogLevel::Trace => 0,
            LogLevel::Debug => 1,
            LogLevel::Info => 2,
            LogLevel::Warn => 3,
            LogLevel::Error => 4,
            LogLevel::Unknown => 5,
        }
    }

    /// The level named by `s`, ignoring case: "trace", "debug", "info",
    /// "warn"/"warning", "error"/"err"; anything else is `Unknown`.
    pub fn from(s: &str) -> (level: LogLevel)
        ensures
            level == level_named(lowercase_of(s@)),
    {
        let lower = to_lowercase(s);
        LogLevel::from_lowercase(lower.as_str())
    }

    /// The level named by an already lower-cased name.
    pub fn from_lowercase(lower: &str) -> (level: LogLevel)
        ensures
            level == level_named(lower@),
    {
        proof {
            reveal_strlit("trace");
            reveal_strlit("debug");
            reveal_strlit("info");
            reveal_strlit("warn");
            reveal_strlit("warning");
            reveal_strlit("error");
            reveal_strlit("err");
            assert("trace"@ =~= seq!['t', 'r', 'a', 'c', 'e']);
            assert("debug"@ =~= seq!['d', 'e', 'b', 'u', 'g']);
            assert("info"@ =~= seq!['i', 'n', 'f', 'o']);
            assert("warn"@ =~= seq!['w', 'a', 'r', 'n']);
            assert("warning"@ =~= seq!['w', 'a', 'r', 'n', 'i', 'n', 'g']);
            assert("error"@ =~= seq!['e', 'r', 'r', 'o', 'r']);
            assert("err"@ =~= seq!['e', 'r', 'r']);
        }
        if str_equals(lower, "trace") {
            LogLevel::Trace
        } else if str_equals(lower, "debug") {
            LogLevel::Debug
        } else if str_equals(lower, "info") {
            LogLevel::Info
        } else if str_equals(lower, "warn") || str_equals(lower, "warning") {
            LogLevel::Warn
        } else if str_equals(lower, "error") || str_equals(lower, "err") {
            LogLevel::Error
        } else {
            LogLevel::Unknown
        }
    }

    /// Numeric priority (higher = more severe).
    pub fn priority(&self) -> (p: u8)
        ensures
            p == self.rank(),
    {
        match self {
            LogLevel::Trace => 0,
            LogLevel::Debug => 1,
            LogLevel::Info => 2,
            LogLevel::Warn => 3,
            LogLevel::Error => 4,
            LogLevel::Unknown => 5,
        }
    }
}

impl Default for LogLevel {
    fn default() -> (level: Self)
        ensures
            level == LogLevel::Info,
    {
        LogLevel::Info
    }
}

/// Severity of an anomaly.
#[derive(Clone, Copy, Debug, PartialEq, Eq, PartialOrd, Ord, Hash, Structural)]
pub enum Severity {
    /// Informational.
    Low,
    /// Worth noting.
    Medium,
    /// Requires attention.
    High,
    /// Requires immediate action.
    Critical,
}

/// The text that names a severity.
pub open spec fn severity_label(s: Severity) -> Seq<char> {
    match s {
        Severity::Low => seq!['L', 'O', 'W'],
        Severity::Medium => seq!['M', 'E', 'D', 'I', 'U', 'M'],
        Severity::High => seq!['H', 'I', 'G', 'H'],
        Severity::Critical => seq!['C', 'R', 'I', 'T', 'I', 'C', 'A', 'L'],
    }
}

impl Severity {
    /// The severity's name in capitals ("LOW", "MEDIUM", "HIGH", "CRITICAL").
    pub fn to_string(&self) -> (s: String)
        ensures
            s@ == severity_label(*self),
    {
        proof {
            reveal_strlit("LOW");
            reveal_strlit("MEDIUM");
            reveal_strlit("HIGH");
            reveal_strlit("CRITICAL");
        }
        let s = match self {
            Severity::Low => String::from_str("LOW"),
            Severity::Medium => String::from_str("MEDIUM"),
            Severity::High => String::from_str("HIGH"),
            Severity::Critical => String::from_str("CRITICAL"),
        };
        assert(s@ =~= severity_label(*self));
        s
    }
}

impl Default for Severity {
    fn default() -> (s: Self)
        ensures
            s == Severity::Low,
    {
        Severity::Low
    }
}

/// Kinds of anomaly.
#[derive(Clone, Copy, Debug, PartialEq, Eq, Structural)]
pub enum AnomalyType {
    /// Sudden spike in error count.
    ErrorSpike,
    /// Repeated identical events.
    RepeatedEvent,
    /// Sudden increase in log volume.
    VolumeSpike,
    /// A rule fired.
    RuleViolation,
}

/// A single log entry.
pub struct LogEntry {
    /// When the entry was created.
    pub timestamp: Timestamp,
    /// Its level.
    pub level: LogLevel,
    /// Message text.
    pub message: String,
    /// Source or service name.
    pub source: Option<String>,
    /// User identifier.
    pub user: Option<String>,
    /// Further key-value parameters.
    pub params: KeyedTable<String>,
    /// The raw line the entry was read from.
    pub raw_line: String,
    /// Path of the file the entry came from.
    pub file_path: String,
}

/// The characters of an optional string.
pub open spec fn opt_chars(s: Option<String>) -> Option<Seq<char>> {
    match s {
        Some(t) => Some(t@),
        None => None,
    }
}

fn duplicate_opt(s: &Option<String>) -> (r: Option<String>)
    ensures
        r == *s,
{
    match s {
        Some(t) => Some(t.clone()),
        None => None,
    }
}

impl LogEntry {
    /// `self` and `other` carry the same data.
    pub open spec fn same_as(&self, other: &LogEntry) -> bool {
        &&& self.timestamp == other.timestamp
        &&& self.level == other.level
        &&& self.message@ == other.message@
        &&& opt_chars(self.source) == opt_chars(other.source)
        &&& opt_chars(self.user) == opt_chars(other.user)
        &&& self.params@ == other.params@
        &&& self.params.keys() == other.params.keys()
        &&& self.raw_line@ == other.raw_line@
        &&& self.file_path@ == other.file_path@
    }

    /// The entry's own invariant: its parameter table is well formed.
    pub open spec fn wf(&self) -> bool {
        self.params.wf()
    }

    /// The message or the raw line contains `keyword`, compared in lower case.
    pub open spec fn mentions(&self, keyword: Seq<char>) -> bool {
        contains_seq(lowercase_of(self.message@), lowercase_of(keyword))
            || contains_seq(lowercase_of(self.raw_line@), lowercase_of(keyword))
    }

    /// A new entry stamped with the current time, with no source, user or parameters.
    pub fn new(level: LogLevel, message: String, raw_line: String, file_path: String) -> (e: LogEntry)
        ensures
            e.wf(),
            e.level == level,
            e.message == message,
            e.raw_line == raw_line,
            e.file_path == file_path,
            e.source is None,
            e.user is None,
            e.params@ == Map::<Seq<char>, String>::empty(),
    {
        LogEntry {
            timestamp: now(),
            level,
            message,
            source: None,
            user: None,
            params: KeyedTable::new(),
            raw_line,
            file_path,
        }
    }

    /// The entry with its source set.
    pub fn with_source(self, source: String) -> (e: LogEntry)
        ensures
            e == (LogEntry { source: Some(source), ..self }),
    {
        LogEntry { source: Some(source), ..self }
    }

    /// The entry with its user set.
    pub fn with_user(self, user: String) -> (e: LogEntry)
        ensures
            e == (LogEntry { user: Some(user), ..self }),
    {
        LogEntry { user: Some(user), ..self }
    }

    /// The entry with `key` set to `value` among its parameters.
    pub fn with_param(self, key: String, value: String) -> (e: LogEntry)
        requires
            self.wf(),
        ensures
            e.wf(),
            e.params@ == self.params@.insert(key@, value),
            e == (LogEntry { params: e.params, ..self }),
    {
        let mut e = self;
        e.params.insert(key, value);
        e
    }

    /// Whether the message or the raw line contains `keyword`, ignoring case.
    pub fn contains_keyword(&self, keyword: &str) -> (r: bool)
        ensures
            r == self.mentions(keyword@),
    {
        let kw = to_lowercase(keyword);
        let kw_chars = chars_of(kw.as_str());
        let msg = to_lowercase(self.message.as_str());
        if contains_chars(chars_of(msg.as_str()).as_slice(), kw_chars.as_slice()) {
            return true;
        }
        let raw = to_lowercase(self.raw_line.as_str());
        contains_chars(chars_of(raw.as_str()).as_slice(), kw_chars.as_slice())
    }

    /// An independent copy of the entry.
    pub fn duplicate(&self) -> (e: LogEntry)
        requires
            self.wf(),
        ensures
            e.wf(),
            e.same_as(self),
    {
        LogEntry {
            timestamp: self.timestamp,
            level: self.level,
            message: self.message.clone(),
            source: duplicate_opt(&self.source),
            user: duplicate_opt(&self.user),
            params: self.params.duplicate(),
            raw_line: self.raw_line.clone(),
            file_path: self.file_path.clone(),
        }
    }
}

/// The expression for `key=value` and `key="value with spaces"` parameters in a message.
pub const PARAM_PATTERN: &'static str = "(\\w+)=(?:\"([^\"]*)\"|(\\S+))";

/// The characters of each value of a string table.
pub open spec fn text_map(m: Map<Seq<char>, String>) -> Map<Seq<char>, Seq<char>> {
    m.map_values(|s: String| s@)
}

/// `m` after one parameter match: group 1 is the key, group 2 (the quoted form)
/// or else group 3 the value.
pub open spec fn apply_capture(
    m: Map<Seq<char>, Seq<char>>,
    c: (Option<Seq<char>>, Option<Seq<char>>, Option<Seq<char>>),
) -> Map<Seq<char>, Seq<char>> {
    match c.0 {
        Some(k) => match c.1 {
            Some(v) => m.insert(k, v),
            None => match c.2 {
                Some(v) => m.insert(k, v),
                None => m,
            },
        },
        None => m,
    }
}

/// `m` after all parameter matches, in order.
pub open spec fn apply_captures(
    m: Map<Seq<char>, Seq<char>>,
    caps: Seq<(Option<Seq<char>>, Option<Seq<char>>, Option<Seq<char>>)>,
) -> Map<Seq<char>, Seq<char>>
    decreases caps.len(),
{
    if caps.len() == 0 {
        m
    } else {
        apply_capture(apply_captures(m, caps.drop_last()), caps.last())
    }
}

impl LogEntry {
    /// Adds the `key=value` and `key="value with spaces"` parameters found in the
    /// message, later occurrences overriding earlier ones.
    pub fn parse_params(&mut self)
        requires
            old(self).wf(),
        ensures
            final(self).wf(),
            *final(self) == (LogEntry { params: final(self).params, ..*old(self) }),
            regex_compiles(PARAM_PATTERN@) ==> text_map(final(self).params@) == apply_captures(
                text_map(old(self).params@),
                regex_captures(PARAM_PATTERN@, old(self).message@),
            ),
            !regex_compiles(PARAM_PATTERN@) ==> final(self).params@ == old(self).params@,
    {
        let re = match compile_pattern(PARAM_PATTERN) {
            Ok(re) => re,
            Err(_) => {
                return;
            },
        };
        let caps = pattern_captures(&re, self.message.as_str());
        apply_param_captures(&mut self.params, &caps);
    }
}

/// Applies parameter matches to a parameter table, in order: group 1 of each is
/// the key, group 2 (the quoted form) or else group 3 the value; a match without
/// a key or a value changes nothing.
pub fn apply_param_captures(
    params: &mut KeyedTable<String>,
    caps: &Vec<(Option<String>, Option<String>, Option<String>)>,
)
    requires
        old(params).wf(),
    ensures
        final(params).wf(),
        text_map(final(params)@) == apply_captures(text_map(old(params)@), captures_view(caps@)),
{
    let ghost start = text_map(params@);
    let ghost all = captures_view(caps@);
    let mut i: usize = 0;
    while i < caps.len()
        invariant
            params.wf(),
            i <= caps@.len(),
            all == captures_view(caps@),
            text_map(params@) == apply_captures(start, all.take(i as int)),
        decreases caps@.len() - i,
    {
        let ghost before = text_map(params@);
        assert(all.take(i + 1).drop_last() =~= all.take(i as int));
        let (g1, g2, g3) = &caps[i];
        match g1 {
            Some(k) => {
                let value = match g2 {
                    Some(v) => Some(v.clone()),
                    None => match g3 {
                        Some(v) => Some(v.clone()),
                        None => None,
                    },
                };
                match value {
                    Some(v) => {
                        let ghost vv = v@;
                        params.insert(k.clone(), v);
                        assert(text_map(params@) =~= before.insert(k@, vv));
                    },
                    None => {},
                }
            },
            None => {},
        }
        i = i + 1;
    }
    assert(all.take(caps@.len() as int) =~= all);
}

/// A detected anomaly.
pub struct Anomaly {
    /// Its kind.
    pub anomaly_type: AnomalyType,
    /// Human-readable description.
    pub description: String,
    /// When it was detected.
    pub detected_at: Timestamp,
    /// How severe it is.
    pub severity: Severity,
    /// Entries that it concerns.
    pub related_entries: Vec<LogEntry>,
}

impl Anomaly {
    /// A new anomaly detected now, with no related entries.
    pub fn new(anomaly_type: AnomalyType, description: String, severity: Severity) -> (a: Anomaly)
        ensures
            a.anomaly_type == anomaly_type,
            a.description == description,
            a.severity == severity,
            a.related_entries@.len() == 0,
    {
        Anomaly { anomaly_type, description, detected_at: now(), severity, related_entries: Vec::new() }
    }

    /// The anomaly with its related entries replaced by `entries`.
    pub fn with_entries(self, entries: Vec<LogEntry>) -> (a: Anomaly)
        ensures
            a == (Anomaly { related_entries: entries, ..self }),
    {
        Anomaly { related_entries: entries, ..self }
    }
}

/// Criteria that log entries are checked against; an absent criterion admits every entry.
pub struct LogFilter {
    /// Lowest admitted level, by priority.
    pub min_level: Option<LogLevel>,
    /// The only admitted level.
    pub level: Option<LogLevel>,
    /// A keyword that the message or raw line must contain (ignoring case).
    pub keyword: Option<String>,
    /// The required source.
    pub source: Option<String>,
    /// The required user.
    pub user: Option<String>,
    /// Earliest admitted timestamp.
    pub start_time: Option<Timestamp>,
    /// Latest admitted timestamp.
    pub end_time: Option<Timestamp>,
}

impl LogFilter {
    /// Whether the filter admits `e`.
    pub open spec fn admits(&self, e: &LogEntry) -> bool {
        &&& (self.min_level matches Some(m) ==> e.level.rank() >= m.rank())
        &&& (self.level matches Some(l) ==> e.level == l)
        &&& (self.keyword matches Some(k) ==> e.mentions(k@))
        &&& (self.source matches Some(s) ==> opt_chars(e.source) == Some(s@))
        &&& (self.user matches Some(u) ==> opt_chars(e.user) == Some(u@))
        &&& (self.start_time matches Some(t) ==> !e.timestamp.earlier_than(t))
        &&& (self.end_time matches Some(t) ==> !t.earlier_than(e.timestamp))
    }

    /// A filter with no criteria.
    pub fn new() -> (f: LogFilter)
        ensures
            f.min_level is None,
            f.level is None,
            f.keyword is None,
            f.source is None,
            f.user is None,
            f.start_time is None,
            f.end_time is None,
    {
        LogFilter {
            min_level: None,
            level: None,
            keyword: None,
            source: None,
            user: None,
            start_time: None,
            end_time: None,
        }
    }

    /// Whether `entry` meets every criterion of the filter.
    pub fn matches(&self, entry: &LogEntry) -> (r: bool)
        ensures
            r == self.admits(entry),
    {
        if let Some(min_level) = &self.min_level {
            if entry.level.priority() < min_level.priority() {
                return false;
            }
        }
        if let Some(level) = &self.level {
            if entry.level != *level {
                return false;
            }
        }
        if let Some(keyword) = &self.keyword {
            if !entry.contains_keyword(keyword.as_str()) {
                return false;
            }
        }
        if let Some(source) = &self.source {
            match &entry.source {
                Some(s) => {
                    if !str_equals(s.as_str(), source.as_str()) {
                        return false;
                    }
                },
                None => {
                    return false;
                },
            }
        }
        if let Some(user) = &self.user {
            match &entry.user {
                Some(u) => {
                    if !str_equals(u.as_str(), user.as_str()) {
                        return false;
                    }
                },
                None => {
                    return false;
                },
            }
        }
        if let Some(start) = &self.start_time {
            if entry.timestamp.is_before(start) {
                return false;
            }
        }
        if let Some(end) = &self.end_time {
            if end.is_before(&entry.timestamp) {
                return false;
            }
        }
        true
    }
}

impl Default for LogFilter {
    fn default() -> (f: Self)
        ensures
            f.min_level is None,
            f.level is None,
            f.keyword is None,
            f.source is None,
            f.user is None,
            f.start_time is None,
            f.end_time is None,
    {
        LogFilter::new()
    }
}

} // verus!
