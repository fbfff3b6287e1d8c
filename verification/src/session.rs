//! Analysis sessions and the manager that holds them.

use vstd::prelude::*;
use crate::error::LogAnalyzerError;
use crate::models::{Anomaly, LogEntry, LogLevel, Severity};
use crate::statistics::Statistics;
use crate::table::KeyedTable;
use crate::text::{decimal, push_decimal, push_str, string_of};
use crate::time::{now, Timestamp};

verus! {

/// Whether `std::path::Path::new(a) == std::path::Path::new(b)`: the two paths
/// have the same components.
pub uninterp spec fn paths_equal(a: Seq<char>, b: Seq<char>) -> bool;

/// What `DateTime::<Utc>::from_timestamp(secs, nanos)` formatted with
/// `"%Y-%m-%d %H:%M:%S"` prints; `None` when the instant is out of range.
pub uninterp spec fn utc_datetime_text(secs: i64, nanos: u32) -> Option<Seq<char>>;

/// Compares two paths as `std::path::Path` does (component by component); the
/// result is named `paths_equal`. A path equals itself (`Path` is `Eq`).
#[verifier::external_body]
pub(crate) fn same_path(a: &str, b: &str) -> (r: bool)
    ensures
        r == paths_equal(a@, b@),
        a@ == b@ ==> r,
{
    std::path::Path::new(a) == std::path::Path::new(b)
}

/// Calls `chrono::DateTime::<Utc>::from_timestamp` and formats the instant with
/// `"%Y-%m-%d %H:%M:%S"`; the result is named `utc_datetime_text`.
#[verifier::external_body]
pub(crate) fn datetime_text(t: &Timestamp) -> (r: Option<String>)
    ensures
        match r {
            Some(s) => utc_datetime_text(t.secs, t.nanos) == Some(s@),
            None => utc_datetime_text(t.secs, t.nanos) is None,
        },
{
    chrono::DateTime::<chrono::Utc>::from_timestamp(t.secs, t.nanos).map(|d| d.format("%Y-%m-%d %H:%M:%S").to_string())
}

/// A lower-case hexadecimal digit.
pub open spec fn lower_hex_digit(c: char) -> bool {
    ('0' <= c && c <= '9') || ('a' <= c && c <= 'f')
}

/// A random (version 4) UUID as `uuid` renders it: 36 characters, hyphens at
/// positions 8, 13, 18 and 23, lower-case hexadecimal digits elsewhere, the
/// version digit `4` at position 14 and one of `8`, `9`, `a`, `b` at position 19.
pub open spec fn uuid_v4_text(s: Seq<char>) -> bool {
    &&& s.len() == 36
    &&& forall|i: int| 0 <= i < 36 && (i == 8 || i == 13 || i == 18 || i == 23) ==> #[trigger] s[i] == '-'
    &&& forall|i: int| 0 <= i < 36 && !(i == 8 || i == 13 || i == 18 || i == 23) ==> lower_hex_digit(#[trigger] s[i])
    &&& s[14] == '4'
    &&& (s[19] == '8' || s[19] == '9' || s[19] == 'a' || s[19] == 'b')
}

/// Calls `uuid::Uuid::new_v4` and renders it with `to_string`: a random
/// identifier in the hyphenated lower-case form, with the version and variant
/// bits that `new_v4` sets (see `uuid_v4_text`); which digits are random is not
/// stated.
#[verifier::external_body]
fn new_session_id() -> (s: String)
    ensures
        uuid_v4_text(s@),
{
    uuid::Uuid::new_v4().to_string()
}

/// Session-specific filters.
#[derive(Clone, Debug)]
pub struct SessionFilters {
    /// Log levels to show.
    pub levels: Vec<LogLevel>,
    /// Keyword to look for.
    pub keyword: Option<String>,
    /// Source to show.
    pub source: Option<String>,
    /// Lowest anomaly severity to show.
    pub min_severity: Option<Severity>,
}

impl SessionFilters {
    /// No filter is set.
    pub open spec fn none_set(&self) -> bool {
        self.levels@.len() == 0 && self.keyword is None && self.source is None && self.min_severity is None
    }

    /// Filters that let everything through.
    pub fn new() -> (f: SessionFilters)
        ensures
            f.none_set(),
    {
        SessionFilters { levels: Vec::new(), keyword: None, source: None, min_severity: None }
    }

    /// Whether no filter is set.
    pub fn is_empty(&self) -> (r: bool)
        ensures
            r == self.none_set(),
    {
        self.levels.len() == 0 && self.keyword.is_none() && self.source.is_none() && self.min_severity.is_none()
    }
}

impl Default for SessionFilters {
    fn default() -> (f: Self)
        ensures
            f.none_set(),
    {
        SessionFilters::new()
    }
}

/// Some path in `files` equals `p`.
pub open spec fn has_path(files: Seq<String>, p: Seq<char>) -> bool {
    exists|i: int| 0 <= i < files.len() && paths_equal(#[trigger] files[i]@, p)
}

/// An analysis session.
pub struct Session {
    /// Identifier.
    pub id: String,
    /// When it was created.
    pub created_at: Timestamp,
    /// Its last activity.
    pub last_activity: Timestamp,
    /// Monitored files.
    pub monitored_files: Vec<String>,
    /// Applied filters.
    pub filters: SessionFilters,
    /// Statistics by file.
    pub statistics: KeyedTable<Statistics>,
    /// Detected anomalies.
    pub anomalies: Vec<Anomaly>,
    /// Recent log entries, oldest first.
    pub recent_logs: Vec<LogEntry>,
    /// Free-form metadata.
    pub metadata: KeyedTable<String>,
}

/// The description of a session: `Session <id> (created: <date>, files: <n>, logs: <n>, anomalies: <n>)`.
pub open spec fn session_text(
    id: Seq<char>,
    created: Seq<char>,
    files: nat,
    logs: nat,
    anomalies: nat,
) -> Seq<char> {
    "Session "@ + id + " (created: "@ + created + ", files: "@ + decimal(files) + ", logs: "@ + decimal(logs)
        + ", anomalies: "@ + decimal(anomalies) + ")"@
}

impl Session {
    /// The session's tables are well formed.
    pub open spec fn wf(&self) -> bool {
        self.statistics.wf() && self.metadata.wf()
    }

    /// Every field but the activity time is as in `other`.
    pub open spec fn same_but_activity(&self, other: &Session) -> bool {
        &&& self.id == other.id
        &&& self.created_at == other.created_at
        &&& self.monitored_files == other.monitored_files
        &&& self.filters == other.filters
        &&& self.statistics == other.statistics
        &&& self.anomalies == other.anomalies
        &&& self.recent_logs == other.recent_logs
        &&& self.metadata == other.metadata
    }

    /// A new, empty session created now.
    pub fn new(id: String) -> (s: Session)
        ensures
            s.wf(),
            s.id == id,
            s.created_at == s.last_activity,
            s.monitored_files@.len() == 0,
            s.filters.none_set(),
            s.statistics@ == Map::<Seq<char>, Statistics>::empty(),
            s.anomalies@.len() == 0,
            s.recent_logs@.len() == 0,
            s.metadata@ == Map::<Seq<char>, String>::empty(),
    {
        let t = now();
        Session {
            id,
            created_at: t,
            last_activity: t,
            monitored_files: Vec::new(),
            filters: SessionFilters::new(),
            statistics: KeyedTable::new(),
            anomalies: Vec::new(),
            recent_logs: Vec::new(),
            metadata: KeyedTable::new(),
        }
    }

    /// Sets the last activity to now.
    pub fn touch(&mut self)
        ensures
            *final(self) == (Session { last_activity: final(self).last_activity, ..*old(self) }),
    {
        self.last_activity = now();
    }

    fn holds_path(&self, path: &str) -> (r: bool)
        ensures
            r == has_path(self.monitored_files@, path@),
    {
        let mut i: usize = 0;
        while i < self.monitored_files.len()
            invariant
                i <= self.monitored_files@.len(),
                forall|j: int| 0 <= j < i ==> !paths_equal(#[trigger] self.monitored_files@[j]@, path@),
            decreases self.monitored_files@.len() - i,
        {
            if same_path(self.monitored_files[i].as_str(), path) {
                return true;
            }
            i = i + 1;
        }
        false
    }

    /// Adds `path` to the monitored files unless an equal path is there already;
    /// only an addition counts as activity.
    pub fn add_monitored_file(&mut self, path: String)
        ensures
            has_path(old(self).monitored_files@, path@) ==> *final(self) == *old(self),
            !has_path(old(self).monitored_files@, path@) ==> {
                &&& final(self).monitored_files@ == old(self).monitored_files@.push(path)
                &&& (Session { monitored_files: old(self).monitored_files, ..*final(self) }).same_but_activity(&*old(self))
            },
    {
        if !self.holds_path(path.as_str()) {
            self.monitored_files.push(path);
            self.touch();
        }
    }

    /// Removes every monitored file equal to `path`, and counts as activity.
    pub fn remove_monitored_file(&mut self, path: &str)
        ensures
            final(self).monitored_files@ == old(self).monitored_files@.filter(|f: String| !paths_equal(f@, path@)),
            (Session { monitored_files: old(self).monitored_files, ..*final(self) }).same_but_activity(&*old(self)),
    {
        let ghost keep = |f: String| !paths_equal(f@, path@);
        let mut kept: Vec<String> = Vec::new();
        let mut i: usize = 0;
        while i < self.monitored_files.len()
            invariant
                i <= self.monitored_files@.len(),
                keep == (|f: String| !paths_equal(f@, path@)),
                kept@ == self.monitored_files@.take(i as int).filter(keep),
            decreases self.monitored_files@.len() - i,
        {
            let f = &self.monitored_files[i];
            proof {
                reveal(Seq::filter);
                assert(self.monitored_files@.take(i + 1).drop_last() =~= self.monitored_files@.take(i as int));
            }
            if !same_path(f.as_str(), path) {
                kept.push(f.clone());
            }
            i = i + 1;
        }
        assert(self.monitored_files@.take(self.monitored_files@.len() as int) =~= self.monitored_files@);
        self.monitored_files = kept;
        self.touch();
    }

    /// Appends `entry` to the recent logs, first dropping the oldest one when
    /// there are already `max_size` or more; counts as activity.
    pub fn add_recent_log(&mut self, entry: LogEntry, max_size: usize)
        requires
            max_size > 0 || old(self).recent_logs@.len() > 0,
        ensures
            final(self).recent_logs@ == if old(self).recent_logs@.len() >= max_size {
                old(self).recent_logs@.drop_first().push(entry)
            } else {
                old(self).recent_logs@.push(entry)
            },
            (Session { recent_logs: old(self).recent_logs, ..*final(self) }).same_but_activity(&*old(self)),
    {
        if self.recent_logs.len() >= max_size {
            self.recent_logs.remove(0);
        }
        self.recent_logs.push(entry);
        assert(self.recent_logs@ =~= if old(self).recent_logs@.len() >= max_size {
            old(self).recent_logs@.drop_first().push(entry)
        } else {
            old(self).recent_logs@.push(entry)
        });
        self.touch();
    }

    /// Adds an anomaly; counts as activity.
    pub fn add_anomaly(&mut self, anomaly: Anomaly)
        ensures
            final(self).anomalies@ == old(self).anomalies@.push(anomaly),
            (Session { anomalies: old(self).anomalies, ..*final(self) }).same_but_activity(&*old(self)),
    {
        self.anomalies.push(anomaly);
        self.touch();
    }

    /// Stores the statistics of `file_path`; counts as activity.
    pub fn update_statistics(&mut self, file_path: String, stats: Statistics)
        requires
            old(self).wf(),
        ensures
            final(self).wf(),
            final(self).statistics@ == old(self).statistics@.insert(file_path@, stats),
            (Session { statistics: old(self).statistics, ..*final(self) }).same_but_activity(&*old(self)),
    {
        self.statistics.insert(file_path, stats);
        self.touch();
    }

    /// Nanoseconds from creation to the last activity.
    pub fn duration(&self) -> (d: i128)
        ensures
            d == self.created_at.nanos_until(self.last_activity),
    {
        self.created_at.nanos_to(&self.last_activity)
    }

    /// A one-line description of the session; the creation time is printed as
    /// `YYYY-MM-DD HH:MM:SS` (empty if out of range).
    pub fn info(&self) -> (s: String)
        ensures
            s@ == session_text(
                self.id@,
                match utc_datetime_text(self.created_at.secs, self.created_at.nanos) {
                    Some(t) => t,
                    None => Seq::empty(),
                },
                self.monitored_files@.len(),
                self.recent_logs@.len(),
                self.anomalies@.len(),
            ),
    {
        let created = match datetime_text(&self.created_at) {
            Some(t) => t,
            None => String::new(),
        };
        let mut text: Vec<char> = Vec::new();
        push_str(&mut text, "Session ");
        push_str(&mut text, self.id.as_str());
        push_str(&mut text, " (created: ");
        push_str(&mut text, created.as_str());
        push_str(&mut text, ", files: ");
        push_decimal(&mut text, self.monitored_files.len() as u64);
        push_str(&mut text, ", logs: ");
        push_decimal(&mut text, self.recent_logs.len() as u64);
        push_str(&mut text, ", anomalies: ");
        push_decimal(&mut text, self.anomalies.len() as u64);
        push_str(&mut text, ")");
        let s = string_of(text.as_slice());
        assert(s@ =~= session_text(
            self.id@,
            created@,
            self.monitored_files@.len(),
            self.recent_logs@.len(),
            self.anomalies@.len(),
        ));
        s
    }
}

/// The message for a session that cannot be found: `Session '<id>' not found`.
pub open spec fn missing_session_text(id: Seq<char>) -> Seq<char> {
    "Session '"@ + id + "' not found"@
}

fn missing_session(id: &str) -> (e: LogAnalyzerError)
    ensures
        e matches LogAnalyzerError::Session(m) && m@ == missing_session_text(id@),
{
    let m = String::from_str("Session '").concat(id).concat("' not found");
    LogAnalyzerError::Session(m)
}

/// The sessions in use, by identifier, and where they are stored.
pub struct SessionManager {
    sessions: KeyedTable<Session>,
    storage_dir: Option<String>,
}

impl SessionManager {
    /// The sessions by identifier.
    pub closed spec fn sessions(&self) -> Map<Seq<char>, Session> {
        self.sessions@
    }

    /// The identifiers, in the order the sessions were added.
    pub closed spec fn ids(&self) -> Seq<Seq<char>> {
        self.sessions.keys()
    }

    /// The storage directory.
    pub closed spec fn storage(&self) -> Option<String> {
        self.storage_dir
    }

    /// The session table is well formed.
    pub closed spec fn table_wf(&self) -> bool {
        self.sessions.wf()
    }

    /// The identifier list names each session once and nothing else: an
    /// identifier is listed exactly when a session is stored under it.
    pub proof fn lemma_ids_are_sessions(&self)
        requires
            self.table_wf(),
        ensures
            self.ids().no_duplicates(),
            forall|k: Seq<char>| #[trigger] self.sessions().contains_key(k) <==> self.ids().contains(k),
            self.ids().len() == self.sessions().dom().len(),
    {
        self.sessions.lemma_keys();
    }

    /// No sessions, no storage directory.
    pub fn new() -> (m: SessionManager)
        ensures
            m.table_wf(),
            m.sessions() == Map::<Seq<char>, Session>::empty(),
            m.ids() == Seq::<Seq<char>>::empty(),
            m.storage() is None,
    {
        SessionManager { sessions: KeyedTable::new(), storage_dir: None }
    }

    /// The manager with `dir` as its storage directory.
    pub fn with_storage_dir(self, dir: String) -> (m: SessionManager)
        ensures
            m.sessions() == self.sessions(),
            m.ids() == self.ids(),
            m.table_wf() == self.table_wf(),
            m.storage() == Some(dir),
    {
        SessionManager { storage_dir: Some(dir), ..self }
    }

    /// The storage directory, if any.
    pub fn storage_dir(&self) -> (d: Option<&String>)
        ensures
            match d {
                Some(p) => self.storage() == Some(*p),
                None => self.storage() is None,
            },
    {
        match &self.storage_dir {
            Some(d) => Some(d),
            None => None,
        }
    }

    /// Starts a new, empty session under a fresh random identifier and returns it.
    pub fn create_session(&mut self) -> (id: String)
        requires
            old(self).table_wf(),
        ensures
            final(self).table_wf(),
            final(self).storage() == old(self).storage(),
            final(self).sessions().contains_key(id@),
            final(self).sessions() == old(self).sessions().insert(id@, final(self).sessions()[id@]),
            final(self).sessions()[id@].id@ == id@,
            final(self).sessions()[id@].monitored_files@.len() == 0,
            final(self).sessions()[id@].recent_logs@.len() == 0,
            final(self).sessions()[id@].anomalies@.len() == 0,
            uuid_v4_text(id@),
            final(self).sessions()[id@].wf(),
            final(self).sessions()[id@].created_at == final(self).sessions()[id@].last_activity,
            final(self).sessions()[id@].filters.none_set(),
            final(self).sessions()[id@].statistics@ == Map::<Seq<char>, Statistics>::empty(),
            final(self).sessions()[id@].metadata@ == Map::<Seq<char>, String>::empty(),
            old(self).sessions().contains_key(id@) ==> final(self).ids() == old(self).ids(),
            !old(self).sessions().contains_key(id@) ==> final(self).ids() == old(self).ids().push(id@),
    {
        let id = new_session_id();
        let session = Session::new(id.clone());
        self.sessions.insert(id.clone(), session);
        id
    }

    /// Makes the session `session_id` available: it is kept if already present,
    /// else `stored` (the session read back from storage, if any) is added;
    /// without either the session is not found.
    pub fn restore_session(&mut self, session_id: &str, stored: Option<Session>) -> (r: Result<(), LogAnalyzerError>)
        requires
            old(self).table_wf(),
        ensures
            final(self).table_wf(),
            final(self).storage() == old(self).storage(),
            old(self).sessions().contains_key(session_id@) ==> r is Ok && final(self).sessions() == old(self).sessions()
                && final(self).ids() == old(self).ids(),
            !old(self).sessions().contains_key(session_id@) ==> match stored {
                Some(s) => r is Ok && final(self).sessions() == old(self).sessions().insert(session_id@, s)
                    && final(self).ids() == old(self).ids().push(session_id@),
                None => (r matches Err(LogAnalyzerError::Session(m)) && m@ == missing_session_text(session_id@))
                    && final(self).sessions() == old(self).sessions() && final(self).ids() == old(self).ids(),
            },
    {
        if self.sessions.contains_key(session_id) {
            return Ok(());
        }
        match stored {
            Some(s) => {
                self.sessions.insert(String::from_str(session_id), s);
                Ok(())
            },
            None => Err(missing_session(session_id)),
        }
    }

    /// The session `session_id`, if present.
    pub fn get_session(&self, session_id: &str) -> (r: Option<&Session>)
        requires
            self.table_wf(),
        ensures
            match r {
                Some(s) => self.sessions().contains_key(session_id@) && *s == self.sessions()[session_id@],
                None => !self.sessions().contains_key(session_id@),
            },
    {
        self.sessions.get(session_id)
    }

    /// The session `session_id`, if present, to change in place.
    pub fn get_session_mut(&mut self, session_id: &str) -> (r: Option<&mut Session>)
        requires
            old(self).table_wf(),
        ensures
            match r {
                Some(s) => old(self).sessions().contains_key(session_id@) && *s == old(self).sessions()[session_id@]
                    && final(self).table_wf()
                    && final(self).sessions() == old(self).sessions().insert(session_id@, *final(s))
                    && final(self).ids() == old(self).ids()
                    && final(self).storage() == old(self).storage(),
                None => !old(self).sessions().contains_key(session_id@) && *final(self) == *old(self),
            },
    {
        self.sessions.get_mut(session_id)
    }

    /// Removes the session `session_id`; refused when it is not present.
    pub fn remove_session(&mut self, session_id: &str) -> (r: Result<(), LogAnalyzerError>)
        requires
            old(self).table_wf(),
        ensures
            final(self).table_wf(),
            final(self).storage() == old(self).storage(),
            final(self).sessions() == old(self).sessions().remove(session_id@),
            final(self).ids() == old(self).ids().filter(|k: Seq<char>| k != session_id@),
            old(self).sessions().contains_key(session_id@) ==> r is Ok,
            !old(self).sessions().contains_key(session_id@) ==> (r matches Err(LogAnalyzerError::Session(m))
                && m@ == missing_session_text(session_id@)),
    {
        match self.sessions.remove(session_id) {
            Some(_) => Ok(()),
            None => Err(missing_session(session_id)),
        }
    }

    /// The identifiers of all sessions, in the order they were added.
    pub fn list_sessions(&self) -> (r: Vec<String>)
        requires
            self.table_wf(),
        ensures
            r@.len() == self.ids().len(),
            forall|i: int| 0 <= i < r@.len() ==> #[trigger] r@[i]@ == self.ids()[i],
    {
        let mut r: Vec<String> = Vec::new();
        let mut i: usize = 0;
        while i < self.sessions.len()
            invariant
                self.sessions.wf(),
                i <= self.sessions.keys().len(),
                r@.len() == i,
                forall|j: int| 0 <= j < i ==> #[trigger] r@[j]@ == self.sessions.keys()[j],
            decreases self.sessions.keys().len() - i,
        {
            let (k, _) = self.sessions.entry_at(i);
            r.push(k.clone());
            i = i + 1;
        }
        r
    }
}

impl Default for SessionManager {
    fn default() -> (m: Self)
        ensures
            m.table_wf(),
            m.sessions() == Map::<Seq<char>, Session>::empty(),
            m.storage() is None,
    {
        SessionManager::new()
    }
}

} // verus!
