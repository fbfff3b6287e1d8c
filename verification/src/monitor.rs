//! The analyzer's run state and the set of monitored files.

use vstd::prelude::*;
use crate::error::LogAnalyzerError;
use crate::session::{paths_equal, same_path};

verus! {

/// A monitored file: its path as given, whether its events are no longer read
/// (its stop flag), and how many of its lines have been read so far.
pub struct WatchedFile {
    pub path: String,
    pub stopped: bool,
    pub lines_read: usize,
}

/// Whether the analyzer runs, and the monitored files in the order they were added.
pub struct MonitorState {
    pub running: bool,
    pub files: Vec<WatchedFile>,
}

/// `a` and `b` name the same file: they are equal, or equal as paths
/// (component by component).
pub open spec fn same_file(a: Seq<char>, b: Seq<char>) -> bool {
    a == b || paths_equal(a, b)
}

/// The position of the first monitored file that is `p`.
pub open spec fn find_file(files: Seq<WatchedFile>, p: Seq<char>) -> Option<int>
    decreases files.len(),
{
    if files.len() == 0 {
        None
    } else {
        match find_file(files.drop_last(), p) {
            Some(i) => Some(i),
            None => if same_file(files.last().path@, p) { Some(files.len() - 1) } else { None },
        }
    }
}

/// Events for `p` are read: it is monitored and its stop flag is clear.
pub open spec fn accepted(files: Seq<WatchedFile>, p: Seq<char>) -> bool {
    find_file(files, p) matches Some(i) && !files[i].stopped
}

/// The files once `path`, holding `line_count` lines, is monitored (anew): an
/// entry for it has its stop flag cleared and its read position set to
/// `line_count`, otherwise such an entry is added last.
pub open spec fn added(files: Seq<WatchedFile>, path: String, line_count: usize) -> Seq<WatchedFile> {
    match find_file(files, path@) {
        Some(i) => files.update(i, WatchedFile { path: files[i].path, stopped: false, lines_read: line_count }),
        None => files.push(WatchedFile { path, stopped: false, lines_read: line_count }),
    }
}

/// The files other than `p`, in order.
pub open spec fn removed(files: Seq<WatchedFile>, p: Seq<char>) -> Seq<WatchedFile> {
    files.filter(|f: WatchedFile| !same_file(f.path@, p))
}

/// The files with every stop flag set.
pub open spec fn halted(files: Seq<WatchedFile>) -> Seq<WatchedFile> {
    files.map_values(|f: WatchedFile| WatchedFile { stopped: true, ..f })
}

/// Where the unread lines of a file with `line_count` lines begin, `read` of
/// them having been read: a file with fewer lines than were read was truncated
/// and is read again from its first line.
pub open spec fn unread_from(read: usize, line_count: usize) -> usize {
    if line_count < read { 0 } else { read }
}

/// The files once `p`, found to hold `line_count` lines, has been read up to
/// its end; only an accepted file is read.
pub open spec fn advanced(files: Seq<WatchedFile>, p: Seq<char>, line_count: usize) -> Seq<WatchedFile> {
    if accepted(files, p) {
        let i = find_file(files, p)->0;
        files.update(i, WatchedFile { lines_read: line_count, ..files[i] })
    } else {
        files
    }
}

/// What `find_file` finds: the first position whose file is `p`, if any.
pub proof fn lemma_find_file(files: Seq<WatchedFile>, p: Seq<char>)
    ensures
        find_file(files, p) matches Some(i) ==> 0 <= i < files.len() && same_file(files[i].path@, p)
            && forall|j: int| 0 <= j < i ==> !same_file(#[trigger] files[j].path@, p),
        find_file(files, p) is None ==> forall|j: int| 0 <= j < files.len() ==> !same_file(#[trigger] files[j].path@, p),
    decreases files.len(),
{
    if files.len() > 0 {
        let init = files.drop_last();
        let n = files.len() - 1;
        lemma_find_file(init, p);
        assert(files.last() == files[n]);
        match find_file(init, p) {
            Some(i) => {
                assert(init[i] == files[i]);
                assert forall|j: int| 0 <= j < i implies !same_file(#[trigger] files[j].path@, p) by {
                    assert(init[j] == files[j]);
                    assert(!same_file(init[j].path@, p));
                }
            },
            None => {
                assert forall|j: int| 0 <= j < n implies !same_file(#[trigger] files[j].path@, p) by {
                    assert(init[j] == files[j]);
                    assert(!same_file(init[j].path@, p));
                }
            },
        }
    }
}

/// A position that is `p`, with no earlier one, is what `find_file` finds; and
/// without any, it finds nothing.
pub proof fn lemma_find_file_is(files: Seq<WatchedFile>, p: Seq<char>, i: int)
    ensures
        0 <= i < files.len() && same_file(files[i].path@, p)
            && (forall|j: int| 0 <= j < i ==> !same_file(#[trigger] files[j].path@, p))
            ==> find_file(files, p) == Some(i),
        (forall|j: int| 0 <= j < files.len() ==> !same_file(#[trigger] files[j].path@, p)) ==> find_file(files, p) is None,
{
    lemma_find_file(files, p);
    if let Some(k) = find_file(files, p) {
        if 0 <= i < files.len() && same_file(files[i].path@, p)
            && (forall|j: int| 0 <= j < i ==> !same_file(#[trigger] files[j].path@, p)) {
            if k < i {
                assert(!same_file(files[k].path@, p));
            }
            if i < k {
                assert(!same_file(files[i].path@, p));
            }
        }
        assert(same_file(files[k].path@, p));
    } else {
        if 0 <= i < files.len() && same_file(files[i].path@, p) {
            assert(!same_file(files[i].path@, p));
        }
    }
}

impl MonitorState {
    /// Not running, no files.
    pub fn new() -> (s: MonitorState)
        ensures
            !s.running,
            s.files@ == Seq::<WatchedFile>::empty(),
    {
        MonitorState { running: false, files: Vec::new() }
    }

    /// Marks the analyzer as running; refused when it already runs.
    pub fn begin(&mut self) -> (r: Result<(), LogAnalyzerError>)
        ensures
            final(self).files == old(self).files,
            old(self).running ==> (r matches Err(LogAnalyzerError::AnomalyDetection(m))
                && m@ == "Analyzer is already running"@) && final(self).running,
            !old(self).running ==> r is Ok && final(self).running,
    {
        if self.running {
            return Err(LogAnalyzerError::AnomalyDetection(String::from_str("Analyzer is already running")));
        }
        self.running = true;
        Ok(())
    }

    /// Stops the analyzer: clears the running flag and sets every stop flag.
    /// Returns whether it was running (when it was not, nothing changes).
    pub fn halt(&mut self) -> (was_running: bool)
        ensures
            was_running == old(self).running,
            !final(self).running,
            !old(self).running ==> final(self).files@ == old(self).files@,
            old(self).running ==> final(self).files@ == halted(old(self).files@),
    {
        if !self.running {
            return false;
        }
        self.running = false;
        let mut next: Vec<WatchedFile> = Vec::new();
        let mut i: usize = 0;
        while i < self.files.len()
            invariant
                i <= self.files@.len(),
                next@ == halted(self.files@.take(i as int)),
            decreases self.files@.len() - i,
        {
            let f = &self.files[i];
            next.push(WatchedFile { path: f.path.clone(), stopped: true, lines_read: f.lines_read });
            assert(next@ =~= halted(self.files@.take(i + 1)));
            i = i + 1;
        }
        assert(self.files@.take(self.files@.len() as int) =~= self.files@);
        self.files = next;
        true
    }

    /// The position of the first monitored file that is `path`.
    fn position(&self, path: &str) -> (r: Option<usize>)
        ensures
            match r {
                Some(i) => find_file(self.files@, path@) == Some(i as int) && i < self.files@.len(),
                None => find_file(self.files@, path@) is None,
            },
    {
        let mut i: usize = 0;
        while i < self.files.len()
            invariant
                i <= self.files@.len(),
                forall|j: int| 0 <= j < i ==> !same_file(#[trigger] self.files@[j].path@, path@),
            decreases self.files@.len() - i,
        {
            if same_path(self.files[i].path.as_str(), path) {
                proof { lemma_find_file_is(self.files@, path@, i as int); }
                return Some(i);
            }
            i = i + 1;
        }
        proof { lemma_find_file_is(self.files@, path@, 0); }
        None
    }

    /// Starts monitoring `path`, which must exist and then holds `line_count`
    /// lines; only lines added after these are read. Monitoring a file anew
    /// clears its stop flag and moves its read position to `line_count`.
    pub fn add_file(&mut self, path: String, exists: bool, line_count: usize) -> (r: Result<(), LogAnalyzerError>)
        ensures
            final(self).running == old(self).running,
            !exists ==> (r matches Err(LogAnalyzerError::FileNotFound(p)) && p@ == path@)
                && final(self).files@ == old(self).files@,
            exists ==> r is Ok && final(self).files@ == added(old(self).files@, path, line_count),
    {
        if !exists {
            return Err(LogAnalyzerError::FileNotFound(path));
        }
        match self.position(path.as_str()) {
            Some(i) => {
                let kept = self.files[i].path.clone();
                self.files.set(i, WatchedFile { path: kept, stopped: false, lines_read: line_count });
            },
            None => {
                self.files.push(WatchedFile { path, stopped: false, lines_read: line_count });
            },
        }
        Ok(())
    }

    /// Stops monitoring `path`; refused when it is not monitored.
    pub fn remove_file(&mut self, path: &str) -> (r: Result<(), LogAnalyzerError>)
        ensures
            final(self).running == old(self).running,
            final(self).files@ == removed(old(self).files@, path@),
            find_file(old(self).files@, path@) is Some ==> r is Ok,
            find_file(old(self).files@, path@) is None ==> (r matches Err(LogAnalyzerError::FileNotFound(p)) && p@ == path@),
    {
        let ghost keep = |f: WatchedFile| !same_file(f.path@, path@);
        let found = self.position(path);
        let mut kept: Vec<WatchedFile> = Vec::new();
        let mut i: usize = 0;
        while i < self.files.len()
            invariant
                i <= self.files@.len(),
                keep == (|f: WatchedFile| !same_file(f.path@, path@)),
                kept@ == self.files@.take(i as int).filter(keep),
            decreases self.files@.len() - i,
        {
            let f = &self.files[i];
            proof {
                reveal(Seq::filter);
                assert(self.files@.take(i + 1).drop_last() =~= self.files@.take(i as int));
            }
            if !same_path(f.path.as_str(), path) {
                kept.push(WatchedFile { path: f.path.clone(), stopped: f.stopped, lines_read: f.lines_read });
            }
            i = i + 1;
        }
        assert(self.files@.take(self.files@.len() as int) =~= self.files@);
        self.files = kept;
        match found {
            Some(_) => Ok(()),
            None => Err(LogAnalyzerError::FileNotFound(String::from_str(path))),
        }
    }

    /// Whether events for `path` are read: it is monitored and its stop flag is clear.
    pub fn accepts(&self, path: &str) -> (r: bool)
        ensures
            r == accepted(self.files@, path@),
    {
        match self.position(path) {
            Some(i) => !self.files[i].stopped,
            None => false,
        }
    }

    /// Records that `path` now holds `line_count` lines and returns where its
    /// unread lines begin (see `unread_from`); `None`, with nothing changed, when
    /// the file's events are not read.
    pub fn advance(&mut self, path: &str, line_count: usize) -> (r: Option<usize>)
        ensures
            final(self).running == old(self).running,
            final(self).files@ == advanced(old(self).files@, path@, line_count),
            accepted(old(self).files@, path@) ==> r == Some(unread_from(
                old(self).files@[find_file(old(self).files@, path@)->0].lines_read,
                line_count,
            )),
            !accepted(old(self).files@, path@) ==> r is None,
    {
        match self.position(path) {
            Some(i) => {
                if self.files[i].stopped {
                    return None;
                }
                let read = self.files[i].lines_read;
                let kept = self.files[i].path.clone();
                self.files.set(i, WatchedFile { path: kept, stopped: false, lines_read: line_count });
                assert(self.files@ =~= advanced(old(self).files@, path@, line_count));
                Some(if line_count < read { 0 } else { read })
            },
            None => None,
        }
    }

    /// The monitored paths, in the order they were added.
    pub fn watched_paths(&self) -> (r: Vec<String>)
        ensures
            r@.len() == self.files@.len(),
            forall|i: int| 0 <= i < r@.len() ==> #[trigger] r@[i]@ == self.files@[i].path@,
    {
        let mut r: Vec<String> = Vec::new();
        let mut i: usize = 0;
        while i < self.files.len()
            invariant
                i <= self.files@.len(),
                r@.len() == i,
                forall|j: int| 0 <= j < i ==> #[trigger] r@[j]@ == self.files@[j].path@,
            decreases self.files@.len() - i,
        {
            r.push(self.files[i].path.clone());
            i = i + 1;
        }
        r
    }
}

} // verus!
