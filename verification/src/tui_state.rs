//! The decisions of the terminal interface: key handling, which log lines are
//! shown, the bounded buffers of live entries, and the header and footer texts.

use vstd::prelude::*;
use crate::models::{LogEntry, LogLevel};
use crate::table::KeyedTable;
use crate::text::{decimal, push_decimal, push_str, string_of};

verus! {

/// A key press, as far as the interface tells keys apart.
#[derive(Clone, Copy, Debug, PartialEq, Eq, Structural)]
pub enum Key {
    Char(char),
    Tab,
    Up,
    Down,
    Other,
}

/// What the interface shows: the active tab (0 logs, 1 statistics, 2 anomalies),
/// how far the log list is scrolled, and the log filters.
pub struct ViewState {
    pub active_tab: usize,
    pub scroll_offset: usize,
    pub filter_keyword: Option<String>,
    pub selected_level: Option<LogLevel>,
}

/// The number of tabs.
pub const TAB_COUNT: usize = 3;

/// The state after `key` with `log_count` entries in the log list, and whether
/// the key quits.
pub open spec fn after_key(v: ViewState, key: Key, log_count: usize) -> (ViewState, bool) {
    match key {
        Key::Char(c) => if c == 'q' {
            (v, true)
        } else if c == '1' {
            (ViewState { active_tab: 0, ..v }, false)
        } else if c == '2' {
            (ViewState { active_tab: 1, ..v }, false)
        } else if c == '3' {
            (ViewState { active_tab: 2, ..v }, false)
        } else {
            (v, false)
        },
        Key::Tab => (ViewState { active_tab: ((v.active_tab + 1) % 3) as usize, ..v }, false),
        Key::Up => if v.scroll_offset > 0 {
            (ViewState { scroll_offset: (v.scroll_offset - 1) as usize, ..v }, false)
        } else {
            (v, false)
        },
        Key::Down => {
            let max_scroll = if log_count == 0 { 0 } else { log_count - 1 };
            if v.scroll_offset < max_scroll {
                (ViewState { scroll_offset: (v.scroll_offset + 1) as usize, ..v }, false)
            } else {
                (v, false)
            }
        },
        Key::Other => (v, false),
    }
}

impl ViewState {
    /// The active tab is one of the three.
    pub open spec fn wf(&self) -> bool {
        self.active_tab < 3
    }

    /// The logs tab, unscrolled, without filters.
    pub fn new() -> (v: ViewState)
        ensures
            v.wf(),
            v.active_tab == 0,
            v.scroll_offset == 0,
            v.filter_keyword is None,
            v.selected_level is None,
    {
        ViewState { active_tab: 0, scroll_offset: 0, filter_keyword: None, selected_level: None }
    }

    /// Handles a key press: `q` quits, Tab moves to the next tab, `1`–`3` pick a
    /// tab, Up and Down scroll the log list within its length. Returns whether
    /// the key quits.
    pub fn handle_key(&mut self, key: Key, log_count: usize) -> (quit: bool)
        requires
            old(self).wf(),
        ensures
            final(self).wf(),
            (*final(self), quit) == after_key(*old(self), key, log_count),
    {
        match key {
            Key::Char(c) => {
                if c == 'q' {
                    return true;
                } else if c == '1' {
                    self.active_tab = 0;
                } else if c == '2' {
                    self.active_tab = 1;
                } else if c == '3' {
                    self.active_tab = 2;
                }
            },
            Key::Tab => {
                self.active_tab = (self.active_tab + 1) % TAB_COUNT;
            },
            Key::Up => {
                if self.scroll_offset > 0 {
                    self.scroll_offset = self.scroll_offset - 1;
                }
            },
            Key::Down => {
                let max_scroll = log_count.saturating_sub(1);
                if self.scroll_offset < max_scroll {
                    self.scroll_offset = self.scroll_offset + 1;
                }
            },
            Key::Other => {},
        }
        false
    }
}

/// Entry `e` passes the interface's level and keyword filters.
pub open spec fn shown(e: &LogEntry, level: Option<LogLevel>, keyword: Option<Seq<char>>) -> bool {
    &&& (level matches Some(l) ==> e.level == l)
    &&& (keyword matches Some(k) ==> e.mentions(k))
}

/// Positions of the entries among the first `n` of `logs` that pass the filters, newest first.
pub open spec fn shown_newest_first(logs: Seq<LogEntry>, n: int, level: Option<LogLevel>, keyword: Option<Seq<char>>) -> Seq<int>
    decreases n,
{
    if n <= 0 {
        Seq::empty()
    } else if shown(&logs[n - 1], level, keyword) {
        seq![n - 1] + shown_newest_first(logs, n - 1, level, keyword)
    } else {
        shown_newest_first(logs, n - 1, level, keyword)
    }
}

/// The characters of an optional keyword.
pub open spec fn opt_text(k: Option<&str>) -> Option<Seq<char>> {
    match k {
        Some(s) => Some(s@),
        None => None,
    }
}

/// Positions of the log entries that the log list shows in an area `height`
/// rows high (two rows are borders): the entries that pass the filters, newest
/// first, after skipping `offset` of them.
pub fn visible_logs(logs: &Vec<LogEntry>, level: Option<LogLevel>, keyword: Option<&str>, offset: usize, height: u16) -> (r: Vec<usize>)
    requires
        height >= 2,
    ensures
        ({
            let all = shown_newest_first(logs@, logs@.len() as int, level, opt_text(keyword));
            let from = if offset < all.len() { offset as int } else { all.len() as int };
            let to = if from + (height - 2) < all.len() { from + (height - 2) } else { all.len() as int };
            r@.len() == to - from && forall|j: int| 0 <= j < r@.len() ==> #[trigger] r@[j] == all[from + j]
        }),
{
    let ghost kw = opt_text(keyword);
    let room = (height - 2) as usize;
    let mut r: Vec<usize> = Vec::new();
    let mut skipped: usize = 0;
    let mut i: usize = logs.len();
    // `seen` counts the entries passing the filters among positions i.. (from the end).
    let ghost mut seen: int = 0;
    while i > 0 && r.len() < room
        invariant
            i <= logs@.len(),
            room == height - 2,
            kw == opt_text(keyword),
            r@.len() <= room,
            ({
                let all = shown_newest_first(logs@, logs@.len() as int, level, kw);
                let here = shown_newest_first(logs@, i as int, level, kw);
                &&& all.len() == seen + here.len()
                &&& forall|j: int| 0 <= j < here.len() ==> all[seen + j] == #[trigger] here[j]
                &&& skipped == if seen < offset { seen } else { offset as int }
                &&& r@.len() == seen - skipped
                &&& forall|j: int| 0 <= j < r@.len() ==> #[trigger] r@[j] == all[skipped + j]
                &&& (r@.len() > 0 ==> skipped == offset)
            }),
        decreases i,
    {
        let ghost here = shown_newest_first(logs@, i as int, level, kw);
        let ghost next = shown_newest_first(logs@, i - 1, level, kw);
        let e = &logs[i - 1];
        let passes = match level {
            Some(l) => e.level == l,
            None => true,
        } && match keyword {
            Some(k) => e.contains_keyword(k),
            None => true,
        };
        if passes {
            assert(here == seq![i - 1] + next);
            if skipped < offset {
                skipped = skipped + 1;
            } else {
                r.push(i - 1);
            }
            proof {
                let all = shown_newest_first(logs@, logs@.len() as int, level, kw);
                assert(all[seen] == here[0]);
                assert forall|j: int| 0 <= j < next.len() implies all[seen + 1 + j] == #[trigger] next[j] by {
                    assert(here[j + 1] == next[j]);
                    assert(all[seen + (j + 1)] == here[j + 1]);
                }
                seen = seen + 1;
            }
        } else {
            assert(here == next);
        }
        i = i - 1;
    }
    proof {
        let all = shown_newest_first(logs@, logs@.len() as int, level, kw);
        if i == 0 {
            assert(shown_newest_first(logs@, 0, level, kw).len() == 0);
        }
    }
    r
}

/// Appends `item` to `buf`, then drops the oldest item if `buf` holds more than `cap`.
pub fn push_bounded<T>(buf: &mut Vec<T>, item: T, cap: usize)
    ensures
        final(buf)@ == if old(buf)@.len() + 1 > cap {
            old(buf)@.push(item).drop_first()
        } else {
            old(buf)@.push(item)
        },
{
    buf.push(item);
    if buf.len() > cap {
        buf.remove(0);
    }
    proof {
        let b = old(buf)@.push(item);
        if b.len() > cap {
            assert(buf@ =~= b.drop_first());
        }
    }
}

/// Number of different file paths among `logs`.
pub fn distinct_files(logs: &Vec<LogEntry>) -> (n: usize)
    ensures
        n == logs@.map_values(|e: LogEntry| e.file_path@).to_set().len(),
{
    let ghost paths = logs@.map_values(|e: LogEntry| e.file_path@);
    let mut seen: KeyedTable<bool> = KeyedTable::new();
    let mut i: usize = 0;
    while i < logs.len()
        invariant
            i <= logs@.len(),
            paths == logs@.map_values(|e: LogEntry| e.file_path@),
            seen.wf(),
            seen@.dom() == paths.take(i as int).to_set(),
        decreases logs@.len() - i,
    {
        let ghost before = seen@.dom();
        seen.insert(logs[i].file_path.clone(), true);
        proof {
            let t = paths.take(i + 1);
            assert(t == paths.take(i as int).push(paths[i as int]));
            paths.take(i as int).lemma_push_to_set_commute(paths[i as int]);
            assert(seen@.dom() =~= before.insert(paths[i as int]));
        }
        i = i + 1;
    }
    proof {
        seen.lemma_keys();
        assert(paths.take(logs@.len() as int) =~= paths);
    }
    seen.len()
}

/// The header line: `Log Analyzer - Session: <id> | Files: <n> | Processed: <n>`.
pub open spec fn header_text(session_id: Seq<char>, files: nat, processed: nat) -> Seq<char> {
    "Log Analyzer - Session: "@ + session_id + " | Files: "@ + decimal(files) + " | Processed: "@ + decimal(processed)
}

/// The header line of the interface.
pub fn header_line(session_id: &str, files: usize, processed: u64) -> (s: String)
    ensures
        s@ == header_text(session_id@, files as nat, processed as nat),
{
    let mut text: Vec<char> = Vec::new();
    push_str(&mut text, "Log Analyzer - Session: ");
    push_str(&mut text, session_id);
    push_str(&mut text, " | Files: ");
    push_decimal(&mut text, files as u64);
    push_str(&mut text, " | Processed: ");
    push_decimal(&mut text, processed);
    let s = string_of(text.as_slice());
    assert(s@ =~= header_text(session_id@, files as nat, processed as nat));
    s
}

/// The title of the log list: `Live Logs (showing <shown> of <total>)`.
pub open spec fn logs_title_text(shown: nat, total: nat) -> Seq<char> {
    "Live Logs (showing "@ + decimal(shown) + " of "@ + decimal(total) + ")"@
}

/// The title of the log list, with the number of entries shown and the number kept.
pub fn logs_title(shown: usize, total: usize) -> (s: String)
    ensures
        s@ == logs_title_text(shown as nat, total as nat),
{
    let mut text: Vec<char> = Vec::new();
    push_str(&mut text, "Live Logs (showing ");
    push_decimal(&mut text, shown as u64);
    push_str(&mut text, " of ");
    push_decimal(&mut text, total as u64);
    push_str(&mut text, ")");
    let s = string_of(text.as_slice());
    assert(s@ =~= logs_title_text(shown as nat, total as nat));
    s
}

/// The footer line: the filter in use, or the key help.
pub open spec fn footer_text(keyword: Option<Seq<char>>) -> Seq<char> {
    match keyword {
        Some(k) => "Filter: '"@ + k + "' | Press 'q' to quit, Tab to switch views"@,
        None => "Press 'q' to quit, Tab to switch views, ↑↓ to scroll"@,
    }
}

/// The footer line of the interface.
pub fn footer_line(keyword: Option<&str>) -> (s: String)
    ensures
        s@ == footer_text(opt_text(keyword)),
{
    match keyword {
        Some(k) => String::from_str("Filter: '").concat(k).concat("' | Press 'q' to quit, Tab to switch views"),
        None => String::from_str("Press 'q' to quit, Tab to switch views, ↑↓ to scroll"),
    }
}

} // verus!
