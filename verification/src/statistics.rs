//! Running statistics over the log entries of one file.

use vstd::prelude::*;
use crate::models::{LogEntry, LogLevel};
use crate::table::KeyedTable;
use crate::time::Timestamp;

verus! {

/// Number of entries seen at each log level.
#[derive(Clone, Copy, Debug, PartialEq, Eq, Structural)]
pub struct LevelCounts {
    pub trace: u64,
    pub debug: u64,
    pub info: u64,
    pub warn: u64,
    pub error: u64,
    pub unknown: u64,
}

impl LevelCounts {
    /// The count kept for `level`.
    pub open spec fn count(self, level: LogLevel) -> u64 {
        match level {
            LogLevel::Trace => self.trace,
            LogLevel::Debug => self.debug,
            LogLevel::Info => self.info,
            LogLevel::Warn => self.warn,
            LogLevel::Error => self.error,
            LogLevel::Unknown => self.unknown,
        }
    }

    /// Sum of all counts.
    pub open spec fn sum(self) -> int {
        self.trace + self.debug + self.info + self.warn + self.error + self.unknown
    }

    /// All counts zero.
    pub fn new() -> (c: LevelCounts)
        ensures
            forall|l: LogLevel| #[trigger] c.count(l) == 0,
            c.sum() == 0,
    {
        LevelCounts { trace: 0, debug: 0, info: 0, warn: 0, error: 0, unknown: 0 }
    }

    /// The count kept for `level`.
    pub fn get(&self, level: &LogLevel) -> (n: u64)
        ensures
            n == self.count(*level),
    {
        match level {
            LogLevel::Trace => self.trace,
            LogLevel::Debug => self.debug,
            LogLevel::Info => self.info,
            LogLevel::Warn => self.warn,
            LogLevel::Error => self.error,
            LogLevel::Unknown => self.unknown,
        }
    }

    /// Adds one to the count of `level`.
    pub fn bump(&mut self, level: &LogLevel)
        requires
            old(self).count(*level) < u64::MAX,
        ensures
            *final(self) == bumped(*old(self), *level),
            forall|l: LogLevel| #[trigger] final(self).count(l)
                == if l == *level { old(self).count(l) + 1 } else { old(self).count(l) as int },
            final(self).sum() == old(self).sum() + 1,
    {
        match level {
            LogLevel::Trace => self.trace = self.trace + 1,
            LogLevel::Debug => self.debug = self.debug + 1,
            LogLevel::Info => self.info = self.info + 1,
            LogLevel::Warn => self.warn = self.warn + 1,
            LogLevel::Error => self.error = self.error + 1,
            LogLevel::Unknown => self.unknown = self.unknown + 1,
        }
    }
}

/// The count stored under `k`, or 0 when `k` is absent.
pub open spec fn count_of(m: Map<Seq<char>, u64>, k: Seq<char>) -> int {
    if m.contains_key(k) { m[k] as int } else { 0 }
}

/// `m` with one more occurrence of `k`.
pub open spec fn counted(m: Map<Seq<char>, u64>, k: Seq<char>) -> Map<Seq<char>, u64> {
    m.insert(k, (count_of(m, k) + 1) as u64)
}

/// Every count in `m` is at most `bound`.
pub open spec fn counts_within(m: Map<Seq<char>, u64>, bound: int) -> bool {
    forall|k: Seq<char>| #[trigger] m.contains_key(k) ==> m[k] <= bound
}

/// Sum of `f` over `keys`.
pub open spec fn sum_over(keys: Seq<Seq<char>>, f: spec_fn(Seq<char>) -> int) -> int
    decreases keys.len(),
{
    if keys.len() == 0 {
        0
    } else {
        sum_over(keys.drop_last(), f) + f(keys.last())
    }
}

/// Sum of the counts of a table.
pub open spec fn counts_total(t: KeyedTable<u64>) -> int {
    sum_over(t.keys(), |k: Seq<char>| t@[k] as int)
}

/// A prefix of the keys sums to at most the whole, and to no less than zero,
/// when `f` is never negative.
pub proof fn lemma_sum_bounded(keys: Seq<Seq<char>>, f: spec_fn(Seq<char>) -> int, i: int)
    requires
        0 <= i <= keys.len(),
        forall|k: Seq<char>| #[trigger] f(k) >= 0,
    ensures
        sum_over(keys.take(i), f) <= sum_over(keys, f),
        sum_over(keys.take(i), f) >= 0,
    decreases keys.len(),
{
    if keys.len() > 0 {
        if i == keys.len() {
            assert(keys.take(i) =~= keys);
            lemma_sum_bounded(keys.drop_last(), f, i - 1);
            assert(keys.drop_last().take(i - 1) =~= keys.drop_last());
        } else {
            lemma_sum_bounded(keys.drop_last(), f, i);
            assert(keys.drop_last().take(i) =~= keys.take(i));
        }
    } else {
        assert(keys.take(i) =~= keys);
    }
}


/// Functions that agree on every key have the same sum over the keys.
pub proof fn lemma_sum_agree(keys: Seq<Seq<char>>, f: spec_fn(Seq<char>) -> int, g: spec_fn(Seq<char>) -> int)
    requires
        forall|i: int| 0 <= i < keys.len() ==> f(#[trigger] keys[i]) == g(keys[i]),
    ensures
        sum_over(keys, f) == sum_over(keys, g),
    decreases keys.len(),
{
    if keys.len() > 0 {
        let init = keys.drop_last();
        assert forall|i: int| 0 <= i < init.len() implies f(#[trigger] init[i]) == g(init[i]) by {
            assert(init[i] == keys[i]);
        }
        lemma_sum_agree(init, f, g);
        assert(keys.last() == keys[keys.len() - 1]);
    }
}

/// Raising `f` by one at the single key `k` raises the sum over keys without
/// duplicates by one when `k` is among them, and leaves it alone otherwise.
proof fn lemma_sum_bump(keys: Seq<Seq<char>>, f: spec_fn(Seq<char>) -> int, g: spec_fn(Seq<char>) -> int, k: Seq<char>)
    requires
        keys.no_duplicates(),
        forall|x: Seq<char>| #[trigger] keys.contains(x) && x != k ==> g(x) == f(x),
        keys.contains(k) ==> g(k) == f(k) + 1,
    ensures
        sum_over(keys, g) == sum_over(keys, f) + if keys.contains(k) { 1int } else { 0int },
    decreases keys.len(),
{
    if keys.len() > 0 {
        let init = keys.drop_last();
        assert forall|x: Seq<char>| #[trigger] init.contains(x) && x != k implies g(x) == f(x) by {
            let i = choose|i: int| 0 <= i < init.len() && init[i] == x;
            assert(keys[i] == x);
            assert(keys.contains(x));
        }
        assert(init.no_duplicates()) by {
            assert forall|i: int, j: int| 0 <= i < init.len() && 0 <= j < init.len() && i != j implies init[i] != init[j] by {
                assert(keys[i] == init[i] && keys[j] == init[j]);
            }
        }
        assert(init.contains(k) ==> keys.contains(k)) by {
            if init.contains(k) {
                let i = choose|i: int| 0 <= i < init.len() && init[i] == k;
                assert(keys[i] == k);
            }
        }
        lemma_sum_bump(init, f, g, k);
        assert(keys.contains(keys.last())) by { assert(keys[keys.len() - 1] == keys.last()); }
        if keys.last() == k {
            assert(!init.contains(k)) by {
                if init.contains(k) {
                    let i = choose|i: int| 0 <= i < init.len() && init[i] == k;
                    assert(keys[i] == keys[keys.len() - 1]);
                }
            }
        } else {
            assert(keys.contains(k) == init.contains(k)) by {
                if keys.contains(k) {
                    let i = choose|i: int| 0 <= i < keys.len() && keys[i] == k;
                    assert(init[i] == k);
                }
                if init.contains(k) {
                    let i = choose|i: int| 0 <= i < init.len() && init[i] == k;
                    assert(keys[i] == k);
                }
            }
        }
    }
}

/// Adds one occurrence of `key` to `table`.
pub fn count_key(table: &mut KeyedTable<u64>, key: &str)
    requires
        old(table).wf(),
        count_of(old(table)@, key@) < u64::MAX,
    ensures
        final(table).wf(),
        final(table)@ == counted(old(table)@, key@),
        old(table)@.contains_key(key@) ==> final(table).keys() == old(table).keys(),
        !old(table)@.contains_key(key@) ==> final(table).keys() == old(table).keys().push(key@),
        counts_total(*final(table)) == counts_total(*old(table)) + 1,
{
    let n: u64 = match table.get(key) {
        Some(v) => *v,
        None => 0,
    };
    let ghost before = *table;
    table.insert(String::from_str(key), n + 1);
    proof {
        before.lemma_keys();
        let f = |k: Seq<char>| before@[k] as int;
        let g = |k: Seq<char>| table@[k] as int;
        assert forall|x: Seq<char>| #[trigger] before.keys().contains(x) && x != key@ implies g(x) == f(x) by {}
        if before@.contains_key(key@) {
            lemma_sum_bump(before.keys(), f, g, key@);
            assert(counts_total(*table) == sum_over(before.keys(), g));
        } else {
            lemma_sum_bump(before.keys(), f, g, key@);
            let ks = before.keys().push(key@);
            assert(ks.drop_last() =~= before.keys());
            assert(counts_total(*table) == sum_over(ks, g));
        }
    }
}

/// Keys of `table` with the largest counts, most frequent first, at most `n` of them.
/// Among equal counts, keys inserted earlier come first.
pub fn top_counts(table: &KeyedTable<u64>, n: usize) -> (r: Vec<(String, u64)>)
    requires
        table.wf(),
    ensures
        r@.len() == if n < table.keys().len() { n as int } else { table.keys().len() as int },
        forall|i: int| 0 <= i < r@.len() ==> {
            &&& table@.contains_key(#[trigger] r@[i].0@)
            &&& r@[i].1 == table@[r@[i].0@]
        },
        forall|i: int, j: int| 0 <= i < j < r@.len() ==> #[trigger] r@[i].0@ != #[trigger] r@[j].0@,
        forall|i: int, j: int| 0 <= i < j < r@.len() ==> #[trigger] r@[i].1 >= #[trigger] r@[j].1,
        forall|k: Seq<char>, i: int|
            #[trigger] table@.contains_key(k) && 0 <= i < r@.len()
                && (forall|j: int| 0 <= j < r@.len() ==> r@[j].0@ != k)
                ==> table@[k] <= #[trigger] r@[i].1,
        forall|i: int, j: int, a: int, b: int|
            0 <= i < j < r@.len() && 0 <= a < table.keys().len() && 0 <= b < table.keys().len()
                && #[trigger] table.keys()[a] == #[trigger] r@[i].0@ && #[trigger] table.keys()[b] == #[trigger] r@[j].0@
                && r@[i].1 == r@[j].1 ==> a < b,
{
    let m = table.len();
    let limit = if n < m { n } else { m };
    proof { table.lemma_keys(); }
    let ghost keys = table.keys();
    let mut chosen: Vec<bool> = Vec::new();
    let mut j: usize = 0;
    while j < m
        invariant
            j <= m,
            chosen@.len() == j,
            forall|a: int| 0 <= a < j ==> !chosen@[a],
        decreases m - j,
    {
        chosen.push(false);
        j = j + 1;
    }
    // `picked[t]` is the position (in insertion order) of the `t`-th chosen key.
    let ghost mut picked: Seq<int> = Seq::empty();
    let mut r: Vec<(String, u64)> = Vec::new();
    let mut round: usize = 0;
    while round < limit
        invariant
            m == keys.len(),
            keys == table.keys(),
            table.wf(),
            keys.no_duplicates(),
            forall|a: int| 0 <= a < keys.len() ==> #[trigger] table@.contains_key(keys[a]),
            forall|k: Seq<char>| #[trigger] table@.contains_key(k) <==> keys.contains(k),
            limit <= m,
            round <= limit,
            chosen@.len() == m,
            r@.len() == round,
            picked.len() == round,
            forall|t: int| 0 <= t < round ==> 0 <= #[trigger] picked[t] < m,
            forall|t: int| 0 <= t < round ==> #[trigger] r@[t].0@ == keys[picked[t]],
            forall|t: int| 0 <= t < round ==> #[trigger] r@[t].1 == table@[keys[picked[t]]],
            forall|a: int| 0 <= a < m ==> (#[trigger] chosen@[a] <==> exists|t: int| 0 <= t < round && picked[t] == a),
            forall|t: int, u: int| 0 <= t < u < round ==> #[trigger] picked[t] != #[trigger] picked[u],
            forall|t: int, u: int| 0 <= t < u < round ==> #[trigger] r@[t].1 >= #[trigger] r@[u].1,
            forall|a: int, t: int| 0 <= a < m && !chosen@[a] && 0 <= t < round
                ==> table@[#[trigger] keys[a]] <= #[trigger] r@[t].1,
            forall|t: int, u: int| 0 <= t < u < round && r@[t].1 == r@[u].1 ==> #[trigger] picked[t] < #[trigger] picked[u],
            forall|a: int, t: int| 0 <= a < m && !chosen@[a] && 0 <= t < round
                && table@[keys[a]] == r@[t].1 ==> #[trigger] picked[t] < a && #[trigger] chosen@[a] == false,
        decreases limit - round,
    {
        // Find the first unchosen position with the largest count.
        let mut best: usize = m;
        let mut i: usize = 0;
        while i < m
            invariant
                m == keys.len(),
                keys == table.keys(),
                table.wf(),
                forall|a: int| 0 <= a < keys.len() ==> #[trigger] table@.contains_key(keys[a]),
                chosen@.len() == m,
                i <= m,
                best == m || (best < i && !chosen@[best as int]),
                best == m ==> forall|a: int| 0 <= a < i ==> #[trigger] chosen@[a],
                best < m ==> forall|a: int| 0 <= a < i && !chosen@[a] ==> table@[#[trigger] keys[a]] <= table@[keys[best as int]],
                best < m ==> forall|a: int| 0 <= a < best && !chosen@[a] ==> table@[#[trigger] keys[a]] < table@[keys[best as int]],
            decreases m - i,
        {
            if !chosen[i] {
                let (_, ci) = table.entry_at(i);
                if best == m {
                    best = i;
                } else {
                    let (_, cb) = table.entry_at(best);
                    if *ci > *cb {
                        best = i;
                    }
                }
            }
            i = i + 1;
        }
        proof {
            if best == m {
                // Fewer than `limit` positions were chosen, so one is free.
                assert forall|a: int| 0 <= a < m implies #[trigger] holds_position(picked, a) by {
                    assert(chosen@[a]);
                }
                lemma_cover_length(picked, m as int);
            }
        }
        let (k, c) = table.entry_at(best);
        let ghost old_r = r@;
        let ghost old_picked = picked;
        let ghost old_chosen = chosen@;
        r.push((k.clone(), *c));
        chosen.set(best, true);
        proof {
            picked = picked.push(best as int);
            assert forall|a: int| 0 <= a < m implies (#[trigger] chosen@[a] <==> exists|t: int| 0 <= t < round + 1 && picked[t] == a) by {
                if a == best {
                    assert(picked[round as int] == a);
                } else {
                    if exists|t: int| 0 <= t < round + 1 && picked[t] == a {
                        let t = choose|t: int| 0 <= t < round + 1 && picked[t] == a;
                        assert(t < round);
                        assert(old_picked[t] == a);
                    }
                    if exists|t: int| 0 <= t < round && old_picked[t] == a {
                        let t = choose|t: int| 0 <= t < round && old_picked[t] == a;
                        assert(picked[t] == a);
                    }
                }
            }
            assert forall|t: int, u: int| 0 <= t < u < round + 1 implies #[trigger] picked[t] != #[trigger] picked[u] by {
                assert(old_picked[t] == picked[t]);
                if u == round {
                    assert(!old_chosen[best as int]);
                    if picked[t] == best {
                        assert(exists|t2: int| 0 <= t2 < round && old_picked[t2] == best);
                    }
                } else {
                    assert(old_picked[u] == picked[u]);
                }
            }
        }
        round = round + 1;
    }
    proof {
        assert forall|k: Seq<char>, i: int|
            #[trigger] table@.contains_key(k) && 0 <= i < r@.len()
                && (forall|j: int| 0 <= j < r@.len() ==> r@[j].0@ != k)
                implies table@[k] <= #[trigger] r@[i].1 by {
            let a = choose|a: int| 0 <= a < keys.len() && keys[a] == k;
            if chosen@[a] {
                let t = choose|t: int| 0 <= t < round && picked[t] == a;
                assert(r@[t].0@ == k);
            }
        }
        assert forall|i: int, j: int| 0 <= i < j < r@.len() implies #[trigger] r@[i].0@ != #[trigger] r@[j].0@ by {
            assert(picked[i] != picked[j]);
        }
        assert forall|i: int, j: int, a: int, b: int|
            0 <= i < j < r@.len() && 0 <= a < keys.len() && 0 <= b < keys.len()
                && #[trigger] keys[a] == #[trigger] r@[i].0@ && #[trigger] keys[b] == #[trigger] r@[j].0@
                && r@[i].1 == r@[j].1 implies a < b by {
            assert(keys[picked[i]] == keys[a]);
            assert(keys[picked[j]] == keys[b]);
            assert(picked[i] < picked[j]);
            if picked[i] != a {
                assert(keys[picked[i]] != keys[a]);
            }
            if picked[j] != b {
                assert(keys[picked[j]] != keys[b]);
            }
        }
    }
    r
}

/// `picked` holds position `a`.
spec fn holds_position(picked: Seq<int>, a: int) -> bool {
    exists|t: int| 0 <= t < picked.len() && picked[t] == a
}

/// A sequence that holds every position below `m` has at least `m` elements.
proof fn lemma_cover_length(picked: Seq<int>, m: int)
    requires
        0 <= m,
        forall|a: int| 0 <= a < m ==> #[trigger] holds_position(picked, a),
    ensures
        picked.len() >= m,
{
    let s = vstd::set_lib::set_int_range(0, m);
    assert forall|a: int| s.contains(a) implies picked.to_set().contains(a) by {
        assert(holds_position(picked, a));
        let t = choose|t: int| 0 <= t < picked.len() && picked[t] == a;
        assert(picked.contains(a));
    }
    vstd::set_lib::lemma_int_range(0, m);
    vstd::seq_lib::seq_to_set_is_finite(picked);
    vstd::set_lib::lemma_len_subset(s, picked.to_set());
    picked.lemma_cardinality_of_set();
}

/// Statistics over the log entries of one file.
pub struct Statistics {
    /// Number of entries processed.
    pub total_entries: u64,
    /// Entries per log level.
    pub level_counts: LevelCounts,
    /// Entries per source, for entries that name one.
    pub source_counts: KeyedTable<u64>,
    /// Entries per user, for entries that name one.
    pub user_counts: KeyedTable<u64>,
    /// Timestamp of the first entry.
    pub first_entry: Option<Timestamp>,
    /// Timestamp of the latest entry.
    pub last_entry: Option<Timestamp>,
    /// Entries per message text.
    pub repeated_messages: KeyedTable<u64>,
}

/// The content of a `Statistics` value.
pub struct StatsView {
    pub total_entries: u64,
    pub level_counts: LevelCounts,
    pub source_counts: Map<Seq<char>, u64>,
    pub user_counts: Map<Seq<char>, u64>,
    pub first_entry: Option<Timestamp>,
    pub last_entry: Option<Timestamp>,
    pub repeated_messages: Map<Seq<char>, u64>,
}

impl StatsView {
    /// Statistics before any entry.
    pub open spec fn empty() -> StatsView {
        StatsView {
            total_entries: 0,
            level_counts: LevelCounts { trace: 0, debug: 0, info: 0, warn: 0, error: 0, unknown: 0 },
            source_counts: Map::empty(),
            user_counts: Map::empty(),
            first_entry: None,
            last_entry: None,
            repeated_messages: Map::empty(),
        }
    }
}

/// One more count for `level`.
pub open spec fn bumped(c: LevelCounts, level: LogLevel) -> LevelCounts {
    match level {
        LogLevel::Trace => LevelCounts { trace: (c.trace + 1) as u64, ..c },
        LogLevel::Debug => LevelCounts { debug: (c.debug + 1) as u64, ..c },
        LogLevel::Info => LevelCounts { info: (c.info + 1) as u64, ..c },
        LogLevel::Warn => LevelCounts { warn: (c.warn + 1) as u64, ..c },
        LogLevel::Error => LevelCounts { error: (c.error + 1) as u64, ..c },
        LogLevel::Unknown => LevelCounts { unknown: (c.unknown + 1) as u64, ..c },
    }
}

/// The statistics `v` once entry `e` is recorded: one more entry in total, at
/// its level, for its source and user (if it names them) and for its message;
/// the first timestamp is kept once set and the last one is the entry's.
pub open spec fn recorded(v: StatsView, e: &LogEntry) -> StatsView {
    StatsView {
        total_entries: (v.total_entries + 1) as u64,
        level_counts: bumped(v.level_counts, e.level),
        source_counts: match e.source {
            Some(s) => counted(v.source_counts, s@),
            None => v.source_counts,
        },
        user_counts: match e.user {
            Some(u) => counted(v.user_counts, u@),
            None => v.user_counts,
        },
        first_entry: match v.first_entry {
            Some(t) => Some(t),
            None => Some(e.timestamp),
        },
        last_entry: Some(e.timestamp),
        repeated_messages: counted(v.repeated_messages, e.message@),
    }
}

impl View for Statistics {
    type V = StatsView;

    open spec fn view(&self) -> StatsView {
        StatsView {
            total_entries: self.total_entries,
            level_counts: self.level_counts,
            source_counts: self.source_counts@,
            user_counts: self.user_counts@,
            first_entry: self.first_entry,
            last_entry: self.last_entry,
            repeated_messages: self.repeated_messages@,
        }
    }
}

impl Statistics {
    /// The statistics are consistent: the level counts and the message counts
    /// each add up to the total, the source and user counts add up to no more
    /// than it (an entry names at most one of each), no single count exceeds it,
    /// and the timestamps are present exactly when an entry has been seen.
    pub open spec fn wf(&self) -> bool {
        &&& self.source_counts.wf()
        &&& self.user_counts.wf()
        &&& self.repeated_messages.wf()
        &&& self.level_counts.sum() == self.total_entries
        &&& counts_within(self.source_counts@, self.total_entries as int)
        &&& counts_within(self.user_counts@, self.total_entries as int)
        &&& counts_within(self.repeated_messages@, self.total_entries as int)
        &&& counts_total(self.repeated_messages) == self.total_entries
        &&& counts_total(self.source_counts) <= self.total_entries
        &&& counts_total(self.user_counts) <= self.total_entries
        &&& (self.total_entries == 0 <==> self.first_entry is None)
        &&& (self.total_entries == 0 <==> self.last_entry is None)
    }

    /// Statistics before any entry.
    pub fn new() -> (s: Statistics)
        ensures
            s.wf(),
            s@ == StatsView::empty(),
    {
        Statistics {
            total_entries: 0,
            level_counts: LevelCounts::new(),
            source_counts: KeyedTable::new(),
            user_counts: KeyedTable::new(),
            first_entry: None,
            last_entry: None,
            repeated_messages: KeyedTable::new(),
        }
    }

    /// Records one more entry.
    pub fn update(&mut self, entry: &LogEntry)
        requires
            old(self).wf(),
            old(self).total_entries < u64::MAX,
        ensures
            final(self).wf(),
            final(self)@ == recorded(old(self)@, entry),
    {
        let ghost before = *self;
        self.total_entries = self.total_entries + 1;
        self.level_counts.bump(&entry.level);
        if let Some(source) = &entry.source {
            count_key(&mut self.source_counts, source.as_str());
        }
        if let Some(user) = &entry.user {
            count_key(&mut self.user_counts, user.as_str());
        }
        if self.first_entry.is_none() {
            self.first_entry = Some(entry.timestamp);
        }
        self.last_entry = Some(entry.timestamp);
        count_key(&mut self.repeated_messages, entry.message.as_str());
        proof {
            assert(self.level_counts == bumped(before.level_counts, entry.level));
            assert(counts_within(self.source_counts@, self.total_entries as int));
            assert(counts_within(self.user_counts@, self.total_entries as int));
            assert(counts_within(self.repeated_messages@, self.total_entries as int));
        }
    }

    /// Entries seen at `level`.
    pub fn get_level_count(&self, level: &LogLevel) -> (n: u64)
        ensures
            n == self.level_counts.count(*level),
    {
        self.level_counts.get(level)
    }

    /// Error entries and all entries, the two terms of the error rate; `None`
    /// when no entry has been seen (the rate is then zero).
    pub fn error_fraction(&self) -> (r: Option<(u64, u64)>)
        ensures
            self.total_entries == 0 ==> r is None,
            self.total_entries != 0 ==> r == Some((self.level_counts.count(LogLevel::Error), self.total_entries)),
    {
        if self.total_entries == 0 {
            None
        } else {
            Some((self.get_level_count(&LogLevel::Error), self.total_entries))
        }
    }

    /// Warning entries and all entries, the two terms of the warning rate;
    /// `None` when no entry has been seen (the rate is then zero).
    pub fn warn_fraction(&self) -> (r: Option<(u64, u64)>)
        ensures
            self.total_entries == 0 ==> r is None,
            self.total_entries != 0 ==> r == Some((self.level_counts.count(LogLevel::Warn), self.total_entries)),
    {
        if self.total_entries == 0 {
            None
        } else {
            Some((self.get_level_count(&LogLevel::Warn), self.total_entries))
        }
    }

    /// Nanoseconds from the first to the latest entry, when both are known.
    pub fn duration(&self) -> (d: Option<i128>)
        ensures
            d == match (self.first_entry, self.last_entry) {
                (Some(first), Some(last)) => Some(first.nanos_until(last) as i128),
                _ => None,
            },
    {
        match (&self.first_entry, &self.last_entry) {
            (Some(first), Some(last)) => Some(first.nanos_to(last)),
            _ => None,
        }
    }

    /// The `n` most frequent sources with their counts, most frequent first.
    pub fn top_sources(&self, n: usize) -> (r: Vec<(String, u64)>)
        requires
            self.wf(),
        ensures
            is_top_counts(self.source_counts, n, r@),
    {
        top_counts(&self.source_counts, n)
    }

    /// The `n` most repeated messages with their counts, most repeated first.
    pub fn top_repeated(&self, n: usize) -> (r: Vec<(String, u64)>)
        requires
            self.wf(),
        ensures
            is_top_counts(self.repeated_messages, n, r@),
    {
        top_counts(&self.repeated_messages, n)
    }
}

/// `r` lists the `n` (or all, if fewer) largest counts of `table`, each key once,
/// in non-increasing order of count, keys with equal counts in insertion order,
/// and no key left out has a larger count.
pub open spec fn is_top_counts(table: KeyedTable<u64>, n: usize, r: Seq<(String, u64)>) -> bool {
    &&& r.len() == if n < table.keys().len() { n as int } else { table.keys().len() as int }
    &&& forall|i: int| 0 <= i < r.len() ==> {
            &&& table@.contains_key(#[trigger] r[i].0@)
            &&& r[i].1 == table@[r[i].0@]
        }
    &&& forall|i: int, j: int| 0 <= i < j < r.len() ==> #[trigger] r[i].0@ != #[trigger] r[j].0@
    &&& forall|i: int, j: int| 0 <= i < j < r.len() ==> #[trigger] r[i].1 >= #[trigger] r[j].1
    &&& forall|k: Seq<char>, i: int|
            #[trigger] table@.contains_key(k) && 0 <= i < r.len()
                && (forall|j: int| 0 <= j < r.len() ==> r[j].0@ != k)
                ==> table@[k] <= #[trigger] r[i].1
    &&& forall|i: int, j: int, a: int, b: int|
            0 <= i < j < r.len() && 0 <= a < table.keys().len() && 0 <= b < table.keys().len()
                && #[trigger] table.keys()[a] == #[trigger] r[i].0@ && #[trigger] table.keys()[b] == #[trigger] r[j].0@
                && r[i].1 == r[j].1 ==> a < b
}

} // verus!
