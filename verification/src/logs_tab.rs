//! State of the logs tab: the entry buffer, the cursor, expanded entries and filters.
use vstd::prelude::*;
use std::collections::HashSet;
use std::collections::VecDeque;
use crate::entry::LogEntry;
use crate::files::{mode_for, LogFileTree, LogViewMode, LogsPaneFocus};
use crate::level::{all_levels, law_rank_follows_severity, level_display, next_filter_of, rank, LogLevel};
use crate::text::{chars_of, find_seq, lowercase_of, occurs_at, to_lowercase};

verus! {

broadcast use vstd::std_specs::hash::group_hash_axioms;

/// Whether `needle` occurs somewhere in `hay`.
pub open spec fn contains_text(hay: Seq<char>, needle: Seq<char>) -> bool {
    exists|i: int| occurs_at(hay, needle, i)
}

/// Whether an entry's level passes the level filter: `Unknown` always does,
/// any other level must be at least as severe as the filter.
pub open spec fn level_passes(l: LogLevel, filter: Option<LogLevel>) -> bool {
    match filter {
        None => true,
        Some(min) => l == LogLevel::Unknown || rank(l) >= rank(min),
    }
}

/// Whether an entry is shown: it passes the level filter, and the lowercased
/// query is empty or occurs in the lowercased message.
pub open spec fn entry_shown(e: LogEntry, filter: Option<LogLevel>, query: Seq<char>) -> bool {
    &&& level_passes(e.level, filter)
    &&& (lowercase_of(query).len() == 0 || contains_text(lowercase_of(e.message@), lowercase_of(query)))
}

/// Indices, in increasing order, of the first `k` entries that are shown.
pub open spec fn shown_upto(es: Seq<LogEntry>, filter: Option<LogLevel>, query: Seq<char>, k: int) -> Seq<usize>
    decreases k,
{
    if k <= 0 {
        seq![]
    } else if entry_shown(es[k - 1], filter, query) {
        shown_upto(es, filter, query, k - 1).push((k - 1) as usize)
    } else {
        shown_upto(es, filter, query, k - 1)
    }
}

pub proof fn lemma_shown_upto_increasing(es: Seq<LogEntry>, filter: Option<LogLevel>, query: Seq<char>, k: int)
    requires
        0 <= k <= es.len(),
        es.len() <= usize::MAX,
    ensures
        forall|i: int, j: int| 0 <= i < j < shown_upto(es, filter, query, k).len()
            ==> shown_upto(es, filter, query, k)[i] < shown_upto(es, filter, query, k)[j],
        forall|i: int| 0 <= i < shown_upto(es, filter, query, k).len()
            ==> shown_upto(es, filter, query, k)[i] < k,
    decreases k,
{
    if k > 0 {
        lemma_shown_upto_increasing(es, filter, query, k - 1);
        let p = shown_upto(es, filter, query, k - 1);
        let r = shown_upto(es, filter, query, k);
        if entry_shown(es[k - 1], filter, query) {
            assert(r == p.push((k - 1) as usize));
            assert forall|i: int, j: int| 0 <= i < j < r.len() implies r[i] < r[j] by {
                if j < p.len() {
                    assert(r[i] == p[i] && r[j] == p[j]);
                } else {
                    assert(r[i] == p[i]);
                }
            }
            assert forall|i: int| 0 <= i < r.len() implies r[i] < k by {
                if i < p.len() {
                    assert(r[i] == p[i]);
                }
            }
        }
    }
}

/// As many indices are shown among the first `k` entries as those entries
/// hold shown entries.
pub proof fn lemma_shown_upto_count(es: Seq<LogEntry>, filter: Option<LogLevel>, query: Seq<char>, k: int)
    requires
        0 <= k <= es.len(),
    ensures
        shown_upto(es, filter, query, k).len() == es.take(k).filter(|e: LogEntry| entry_shown(e, filter, query)).len(),
    decreases k,
{
    let pred = |e: LogEntry| entry_shown(e, filter, query);
    reveal(Seq::filter);
    if k == 0 {
        assert(es.take(0).len() == 0);
    } else {
        lemma_shown_upto_count(es, filter, query, k - 1);
        assert(es.take(k).drop_last() =~= es.take(k - 1));
        assert(es.take(k).last() == es[k - 1]);
    }
}

/// An index is among the first `k` shown indices exactly when it is below `k`
/// and its entry is shown.
pub proof fn lemma_shown_upto_members(es: Seq<LogEntry>, filter: Option<LogLevel>, query: Seq<char>, k: int, i: int)
    requires
        0 <= k <= es.len(),
        es.len() <= usize::MAX,
        0 <= i < es.len(),
    ensures
        shown_upto(es, filter, query, k).contains(i as usize) <==> (i < k && entry_shown(es[i], filter, query)),
    decreases k,
{
    if k > 0 {
        lemma_shown_upto_members(es, filter, query, k - 1, i);
        lemma_shown_upto_increasing(es, filter, query, k - 1);
        let p = shown_upto(es, filter, query, k - 1);
        if entry_shown(es[k - 1], filter, query) {
            let r = p.push((k - 1) as usize);
            assert(shown_upto(es, filter, query, k) == r);
            if r.contains(i as usize) {
                let t = choose|t: int| 0 <= t < r.len() && r[t] == i as usize;
                if t < p.len() {
                    assert(p[t] == r[t]);
                }
            }
            if i == k - 1 {
                assert(r[p.len() as int] == i as usize);
            } else if p.contains(i as usize) {
                let t = choose|t: int| 0 <= t < p.len() && p[t] == i as usize;
                assert(r[t] == p[t]);
            }
        } else {
            if p.contains(i as usize) {
                let t = choose|t: int| 0 <= t < p.len() && p[t] == i as usize;
                assert(p[t] < k - 1);
            }
        }
    }
}

/// An entry whose level is `Unknown` passes every level filter, and with no
/// filter every level passes; with a filter at a named level, a named level
/// passes exactly when it is at least as severe (no earlier in the list from
/// Debug to Emergency).
pub proof fn law_level_filter_keeps_at_least_as_severe(l: LogLevel, f: Option<LogLevel>, a: int, b: int)
    requires
        0 <= a < all_levels().len(),
        0 <= b < all_levels().len(),
    ensures
        level_passes(LogLevel::Unknown, f),
        level_passes(l, None),
        level_passes(all_levels()[a], Some(all_levels()[b])) <==> b <= a,
{
    if a < b {
        law_rank_follows_severity(a, b);
    } else if b < a {
        law_rank_follows_severity(b, a);
    }
}

/// The entry the cursor moves to going down: the first shown entry after the
/// cursor, or the cursor itself when there is none.
#[verifier::opaque]
pub open spec fn next_shown(f: Seq<usize>, sel: usize) -> usize {
    if exists|k: int| 0 <= k < f.len() && f[k] > sel {
        f[choose|k: int| 0 <= k < f.len() && f[k] > sel && forall|j: int| 0 <= j < k ==> #[trigger] f[j] <= sel]
    } else {
        sel
    }
}

/// The entry the cursor moves to going up: the last shown entry before the
/// cursor, or the cursor itself when there is none.
#[verifier::opaque]
pub open spec fn previous_shown(f: Seq<usize>, sel: usize) -> usize {
    if exists|k: int| 0 <= k < f.len() && f[k] < sel {
        f[choose|k: int| 0 <= k < f.len() && f[k] < sel && forall|j: int| k < j < f.len() ==> #[trigger] f[j] >= sel]
    } else {
        sel
    }
}

/// The first shown entry, or the cursor when nothing is shown.
pub open spec fn first_shown(f: Seq<usize>, sel: usize) -> usize {
    if f.len() > 0 {
        f[0]
    } else {
        sel
    }
}

/// The last shown entry, or the cursor when nothing is shown.
pub open spec fn last_shown(f: Seq<usize>, sel: usize) -> usize {
    if f.len() > 0 {
        f.last()
    } else {
        sel
    }
}

/// Strictly increasing.
pub open spec fn increasing(f: Seq<usize>) -> bool {
    forall|i: int, j: int| 0 <= i < j < f.len() ==> f[i] < f[j]
}

proof fn lemma_next_shown(f: Seq<usize>, sel: usize, p: int)
    requires
        increasing(f),
        0 <= p <= f.len(),
        forall|j: int| 0 <= j < p ==> f[j] < sel,
        p < f.len() ==> f[p] >= sel,
    ensures
        next_shown(f, sel) == if p < f.len() {
            if f[p] == sel {
                if p + 1 < f.len() {
                    f[p + 1]
                } else {
                    sel
                }
            } else {
                f[p]
            }
        } else {
            sel
        },
{
    reveal(next_shown);
    let c = if p < f.len() && f[p] == sel { p + 1 } else { p };
    if c < f.len() {
        assert(f[c] > sel);
        assert(forall|j: int| 0 <= j < c ==> f[j] <= sel);
        let k = choose|k: int| 0 <= k < f.len() && f[k] > sel && forall|j: int| 0 <= j < k ==> #[trigger] f[j] <= sel;
        if k < c {
            assert(f[k] <= sel);
        } else if k > c {
            assert(f[c] <= sel);
        }
    } else {
        assert forall|k: int| 0 <= k < f.len() implies f[k] <= sel by {
            if k >= p {
                assert(k == p);
            }
        }
    }
}

proof fn lemma_previous_shown(f: Seq<usize>, sel: usize, p: int)
    requires
        increasing(f),
        -1 <= p < f.len(),
        forall|j: int| p < j < f.len() ==> f[j] > sel,
        p >= 0 ==> f[p] <= sel,
    ensures
        previous_shown(f, sel) == if p >= 0 {
            if f[p] == sel {
                if p > 0 {
                    f[p - 1]
                } else {
                    sel
                }
            } else {
                f[p]
            }
        } else {
            sel
        },
{
    reveal(previous_shown);
    let c = if p >= 0 && f[p] == sel { p - 1 } else { p };
    if c >= 0 {
        assert(f[c] < sel);
        assert(forall|j: int| c < j < f.len() ==> f[j] >= sel);
        let k = choose|k: int| 0 <= k < f.len() && f[k] < sel && forall|j: int| k < j < f.len() ==> #[trigger] f[j] >= sel;
        if k < c {
            assert(f[c] >= sel);
        } else if k > c {
            assert(f[k] >= sel);
        }
    } else {
        assert forall|k: int| 0 <= k < f.len() implies f[k] >= sel by {
            if k <= p {
                assert(k == p);
            }
        }
    }
}

/// Everything in a logs-tab state but the cursor, the expanded set and the entries.
pub open spec fn same_settings(a: &LogsTabState, b: &LogsTabState) -> bool {
    &&& a.file_tree == b.file_tree
    &&& a.active_file == b.active_file
    &&& a.view_mode == b.view_mode
    &&& a.max_entries == b.max_entries
    &&& a.scroll_offset == b.scroll_offset
    &&& a.search_query == b.search_query
    &&& a.filter_level == b.filter_level
    &&& a.input_mode == b.input_mode
    &&& a.focus == b.focus
}

/// The expanded indices after the first entry is dropped: each moves down by
/// one, and index 0 goes.
pub open spec fn shifted_down(s: Set<usize>) -> Set<usize> {
    Set::new(|j: usize| j < usize::MAX && s.contains((j + 1) as usize))
}

/// State for the logs tab.
#[derive(Debug)]
pub struct LogsTabState {
    /// File tree for log file navigation
    pub file_tree: LogFileTree,
    /// Currently active log file
    pub active_file: Option<String>,
    /// View mode for the active file
    pub view_mode: Option<LogViewMode>,
    /// Parsed log entries for the active file
    pub entries: VecDeque<LogEntry>,
    /// Maximum number of entries to keep
    pub max_entries: usize,
    /// Currently selected entry index
    pub selected_entry: usize,
    /// Set of expanded entry indices
    pub expanded_entries: HashSet<usize>,
    /// Scroll offset for the entries pane
    pub scroll_offset: usize,
    /// Search query text
    pub search_query: String,
    /// Log level filter
    pub filter_level: Option<LogLevel>,
    /// Whether search input mode is active
    pub input_mode: bool,
    /// Which pane has focus
    pub focus: LogsPaneFocus,
}

impl Default for LogsTabState {
    fn default() -> (s: Self)
        ensures
            s.file_tree.files@.len() == 0,
            s.file_tree.selected_index == 0,
            s.active_file is None,
            s.view_mode is None,
            s.entries@.len() == 0,
            s.max_entries == 1000,
            s.selected_entry == 0,
            s.expanded_entries@ == Set::<usize>::empty(),
            s.scroll_offset == 0,
            s.search_query@.len() == 0,
            s.filter_level is None,
            !s.input_mode,
            s.focus == LogsPaneFocus::Entries,
    {
        LogsTabState::new()
    }
}

/// The expanded entries with `i` expanded if it was not, collapsed if it was.
pub open spec fn toggled_expansion(s: Set<usize>, i: usize) -> Set<usize> {
    if s.contains(i) {
        s.remove(i)
    } else {
        s.insert(i)
    }
}

/// Expanding an entry and expanding it again (or the reverse) leaves the
/// expanded entries as they were.
pub proof fn law_toggle_expand_twice(s: Set<usize>, i: usize)
    ensures
        toggled_expansion(toggled_expansion(s, i), i) == s,
        toggled_expansion(s, i).contains(i) == !s.contains(i),
{
    assert(toggled_expansion(toggled_expansion(s, i), i) =~= s);
}

/// The level filter after one press of the filter key: all levels, then
/// `Debug` up to `Critical` in turn, then all again (`Alert`, `Emergency`
/// and `Unknown` lead to `Debug`).
pub open spec fn cycled_filter(f: Option<LogLevel>) -> Option<LogLevel> {
    match f {
        None => Some(LogLevel::Debug),
        Some(l) => next_filter_of(l),
    }
}

/// The filter after `n` presses.
pub open spec fn cycled_times(f: Option<LogLevel>, n: nat) -> Option<LogLevel>
    decreases n,
{
    if n == 0 {
        f
    } else {
        cycled_times(cycled_filter(f), (n - 1) as nat)
    }
}

/// Seven presses of the filter key bring every filter on the cycle back to
/// itself, the cycle visits each filter from all levels up to `Critical`
/// once, and any filter joins the cycle after one press.
pub proof fn law_filter_cycle(f: Option<LogLevel>, n: nat)
    ensures
        (f is None || f == Some(LogLevel::Debug) || f == Some(LogLevel::Info) || f == Some(LogLevel::Notice) || f
            == Some(LogLevel::Warning) || f == Some(LogLevel::Error) || f == Some(LogLevel::Critical)) ==> cycled_times(f, 7) == f,
        0 < n < 7 ==> cycled_times(None, n) is Some,
        cycled_times(cycled_filter(f), 7) == cycled_filter(f),
{
    reveal_with_fuel(cycled_times, 9);
}

impl LogsTabState {
    /// The indices of the shown entries, in order.
    pub open spec fn shown(&self) -> Seq<usize> {
        shown_upto(self.entries@, self.filter_level, self.search_query@, self.entries@.len() as int)
    }

    /// An empty tab keeping at most 1000 entries, with entries focused.
    pub fn new() -> (s: Self)
        ensures
            s.file_tree.files@.len() == 0,
            s.file_tree.selected_index == 0,
            s.active_file is None,
            s.view_mode is None,
            s.entries@.len() == 0,
            s.max_entries == 1000,
            s.selected_entry == 0,
            s.expanded_entries@ == Set::<usize>::empty(),
            s.scroll_offset == 0,
            s.search_query@.len() == 0,
            s.filter_level is None,
            !s.input_mode,
            s.focus == LogsPaneFocus::Entries,
    {
        LogsTabState {
            file_tree: LogFileTree::new(),
            active_file: None,
            view_mode: None,
            entries: VecDeque::with_capacity(1000),
            max_entries: 1000,
            selected_entry: 0,
            expanded_entries: HashSet::new(),
            scroll_offset: 0,
            search_query: String::new(),
            filter_level: None,
            input_mode: false,
            focus: LogsPaneFocus::default(),
        }
    }

    /// Appends an entry. When the buffer is full the oldest entry goes first,
    /// the expanded indices move down by one (dropping index 0) and the cursor
    /// moves up by one (stopping at 0).
    pub fn add_entry(&mut self, entry: LogEntry)
        ensures
            same_settings(final(self), old(self)),
            old(self).max_entries > 0 && old(self).entries@.len() <= old(self).max_entries ==> final(self).entries@.len()
                <= final(self).max_entries,
            old(self).entries@.len() >= old(self).max_entries ==> {
                &&& final(self).entries@ == (if old(self).entries@.len() > 0 {
                    old(self).entries@.drop_first()
                } else {
                    old(self).entries@
                }).push(entry)
                &&& final(self).expanded_entries@ == shifted_down(old(self).expanded_entries@)
                &&& final(self).selected_entry == if old(self).selected_entry > 0 {
                    old(self).selected_entry - 1
                } else {
                    0
                }
            },
            old(self).entries@.len() < old(self).max_entries ==> {
                &&& final(self).entries@ == old(self).entries@.push(entry)
                &&& final(self).expanded_entries@ == old(self).expanded_entries@
                &&& final(self).selected_entry == old(self).selected_entry
            },
    {
        if self.entries.len() >= self.max_entries {
            let ghost before = self.entries@;
            let _ = self.entries.pop_front();
            assert(before.len() > 0 ==> before.subrange(1, before.len() as int) =~= before.drop_first());
            let mut shifted: HashSet<usize> = HashSet::new();
            let ghost old_set = self.expanded_entries@;
            let ghost mut seen: Set<usize> = Set::empty();
            for idx in it: self.expanded_entries.iter()
                invariant
                    old_set == self.expanded_entries@,
                    it.seq().unref().to_set() == old_set,
                    seen == it.seq().unref().take(it.index() as int).to_set(),
                    it.index() == it.seq().len() ==> seen == old_set,
                    shifted@ == shifted_down(seen),
            {
                if *idx > 0 {
                    shifted.insert(*idx - 1);
                }
                proof {
                    seen = seen.insert(*idx);
                }
                assert(it.seq().unref().take(it.index() + 1) =~= it.seq().unref().take(
                    it.index() as int,
                ).push(*idx));
                proof {
                    it.seq().unref().take(it.index() as int).lemma_push_to_set_commute(*idx);
                }
                assert(shifted@ =~= shifted_down(seen));
                assert(it.index() + 1 == it.seq().len() ==> it.seq().unref().take(it.index() + 1)
                    =~= it.seq().unref());
            }
            assert(shifted@ =~= shifted_down(old_set));
            self.expanded_entries = shifted;
            self.selected_entry = self.selected_entry.saturating_sub(1);
        }
        self.entries.push_back(entry);
    }

    /// Expands or collapses the entry under the cursor; nothing happens when
    /// there is no such entry or it has nothing to expand.
    pub fn toggle_expand(&mut self)
        ensures
            same_settings(final(self), old(self)),
            final(self).entries@ == old(self).entries@,
            final(self).selected_entry == old(self).selected_entry,
            final(self).expanded_entries@ == if old(self).selected_entry < old(self).entries@.len()
                && old(self).entries@[old(self).selected_entry as int].has_content() {
                toggled_expansion(old(self).expanded_entries@, old(self).selected_entry)
            } else {
                old(self).expanded_entries@
            },
    {
        if self.selected_entry < self.entries.len() {
            if !self.entries[self.selected_entry].has_expandable_content() {
                return;
            }
        } else {
            return;
        }
        if self.expanded_entries.contains(&self.selected_entry) {
            self.expanded_entries.remove(&self.selected_entry);
        } else {
            self.expanded_entries.insert(self.selected_entry);
        }
    }

    /// Expands every entry that has something to expand.
    pub fn expand_all(&mut self)
        ensures
            same_settings(final(self), old(self)),
            final(self).entries@ == old(self).entries@,
            final(self).selected_entry == old(self).selected_entry,
            final(self).expanded_entries@ == old(self).expanded_entries@.union(
                Set::new(|i: usize| i < old(self).entries@.len() && old(self).entries@[i as int].has_content()),
            ),
    {
        let ghost start = self.expanded_entries@;
        let n = self.entries.len();
        let mut i: usize = 0;
        while i < n
            invariant
                n == self.entries@.len(),
                0 <= i <= n,
                same_settings(self, old(self)),
                self.entries@ == old(self).entries@,
                self.selected_entry == old(self).selected_entry,
                start == old(self).expanded_entries@,
                self.expanded_entries@ == start.union(
                    Set::new(|j: usize| j < i && self.entries@[j as int].has_content()),
                ),
            decreases n - i,
        {
            if self.entries[i].has_expandable_content() {
                self.expanded_entries.insert(i);
            }
            i += 1;
            assert(self.expanded_entries@ =~= start.union(
                Set::new(|j: usize| j < i && self.entries@[j as int].has_content()),
            ));
        }
    }

    /// Collapses every entry.
    pub fn collapse_all(&mut self)
        ensures
            same_settings(final(self), old(self)),
            final(self).entries@ == old(self).entries@,
            final(self).selected_entry == old(self).selected_entry,
            final(self).expanded_entries@ == Set::<usize>::empty(),
    {
        self.expanded_entries.clear();
    }

    /// Moves the cursor to the next shown entry.
    pub fn select_next_entry(&mut self)
        ensures
            same_settings(final(self), old(self)),
            final(self).entries@ == old(self).entries@,
            final(self).expanded_entries@ == old(self).expanded_entries@,
            final(self).selected_entry == next_shown(old(self).shown(), old(self).selected_entry),
    {
        let indices = self.filtered_entry_indices();
        let _n = self.entries.len();
        proof {
            lemma_shown_upto_increasing(self.entries@, self.filter_level, self.search_query@, self.entries@.len() as int);
        }
        let sel = self.selected_entry;
        let mut pos: usize = 0;
        while pos < indices.len() && indices[pos] < sel
            invariant
                0 <= pos <= indices.len(),
                forall|j: int| 0 <= j < pos ==> indices@[j] < sel,
            decreases indices.len() - pos,
        {
            pos += 1;
        }
        proof {
            lemma_next_shown(indices@, sel, pos as int);
        }
        if pos < indices.len() {
            if indices[pos] == sel {
                if pos + 1 < indices.len() {
                    self.selected_entry = indices[pos + 1];
                }
            } else {
                self.selected_entry = indices[pos];
            }
        }
    }

    /// Moves the cursor to the previous shown entry.
    pub fn select_previous_entry(&mut self)
        ensures
            same_settings(final(self), old(self)),
            final(self).entries@ == old(self).entries@,
            final(self).expanded_entries@ == old(self).expanded_entries@,
            final(self).selected_entry == previous_shown(old(self).shown(), old(self).selected_entry),
    {
        let indices = self.filtered_entry_indices();
        let _n = self.entries.len();
        proof {
            lemma_shown_upto_increasing(self.entries@, self.filter_level, self.search_query@, self.entries@.len() as int);
        }
        let sel = self.selected_entry;
        let mut n: usize = indices.len();
        while n > 0 && indices[n - 1] > sel
            invariant
                0 <= n <= indices.len(),
                forall|j: int| n <= j < indices.len() ==> indices@[j] > sel,
            decreases n,
        {
            n -= 1;
        }
        proof {
            lemma_previous_shown(indices@, sel, n - 1);
        }
        if n > 0 {
            let pos = n - 1;
            if indices[pos] == sel {
                if pos > 0 {
                    self.selected_entry = indices[pos - 1];
                }
            } else {
                self.selected_entry = indices[pos];
            }
        }
    }

    /// Moves the cursor to the first shown entry.
    pub fn jump_to_top(&mut self)
        ensures
            same_settings(final(self), old(self)),
            final(self).entries@ == old(self).entries@,
            final(self).expanded_entries@ == old(self).expanded_entries@,
            final(self).selected_entry == first_shown(old(self).shown(), old(self).selected_entry),
    {
        let indices = self.filtered_entry_indices();
        if indices.len() > 0 {
            self.selected_entry = indices[0];
        }
    }

    /// Moves the cursor to the last shown entry.
    pub fn jump_to_bottom(&mut self)
        ensures
            same_settings(final(self), old(self)),
            final(self).entries@ == old(self).entries@,
            final(self).expanded_entries@ == old(self).expanded_entries@,
            final(self).selected_entry == last_shown(old(self).shown(), old(self).selected_entry),
    {
        let indices = self.filtered_entry_indices();
        if indices.len() > 0 {
            self.selected_entry = indices[indices.len() - 1];
        }
    }

    /// Clears search and level filter, cursor, expansions and scrolling.
    pub fn reset_filters(&mut self)
        ensures
            final(self).search_query@.len() == 0,
            final(self).filter_level is None,
            final(self).selected_entry == 0,
            final(self).expanded_entries@ == Set::<usize>::empty(),
            final(self).scroll_offset == 0,
            final(self).entries@ == old(self).entries@,
            final(self).file_tree == old(self).file_tree,
            final(self).active_file == old(self).active_file,
            final(self).view_mode == old(self).view_mode,
            final(self).max_entries == old(self).max_entries,
            final(self).input_mode == old(self).input_mode,
            final(self).focus == old(self).focus,
    {
        self.search_query = String::new();
        self.filter_level = None;
        self.selected_entry = 0;
        self.expanded_entries.clear();
        self.scroll_offset = 0;
    }

    /// Advances the level filter: All, Debug, Info, ..., Critical, All.
    pub fn cycle_filter(&mut self)
        ensures
            final(self).filter_level == cycled_filter(old(self).filter_level),
            final(self).entries@ == old(self).entries@,
            final(self).expanded_entries@ == old(self).expanded_entries@,
            final(self).selected_entry == old(self).selected_entry,
            final(self).search_query == old(self).search_query,
            final(self).file_tree == old(self).file_tree,
            final(self).active_file == old(self).active_file,
            final(self).view_mode == old(self).view_mode,
            final(self).max_entries == old(self).max_entries,
            final(self).scroll_offset == old(self).scroll_offset,
            final(self).input_mode == old(self).input_mode,
            final(self).focus == old(self).focus,
    {
        self.filter_level = match self.filter_level {
            None => Some(LogLevel::Debug),
            Some(level) => level.next_filter(),
        };
    }

    /// Name of the current level filter.
    pub fn filter_name(&self) -> (s: &'static str)
        ensures
            s@ == match self.filter_level {
                None => "All"@,
                Some(l) => level_display(l),
            },
    {
        match self.filter_level {
            None => "All",
            Some(level) => level.name(),
        }
    }

    /// Opens a file: records it with its view mode, empties the entries and resets the filters.
    pub fn select_file(&mut self, filename: &str)
        ensures
            final(self).active_file matches Some(f) && f@ == filename@,
            final(self).view_mode == Some(mode_for(filename@)),
            final(self).entries@.len() == 0,
            final(self).search_query@.len() == 0,
            final(self).filter_level is None,
            final(self).selected_entry == 0,
            final(self).expanded_entries@ == Set::<usize>::empty(),
            final(self).scroll_offset == 0,
            final(self).file_tree == old(self).file_tree,
            final(self).max_entries == old(self).max_entries,
            final(self).input_mode == old(self).input_mode,
            final(self).focus == old(self).focus,
    {
        self.active_file = Some(String::from_str(filename));
        self.view_mode = Some(LogViewMode::for_file(filename));
        self.entries.clear();
        self.reset_filters();
    }

    /// Indices of the entries that pass the level filter and the search query,
    /// in order. The search is case-insensitive and looks at messages only.
    pub fn filtered_entry_indices(&self) -> (v: Vec<usize>)
        ensures
            v@ == self.shown(),
    {
        let query_lower = to_lowercase(self.search_query.as_str());
        let q = chars_of(query_lower.as_str());
        let n = self.entries.len();
        let mut out: Vec<usize> = Vec::new();
        let mut i: usize = 0;
        while i < n
            invariant
                n == self.entries@.len(),
                q@ == lowercase_of(self.search_query@),
                0 <= i <= n,
                out@ == shown_upto(self.entries@, self.filter_level, self.search_query@, i as int),
            decreases n - i,
        {
            let entry = &self.entries[i];
            let mut keep = true;
            if let Some(min_level) = self.filter_level {
                if entry.level != LogLevel::Unknown && entry.level.rank() < min_level.rank() {
                    keep = false;
                }
            }
            if keep && q.len() > 0 {
                let message_lower = to_lowercase(entry.message.as_str());
                let m = chars_of(message_lower.as_str());
                if find_seq(&m, &q).is_none() {
                    keep = false;
                }
            }
            if keep {
                out.push(i);
            }
            i += 1;
        }
        out
    }
}


/// The indices that the filter lists are exactly those of the entries that are
/// shown: an entry is listed when its level passes the filter and the
/// lowercased search text is empty or occurs in its lowercased message.
pub proof fn law_listed_exactly_when_shown(tab: &LogsTabState, i: int)
    requires
        0 <= i < tab.entries@.len(),
        tab.entries@.len() <= usize::MAX,
    ensures
        tab.shown().contains(i as usize) <==> entry_shown(tab.entries@[i], tab.filter_level, tab.search_query@),
{
    lemma_shown_upto_members(tab.entries@, tab.filter_level, tab.search_query@, tab.entries@.len() as int, i);
}

/// With the filter at a named level, an entry of a named level is listed
/// exactly when its level is at least as severe as the filter's (no earlier
/// in the list from Debug to Emergency) and it matches the search: the
/// lowercased search text is empty or occurs in its lowercased message.
pub proof fn law_filter_lists_entries_at_least_as_severe(tab: &LogsTabState, i: int, a: int, b: int)
    requires
        0 <= i < tab.entries@.len(),
        tab.entries@.len() <= usize::MAX,
        0 <= a < all_levels().len(),
        0 <= b < all_levels().len(),
        tab.entries@[i].level == all_levels()[a],
        tab.filter_level == Some(all_levels()[b]),
    ensures
        tab.shown().contains(i as usize) <==> (b <= a && (lowercase_of(tab.search_query@).len() == 0
            || contains_text(lowercase_of(tab.entries@[i].message@), lowercase_of(tab.search_query@)))),
{
    law_listed_exactly_when_shown(tab, i);
    law_level_filter_keeps_at_least_as_severe(tab.entries@[i].level, tab.filter_level, a, b);
}

} // verus!
