//! The log-file sidebar: which files are live, where a file's date is, and in
//! what order the files are listed.
use vstd::prelude::*;
use crate::entry::texts;
use crate::text::{chars_of, lex_less, lemma_lex_irreflexive, lemma_lex_transitive, lemma_lex_total, occurs_at_exec, str_eq, str_less};

verus! {

broadcast use vstd::seq_lib::group_to_multiset_ensures;

/// Which pane of the logs tab has the keyboard focus.
#[derive(Debug, Clone, Copy, PartialEq, Eq, Structural)]
pub enum LogsPaneFocus {
    FileTree,
    Entries,
}

impl Default for LogsPaneFocus {
    /// The focus a new logs tab starts with.
    fn default() -> (f: LogsPaneFocus)
        ensures
            f == LogsPaneFocus::Entries,
    {
        LogsPaneFocus::Entries
    }
}

impl LogsPaneFocus {
}

/// How a log file is watched.
#[derive(Debug, Clone, Copy, PartialEq, Eq, Structural)]
pub enum LogViewMode {
    /// Tail-followed with new entries streaming in (only `laravel.log`).
    Live,
    /// Read on demand (every other file).
    Static,
}

/// The name of the one file that is tail-followed.
pub open spec fn is_laravel_log(f: Seq<char>) -> bool {
    f == "laravel.log"@
}

/// The view mode a file opens in.
pub open spec fn mode_for(f: Seq<char>) -> LogViewMode {
    if is_laravel_log(f) {
        LogViewMode::Live
    } else {
        LogViewMode::Static
    }
}

/// The status-bar label of a view mode.
pub open spec fn mode_label(m: LogViewMode) -> Seq<char> {
    match m {
        LogViewMode::Live => "⏺ LIVE"@,
        LogViewMode::Static => "⏸ STATIC"@,
    }
}

impl LogViewMode {
    /// `laravel.log` opens live, every other file static.
    pub fn for_file(filename: &str) -> (m: LogViewMode)
        ensures
            m == mode_for(filename@),
    {
        if str_eq(filename, "laravel.log") {
            LogViewMode::Live
        } else {
            LogViewMode::Static
        }
    }

    /// Label shown for the mode.
    pub fn indicator(&self) -> (s: &'static str)
        ensures
            s@ == mode_label(*self),
    {
        match self {
            LogViewMode::Live => "⏺ LIVE",
            LogViewMode::Static => "⏸ STATIC",
        }
    }
}

/// An ASCII decimal digit.
pub open spec fn is_digit(c: char) -> bool {
    '0' <= c && c <= '9'
}

/// Whether a `YYYY-MM-DD` pattern starts at position `i`.
pub open spec fn date_at(s: Seq<char>, i: int) -> bool {
    &&& 0 <= i && i + 10 <= s.len()
    &&& is_digit(s[i]) && is_digit(s[i + 1]) && is_digit(s[i + 2]) && is_digit(s[i + 3])
    &&& s[i + 4] == '-'
    &&& is_digit(s[i + 5]) && is_digit(s[i + 6])
    &&& s[i + 7] == '-'
    &&& is_digit(s[i + 8]) && is_digit(s[i + 9])
}

/// The first position where a date pattern starts.
#[verifier::opaque]
pub open spec fn first_date_at(s: Seq<char>) -> Option<int> {
    if exists|i: int| date_at(s, i) {
        Some(choose|i: int| date_at(s, i) && forall|j: int| 0 <= j < i ==> !#[trigger] date_at(s, j))
    } else {
        None
    }
}

/// A file name without its `.log` extension.
pub open spec fn log_stem(f: Seq<char>) -> Seq<char> {
    if f.len() >= 4 && f.subrange(f.len() - 4, f.len() as int) == ".log"@ {
        f.take(f.len() - 4)
    } else {
        f
    }
}

/// The first `YYYY-MM-DD` date in a file name (extension excluded).
pub open spec fn filename_date(f: Seq<char>) -> Option<Seq<char>> {
    match first_date_at(log_stem(f)) {
        Some(i) => Some(log_stem(f).subrange(i, i + 10)),
        None => None,
    }
}

/// The characters of an optional string slice.
pub open spec fn opt_str(o: Option<&str>) -> Option<Seq<char>> {
    match o {
        Some(s) => Some(s@),
        None => None,
    }
}

fn date_at_exec(cs: &Vec<char>, i: usize) -> (b: bool)
    requires
        i + 10 <= cs.len(),
    ensures
        b == date_at(cs@, i as int),
{
    let d = |c: char| -> (r: bool)
        ensures
            r == is_digit(c),
        { '0' <= c && c <= '9' };
    d(cs[i]) && d(cs[i + 1]) && d(cs[i + 2]) && d(cs[i + 3]) && cs[i + 4] == '-' && d(cs[i + 5])
        && d(cs[i + 6]) && cs[i + 7] == '-' && d(cs[i + 8]) && d(cs[i + 9])
}

/// Finds the `YYYY-MM-DD` date in a file name such as `auth-2026-05-22.log`.
pub fn extract_date_from_filename(filename: &str) -> (r: Option<&str>)
    ensures
        opt_str(r) == filename_date(filename@),
{
    let cs = chars_of(filename);
    let n = cs.len();
    let suffix = chars_of(".log");
    proof {
        reveal_strlit(".log");
    }
    let stem_len = if n >= 4 && occurs_at_exec(&cs, &suffix, n - 4) {
        n - 4
    } else {
        n
    };
    let ghost stem = log_stem(filename@);
    assert(stem =~= cs@.take(stem_len as int));
    if stem_len < 10 {
        proof {
            reveal(first_date_at);
        }
        return None;
    }
    let mut i: usize = 0;
    while i <= stem_len - 10
        invariant
            stem_len >= 10,
            stem_len <= n == cs@.len(),
            stem =~= cs@.take(stem_len as int),
            stem == log_stem(filename@),
            cs@ == filename@,
            0 <= i <= stem_len - 9,
            forall|j: int| 0 <= j < i ==> !#[trigger] date_at(stem, j),
        decreases stem_len - 9 - i,
    {
        if date_at_exec(&cs, i) {
            proof {
                reveal(first_date_at);
                assert(date_at(stem, i as int));
                let k = choose|k: int| date_at(stem, k) && forall|j: int| 0 <= j < k ==> !#[trigger] date_at(stem, j);
                if k < i {
                    assert(!date_at(stem, k));
                } else if k > i {
                    assert(!date_at(stem, i as int));
                }
                assert(k == i);
                assert(first_date_at(stem) == Some(i as int));
                assert(stem.subrange(i as int, i + 10) =~= filename@.subrange(i as int, i + 10));
            }
            let d = filename.substring_char(i, i + 10);
            assert(d@ == filename@.subrange(i as int, i + 10));
            assert(stem == log_stem(filename@));
            assert(filename_date(filename@) == Some(stem.subrange(i as int, i + 10)));
            assert(opt_str(Some(d)) == filename_date(filename@));
            return Some(d);
        }
        proof {
            assert(!date_at(stem, i as int));
        }
        i += 1;
    }
    proof {
        reveal(first_date_at);
        assert(!exists|j: int| date_at(stem, j));
    }
    None
}

/// Sidebar order: `laravel.log` first; then dated files, newest date first and
/// by name within a date; then undated files by name.
pub open spec fn file_before(a: Seq<char>, b: Seq<char>) -> bool {
    if is_laravel_log(a) {
        !is_laravel_log(b)
    } else if is_laravel_log(b) {
        false
    } else {
        match (filename_date(a), filename_date(b)) {
            (Some(da), Some(db)) => lex_less(db, da) || (da == db && lex_less(a, b)),
            (Some(_), None) => true,
            (None, Some(_)) => false,
            (None, None) => lex_less(a, b),
        }
    }
}

pub proof fn lemma_file_before_irreflexive(a: Seq<char>)
    ensures
        !file_before(a, a),
{
    lemma_lex_irreflexive(a);
    if let Some(d) = filename_date(a) {
        lemma_lex_irreflexive(d);
    }
}

pub proof fn lemma_file_before_transitive(a: Seq<char>, b: Seq<char>, c: Seq<char>)
    requires
        file_before(a, b),
        file_before(b, c),
    ensures
        file_before(a, c),
{
    if !is_laravel_log(a) && !is_laravel_log(b) && !is_laravel_log(c) {
        match (filename_date(a), filename_date(b), filename_date(c)) {
            (Some(da), Some(db), Some(dc)) => {
                if lex_less(db, da) && lex_less(dc, db) {
                    lemma_lex_transitive(dc, db, da);
                } else if da == db && db == dc {
                    lemma_lex_transitive(a, b, c);
                }
            },
            (None, None, None) => {
                lemma_lex_transitive(a, b, c);
            },
            _ => {},
        }
    }
}

pub proof fn lemma_file_before_total(a: Seq<char>, b: Seq<char>)
    ensures
        a == b || file_before(a, b) || file_before(b, a),
{
    lemma_lex_total(a, b);
    if let (Some(da), Some(db)) = (filename_date(a), filename_date(b)) {
        lemma_lex_total(da, db);
    }
}

/// Whether file `a` is listed before file `b`.
pub fn file_before_exec(a: &str, b: &str) -> (r: bool)
    ensures
        r == file_before(a@, b@),
{
    let a_laravel = str_eq(a, "laravel.log");
    let b_laravel = str_eq(b, "laravel.log");
    if a_laravel {
        return !b_laravel;
    }
    if b_laravel {
        return false;
    }
    match (extract_date_from_filename(a), extract_date_from_filename(b)) {
        (Some(da), Some(db)) => str_less(db, da) || (str_eq(da, db) && str_less(a, b)),
        (Some(_), None) => true,
        (None, Some(_)) => false,
        (None, None) => str_less(a, b),
    }
}

/// Whether a list of names is in sidebar order.
pub open spec fn files_sorted(s: Seq<Seq<char>>) -> bool {
    forall|i: int, j: int| 0 <= i < j < s.len() ==> !file_before(#[trigger] s[j], #[trigger] s[i])
}

/// Puts file names in sidebar order.
pub fn sort_files(files: Vec<String>) -> (out: Vec<String>)
    ensures
        texts(out@).to_multiset() == texts(files@).to_multiset(),
        files_sorted(texts(out@)),
{
    let ghost input = texts(files@);
    let mut out: Vec<String> = Vec::new();
    let mut k: usize = 0;
    while k < files.len()
        invariant
            input == texts(files@),
            0 <= k <= files.len(),
            texts(out@).to_multiset() == input.take(k as int).to_multiset(),
            files_sorted(texts(out@)),
        decreases files.len() - k,
    {
        let x = files[k].clone();
        let ghost ov = texts(out@);
        let mut p: usize = 0;
        while p < out.len() && !file_before_exec(x.as_str(), out[p].as_str())
            invariant
                ov == texts(out@),
                0 <= p <= out.len(),
                forall|q: int| 0 <= q < p ==> !file_before(x@, #[trigger] ov[q]),
            decreases out.len() - p,
        {
            p += 1;
        }
        out.insert(p, x);
        proof {
            let nv = texts(out@);
            assert(nv =~= ov.insert(p as int, x@));
            assert forall|i: int, j: int| 0 <= i < j < nv.len() implies !file_before(
                #[trigger] nv[j],
                #[trigger] nv[i],
            ) by {
                if i < p && j < p {
                    assert(nv[i] == ov[i] && nv[j] == ov[j]);
                } else if i < p && j == p {
                    assert(nv[i] == ov[i]);
                } else if i < p {
                    assert(nv[i] == ov[i] && nv[j] == ov[j - 1]);
                } else if i == p {
                    assert(nv[j] == ov[j - 1]);
                    assert(file_before(x@, ov[p as int]));
                    if file_before(ov[j - 1], x@) {
                        lemma_file_before_transitive(ov[j - 1], x@, ov[p as int]);
                        if j - 1 == p {
                            lemma_file_before_irreflexive(ov[p as int]);
                        }
                    }
                } else {
                    assert(nv[i] == ov[i - 1] && nv[j] == ov[j - 1]);
                }
            }
            assert(nv.remove(p as int) =~= ov);
            assert(nv.to_multiset().remove(x@) =~= ov.to_multiset());
            assert(nv.to_multiset() =~= ov.to_multiset().insert(x@));
            assert(input.take(k + 1) =~= input.take(k as int).push(input[k as int]));
            assert(input[k as int] == x@);
        }
        k += 1;
    }
    assert(input.take(files.len() as int) =~= input);
    out
}

/// The sidebar's flat list of log files and its cursor.
#[derive(Debug)]
pub struct LogFileTree {
    pub files: Vec<String>,
    pub selected_index: usize,
}

impl Default for LogFileTree {
    fn default() -> (t: Self)
        ensures
            t.files@.len() == 0,
            t.selected_index == 0,
    {
        LogFileTree::new()
    }
}

impl LogFileTree {
    /// An empty list with the cursor at the top.
    pub fn new() -> (t: Self)
        ensures
            t.files@.len() == 0,
            t.selected_index == 0,
    {
        LogFileTree { files: Vec::new(), selected_index: 0 }
    }

    /// Replaces the list with `files` in sidebar order; a cursor past the end returns to the top.
    pub fn update_files(&mut self, files: Vec<String>)
        ensures
            texts(final(self).files@).to_multiset() == texts(files@).to_multiset(),
            files_sorted(texts(final(self).files@)),
            final(self).selected_index == if old(self).selected_index >= files@.len() {
                0
            } else {
                old(self).selected_index
            },
    {
        let n = files.len();
        self.files = sort_files(files);
        assert(texts(self.files@).len() == texts(self.files@).to_multiset().len());
        if self.selected_index >= self.files.len() {
            self.selected_index = 0;
        }
    }

    /// The file under the cursor.
    pub fn selected_file(&self) -> (r: Option<&str>)
        ensures
            match r {
                Some(s) => self.selected_index < self.files@.len() && s@
                    == self.files@[self.selected_index as int]@,
                None => self.selected_index >= self.files@.len(),
            },
    {
        if self.selected_index < self.files.len() {
            Some(self.files[self.selected_index].as_str())
        } else {
            None
        }
    }

    /// Moves the cursor down, stopping at the last file.
    pub fn select_next(&mut self)
        ensures
            final(self).files == old(self).files,
            final(self).selected_index == if old(self).files@.len() > 0
                && old(self).selected_index < old(self).files@.len() - 1 {
                old(self).selected_index + 1
            } else {
                old(self).selected_index as int
            },
    {
        if !self.files.is_empty() && self.selected_index < self.files.len() - 1 {
            self.selected_index += 1;
        }
    }

    /// Moves the cursor up, stopping at the first file.
    pub fn select_previous(&mut self)
        ensures
            final(self).files == old(self).files,
            final(self).selected_index == if old(self).selected_index > 0 {
                old(self).selected_index - 1
            } else {
                0
            },
    {
        if self.selected_index > 0 {
            self.selected_index -= 1;
        }
    }
}


/// The sidebar order with ties allowed: same name, or listed before.
pub open spec fn file_order() -> spec_fn(Seq<char>, Seq<char>) -> bool {
    |a: Seq<char>, b: Seq<char>| a == b || file_before(a, b)
}

/// The sidebar order decides every pair of names, so any two orderings of
/// the same files that both follow it are the same list: the sidebar's order
/// does not depend on the order the files were found in.
pub proof fn law_sidebar_order_unique(x: Seq<Seq<char>>, y: Seq<Seq<char>>)
    requires
        files_sorted(x),
        files_sorted(y),
        x.to_multiset() == y.to_multiset(),
    ensures
        x == y,
{
    let r = file_order();
    assert forall|a: Seq<char>, b: Seq<char>| #[trigger] r(a, b) && #[trigger] r(b, a) implies a == b by {
        if a != b {
            lemma_file_before_transitive(a, b, a);
            lemma_file_before_irreflexive(a);
        }
    }
    assert forall|a: Seq<char>, b: Seq<char>, c: Seq<char>| #[trigger] r(a, b) && #[trigger] r(b, c) implies r(a, c) by {
        if a != b && b != c {
            lemma_file_before_transitive(a, b, c);
        }
    }
    assert forall|a: Seq<char>, b: Seq<char>| #[trigger] r(a, b) || #[trigger] r(b, a) by {
        lemma_file_before_total(a, b);
    }
    assert(vstd::relations::sorted_by(x, r)) by {
        assert forall|i: int, j: int| 0 <= i < j < x.len() implies #[trigger] r(x[i], x[j]) by {
            lemma_file_before_total(x[i], x[j]);
        }
    }
    assert(vstd::relations::sorted_by(y, r)) by {
        assert forall|i: int, j: int| 0 <= i < j < y.len() implies #[trigger] r(y[i], y[j]) by {
            lemma_file_before_total(y[i], y[j]);
        }
    }
    vstd::seq_lib::lemma_sorted_unique(x, y, r);
}

} // verus!
