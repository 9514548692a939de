//! The stateful line grouper: lines accumulate until the next timestamp line.
use vstd::prelude::*;
use crate::entry::{entry_of, header_cuttable, join_lines, is_timestamp_line, parse_entry, starts_entry, texts, LogEntry, EntryView};
use crate::text::{chars_of, string_from_range};

verus! {

/// Position of the first `\n` at or after `i`, or the end of `t`.
pub open spec fn newline_from(t: Seq<char>, i: int) -> int
    decreases t.len() - i,
{
    if i < 0 || i >= t.len() {
        t.len() as int
    } else if t[i] == '\n' {
        i
    } else {
        newline_from(t, i + 1)
    }
}

pub proof fn lemma_newline_from_bounds(t: Seq<char>, i: int)
    requires
        0 <= i <= t.len(),
    ensures
        i <= newline_from(t, i) <= t.len(),
        newline_from(t, i) < t.len() ==> t[newline_from(t, i)] == '\n',
        forall|k: int| i <= k < newline_from(t, i) ==> t[k] != '\n',
    decreases t.len() - i,
{
    if i < t.len() && t[i] != '\n' {
        lemma_newline_from_bounds(t, i + 1);
    }
}

/// A line without the `\r` of a `\r\n` ending.
pub open spec fn strip_cr(s: Seq<char>) -> Seq<char> {
    if s.len() > 0 && s.last() == '\r' {
        s.drop_last()
    } else {
        s
    }
}

/// The lines of `t` from position `i`, as `str::lines` yields them: split at
/// `\n`, a `\r` before the `\n` dropped, and no empty line after a final `\n`.
pub open spec fn lines_from(t: Seq<char>, i: int) -> Seq<Seq<char>>
    decreases t.len() - i,
{
    if i < 0 || i >= t.len() {
        seq![]
    } else {
        let e = newline_from(t, i);
        proof {
            lemma_newline_from_bounds(t, i);
        }
        if e < t.len() {
            seq![strip_cr(t.subrange(i, e))] + lines_from(t, e + 1)
        } else {
            seq![t.subrange(i, t.len() as int)]
        }
    }
}

/// The lines of a text.
pub open spec fn text_lines(t: Seq<char>) -> Seq<Seq<char>> {
    lines_from(t, 0)
}

/// Splits a text into lines (`str::lines`).
pub fn split_lines(text: &str) -> (v: Vec<String>)
    ensures
        texts(v@) == text_lines(text@),
{
    let cs = chars_of(text);
    let len = cs.len();
    let mut v: Vec<String> = Vec::new();
    let mut i: usize = 0;
    while i < len
        invariant
            len == cs@.len(),
            cs@ == text@,
            0 <= i <= len,
            text_lines(text@) == texts(v@) + lines_from(cs@, i as int),
        decreases len - i,
    {
        let mut j = i;
        while j < len && cs[j] != '\n'
            invariant
                len == cs@.len(),
                i <= j <= len,
                newline_from(cs@, i as int) == newline_from(cs@, j as int),
            decreases len - j,
        {
            j += 1;
        }
        proof {
            lemma_newline_from_bounds(cs@, i as int);
        }
        let ghost before = v@;
        if j < len {
            let mut e = j;
            if e > i && cs[e - 1] == '\r' {
                e -= 1;
            }
            let line = string_from_range(&cs, i, e);
            assert(line@ =~= strip_cr(cs@.subrange(i as int, j as int)));
            v.push(line);
            assert(texts(v@) =~= texts(before).push(line@));
            assert(lines_from(cs@, i as int) =~= seq![line@] + lines_from(cs@, j + 1));
            i = j + 1;
        } else {
            let line = string_from_range(&cs, i, len);
            v.push(line);
            assert(texts(v@) =~= texts(before).push(line@));
            assert(lines_from(cs@, len as int) =~= Seq::<Seq<char>>::empty());
            i = len;
        }
    }
    assert(lines_from(cs@, len as int) =~= Seq::<Seq<char>>::empty());
    v
}

/// The parser's content: the open group of lines and the finished groups.
pub struct ParserView {
    pub buffer: Seq<Seq<char>>,
    pub complete: Seq<Seq<Seq<char>>>,
}

/// One fed line: a timestamp line closes the open group (if any) and opens a
/// new one; any other line joins the open group.
pub open spec fn feed_line(s: ParserView, line: Seq<char>) -> ParserView {
    if starts_entry(line) && s.buffer.len() > 0 {
        ParserView { buffer: seq![line], complete: s.complete.push(s.buffer) }
    } else {
        ParserView { buffer: s.buffer.push(line), complete: s.complete }
    }
}

/// Feeding lines one after another.
pub open spec fn feed_all(s: ParserView, lines: Seq<Seq<char>>) -> ParserView
    decreases lines.len(),
{
    if lines.len() == 0 {
        s
    } else {
        feed_line(feed_all(s, lines.drop_last()), lines.last())
    }
}

/// Every group can be parsed: its first line, where it starts with a
/// timestamp, can be cut after the 22-byte prefix.
pub open spec fn groups_parsable(groups: Seq<Seq<Seq<char>>>) -> bool {
    forall|k: int| 0 <= k < groups.len() ==> header_cuttable(#[trigger] groups[k][0])
}

/// The open group can be parsed (or is empty).
pub open spec fn open_parsable(buffer: Seq<Seq<char>>) -> bool {
    buffer.len() > 0 ==> header_cuttable(buffer[0])
}

/// The entries that a sequence of line groups parses to.
pub open spec fn entries_of(groups: Seq<Seq<Seq<char>>>) -> Seq<EntryView> {
    groups.map_values(|g: Seq<Seq<char>>| entry_of(g))
}

/// The content of each entry.
pub open spec fn entry_views(v: Seq<LogEntry>) -> Seq<EntryView> {
    v.map_values(|e: LogEntry| e@)
}

/// What a flush returns from a parser holding `s`: the finished groups, then
/// the open group if it holds any line.
pub open spec fn flushed(s: ParserView) -> Seq<EntryView> {
    if s.buffer.len() > 0 {
        entries_of(s.complete).push(entry_of(s.buffer))
    } else {
        entries_of(s.complete)
    }
}

/// Feeding two runs of lines one after the other leaves the parser in the
/// state that feeding both runs at once does.
pub proof fn law_feed_in_pieces(s: ParserView, a: Seq<Seq<char>>, b: Seq<Seq<char>>)
    ensures
        feed_all(feed_all(s, a), b) == feed_all(s, a + b),
    decreases b.len(),
{
    if b.len() == 0 {
        assert(a + b =~= a);
    } else {
        law_feed_in_pieces(s, a, b.drop_last());
        assert((a + b).drop_last() =~= a + b.drop_last());
        assert((a + b).last() == b.last());
    }
}

proof fn lemma_newline_shift(a: Seq<char>, b: Seq<char>, j: int)
    requires
        0 <= j <= b.len(),
    ensures
        newline_from(a + b, a.len() + j) == a.len() + newline_from(b, j),
    decreases b.len() - j,
{
    if j < b.len() {
        assert((a + b)[a.len() + j] == b[j]);
        if b[j] != '\n' {
            lemma_newline_shift(a, b, j + 1);
        }
    }
}

proof fn lemma_lines_shift(a: Seq<char>, b: Seq<char>, j: int)
    requires
        0 <= j <= b.len(),
    ensures
        lines_from(a + b, a.len() + j) == lines_from(b, j),
    decreases b.len() - j,
{
    if j < b.len() {
        lemma_newline_shift(a, b, j);
        lemma_newline_from_bounds(b, j);
        let e = newline_from(b, j);
        assert((a + b).subrange(a.len() + j, a.len() + e) =~= b.subrange(j, e));
        if e < b.len() {
            lemma_lines_shift(a, b, e + 1);
        } else {
            assert((a + b).subrange(a.len() + j, (a + b).len() as int) =~= b.subrange(
                j,
                b.len() as int,
            ));
        }
    }
}

proof fn lemma_newline_prefix(a: Seq<char>, b: Seq<char>, i: int)
    requires
        0 <= i,
        newline_from(a, i) < a.len(),
    ensures
        newline_from(a + b, i) == newline_from(a, i),
    decreases a.len() - i,
{
    assert((a + b)[i] == a[i]);
    if a[i] != '\n' {
        lemma_newline_prefix(a, b, i + 1);
    }
}

proof fn lemma_lines_prefix(a: Seq<char>, b: Seq<char>, i: int)
    requires
        a.len() == 0 || a.last() == '\n',
        0 <= i <= a.len(),
    ensures
        lines_from(a + b, i) == lines_from(a, i) + lines_from(b, 0),
    decreases a.len() - i,
{
    if i == a.len() {
        lemma_lines_shift(a, b, 0);
        assert(lines_from(a, i) + lines_from(b, 0) =~= lines_from(b, 0));
    } else {
        lemma_newline_from_bounds(a, i);
        let e = newline_from(a, i);
        if e == a.len() {
            assert(a[a.len() - 1] != '\n');
        }
        lemma_newline_prefix(a, b, i);
        assert((a + b).subrange(i, e) =~= a.subrange(i, e));
        lemma_lines_prefix(a, b, e + 1);
        assert(lines_from(a + b, i) =~= seq![strip_cr(a.subrange(i, e))] + lines_from(a + b, e + 1));
        assert(lines_from(a, i) =~= seq![strip_cr(a.subrange(i, e))] + lines_from(a, e + 1));
        assert(lines_from(a + b, i) =~= lines_from(a, i) + lines_from(b, 0));
    }
}

/// When a text ends with a line break (or is empty), the lines of it followed
/// by another text are its lines followed by the other text's lines.
pub proof fn law_lines_of_joined_texts(a: Seq<char>, b: Seq<char>)
    requires
        a.len() == 0 || a.last() == '\n',
    ensures
        text_lines(a + b) == text_lines(a) + text_lines(b),
{
    lemma_lines_prefix(a, b, 0);
}

/// Feeding a text that ends with a line break and then a second text leaves
/// the parser as feeding the two texts joined.
pub proof fn law_incremental_feed(s: ParserView, a: Seq<char>, b: Seq<char>)
    requires
        a.len() == 0 || a.last() == '\n',
    ensures
        feed_all(feed_all(s, text_lines(a)), text_lines(b)) == feed_all(s, text_lines(a + b)),
{
    law_lines_of_joined_texts(a, b);
    law_feed_in_pieces(s, text_lines(a), text_lines(b));
}

/// A parser with no lines.
pub open spec fn empty_parser() -> ParserView {
    ParserView { buffer: seq![], complete: seq![] }
}

/// Each group is a timestamp line followed by the lines up to the next
/// timestamp line; only the very first group may start without a timestamp,
/// and the open group exists and starts with one once a group is finished.
pub open spec fn well_grouped(s: ParserView) -> bool {
    &&& forall|k: int| 0 <= k < s.complete.len() ==> #[trigger] s.complete[k].len() > 0
    &&& forall|k: int| 0 < k < s.complete.len() ==> starts_entry(#[trigger] s.complete[k][0])
    &&& forall|k: int, j: int|
        0 <= k < s.complete.len() && 1 <= j < s.complete[k].len() ==> !starts_entry(
            #[trigger] s.complete[k][j],
        )
    &&& forall|j: int| 1 <= j < s.buffer.len() ==> !starts_entry(#[trigger] s.buffer[j])
    &&& s.complete.len() > 0 ==> s.buffer.len() > 0 && starts_entry(s.buffer[0])
}

/// Grouping neither drops, repeats nor reorders a line: from an empty parser,
/// the finished groups followed by the open group are exactly the fed lines,
/// and the groups are split at timestamp lines and nowhere else.
pub proof fn law_grouping_partitions_lines(lines: Seq<Seq<char>>)
    ensures
        feed_all(empty_parser(), lines).complete.flatten() + feed_all(empty_parser(), lines).buffer
            == lines,
        well_grouped(feed_all(empty_parser(), lines)),
    decreases lines.len(),
{
    broadcast use Seq::lemma_flatten_push;

    if lines.len() == 0 {
        let s = empty_parser();
        assert(s.complete.flatten() + s.buffer =~= lines);
    } else {
        law_grouping_partitions_lines(lines.drop_last());
        let s = feed_all(empty_parser(), lines.drop_last());
        let l = lines.last();
        let t = feed_line(s, l);
        assert(t == feed_all(empty_parser(), lines));
        if starts_entry(l) && s.buffer.len() > 0 {
            assert(t.complete.flatten() =~= s.complete.flatten() + s.buffer);
            assert(t.complete.flatten() + t.buffer =~= lines.drop_last().push(l));
            assert forall|k: int| 0 < k < t.complete.len() implies starts_entry(#[trigger] t.complete[k][0]) by {
                if k == s.complete.len() {
                    assert(t.complete[k] == s.buffer);
                }
            }
            assert forall|k: int, j: int|
                0 <= k < t.complete.len() && 1 <= j < t.complete[k].len() implies !starts_entry(
                    #[trigger] t.complete[k][j],
                ) by {
                if k == s.complete.len() {
                    assert(t.complete[k] == s.buffer);
                }
            }
        } else {
            assert(t.complete.flatten() + t.buffer =~= lines.drop_last().push(l));
            assert forall|j: int| 1 <= j < t.buffer.len() implies !starts_entry(#[trigger] t.buffer[j]) by {
                if j == s.buffer.len() {
                    assert(t.buffer[j] == l);
                } else {
                    assert(t.buffer[j] == s.buffer[j]);
                }
            }
        }
        assert(lines.drop_last().push(l) =~= lines);
    }
}

/// Draining the finished entries and then flushing hands out, in order, the
/// same entries as one flush.
pub proof fn law_drain_then_flush(s: ParserView)
    ensures
        entries_of(s.complete) + flushed(ParserView { buffer: s.buffer, complete: seq![] })
            == flushed(s),
{
    let rest = ParserView { buffer: s.buffer, complete: seq![] };
    assert(entries_of(rest.complete) =~= Seq::<EntryView>::empty());
    if s.buffer.len() > 0 {
        assert(entries_of(s.complete) + flushed(rest) =~= entries_of(s.complete).push(entry_of(s.buffer)));
    } else {
        assert(entries_of(s.complete) + flushed(rest) =~= entries_of(s.complete));
    }
}


/// Where entries start among fed lines: the first line, then every later
/// line that starts with a timestamp.
pub open spec fn entry_starts(lines: Seq<Seq<char>>) -> Seq<int>
    decreases lines.len(),
{
    if lines.len() == 0 {
        seq![]
    } else if lines.len() == 1 {
        seq![0]
    } else if starts_entry(lines.last()) {
        entry_starts(lines.drop_last()).push(lines.len() - 1)
    } else {
        entry_starts(lines.drop_last())
    }
}

/// The `k`-th boundary between entries: the `k`-th start, or the end of the
/// lines past the last start.
pub open spec fn entry_bound(lines: Seq<Seq<char>>, k: int) -> int {
    if k < entry_starts(lines).len() {
        entry_starts(lines)[k]
    } else {
        lines.len() as int
    }
}

/// The lines of the `k`-th entry: from its start line up to the next start.
pub open spec fn entry_lines(lines: Seq<Seq<char>>, k: int) -> Seq<Seq<char>> {
    lines.subrange(entry_bound(lines, k), entry_bound(lines, k + 1))
}

proof fn lemma_entry_starts_shape(lines: Seq<Seq<char>>)
    requires
        lines.len() > 0,
    ensures
        entry_starts(lines).len() > 0,
        entry_starts(lines)[0] == 0,
        forall|i: int, j: int| 0 <= i < j < entry_starts(lines).len() ==> entry_starts(lines)[i] < entry_starts(lines)[j],
        forall|i: int| 0 <= i < entry_starts(lines).len() ==> 0 <= #[trigger] entry_starts(lines)[i] < lines.len(),
        forall|i: int| 0 < i < lines.len() ==> (starts_entry(lines[i]) <==> exists|k: int| 0 < k < entry_starts(lines).len() && #[trigger] entry_starts(lines)[k] == i),
    decreases lines.len(),
{
    if lines.len() > 1 {
        let front = lines.drop_last();
        lemma_entry_starts_shape(front);
        let n = lines.len() - 1;
        let sf = entry_starts(front);
        let s = entry_starts(lines);
        assert forall|i: int| 0 < i < lines.len() implies (starts_entry(lines[i]) <==> exists|k: int| 0 < k < s.len() && #[trigger] s[k] == i) by {
            if i < n {
                assert(lines[i] == front[i]);
                if starts_entry(lines[i]) {
                    let k = choose|k: int| 0 < k < sf.len() && #[trigger] sf[k] == i;
                    assert(s[k] == i);
                }
                if exists|k: int| 0 < k < s.len() && #[trigger] s[k] == i {
                    let k = choose|k: int| 0 < k < s.len() && #[trigger] s[k] == i;
                    if k < sf.len() {
                        assert(sf[k] == i);
                    }
                }
            } else {
                if starts_entry(lines[i]) {
                    assert(s[s.len() - 1] == i);
                } else {
                    if exists|k: int| 0 < k < s.len() && #[trigger] s[k] == i {
                        let k = choose|k: int| 0 < k < s.len() && #[trigger] s[k] == i;
                        assert(sf[k] < front.len());
                    }
                }
            }
        }
    }
}

proof fn lemma_grouping_at_starts(lines: Seq<Seq<char>>)
    requires
        lines.len() > 0,
    ensures
        ({
            let p = feed_all(empty_parser(), lines);
            let n = entry_starts(lines).len() as int;
            &&& p.complete.len() + 1 == n
            &&& forall|k: int| 0 <= k < p.complete.len() ==> #[trigger] p.complete[k] == entry_lines(lines, k)
            &&& p.buffer == entry_lines(lines, n - 1)
        }),
    decreases lines.len(),
{
    lemma_entry_starts_shape(lines);
    if lines.len() == 1 {
        let p = feed_all(empty_parser(), lines);
        assert(feed_all(empty_parser(), lines.drop_last()) == empty_parser());
        assert(p.buffer =~= lines.subrange(0, 1));
    } else {
        let front = lines.drop_last();
        lemma_grouping_at_starts(front);
        lemma_entry_starts_shape(front);
        let q = feed_all(empty_parser(), front);
        let p = feed_all(empty_parser(), lines);
        let l = lines.last();
        let nf = entry_starts(front).len() as int;
        let m = front.len() as int;
        assert(p == feed_line(q, l));
        assert(entry_starts(front)[nf - 1] < m);
        assert(q.buffer == front.subrange(entry_starts(front)[nf - 1], m));
        assert(q.buffer.len() > 0);
        assert forall|k: int| 0 <= k < q.complete.len() implies #[trigger] q.complete[k] == entry_lines(lines, k) by {
            assert(entry_bound(lines, k) == entry_bound(front, k));
            assert(entry_bound(lines, k + 1) == entry_bound(front, k + 1));
            assert(entry_lines(lines, k) =~= entry_lines(front, k));
        }
        if starts_entry(l) {
            assert(entry_lines(lines, nf - 1) =~= q.buffer);
            assert(p.buffer =~= entry_lines(lines, nf));
        } else {
            assert(p.buffer =~= entry_lines(lines, nf - 1));
        }
    }
}

/// Entries split exactly before each timestamp line after the first line:
/// fed to a new parser, lines with `n` entry starts leave `n - 1` finished
/// entries for `drain_complete` and one open entry for the `flush` after it;
/// the `k`-th entry is parsed from the lines from the `k`-th start up to the
/// next (the last up to the end), and its raw text is those lines joined
/// with `\n`.
pub proof fn law_entries_split_at_timestamps(text: Seq<char>)
    requires
        text_lines(text).len() > 0,
    ensures
        ({
            let lines = text_lines(text);
            let p = feed_all(empty_parser(), lines);
            let n = entry_starts(lines).len() as int;
            &&& entries_of(p.complete).len() == n - 1
            &&& flushed(ParserView { buffer: p.buffer, complete: seq![] }).len() == 1
            &&& flushed(p).len() == n
            &&& forall|k: int| 0 <= k < n ==> #[trigger] flushed(p)[k] == entry_of(entry_lines(lines, k))
            &&& forall|k: int| 0 <= k < n ==> (#[trigger] flushed(p)[k]).raw == join_lines(entry_lines(lines, k))
        }),
{
    let lines = text_lines(text);
    lemma_grouping_at_starts(lines);
    lemma_entry_starts_shape(lines);
    let p = feed_all(empty_parser(), lines);
    let n = entry_starts(lines).len() as int;
    assert(entry_starts(lines)[n - 1] < lines.len());
    assert(p.buffer.len() > 0);
    assert forall|k: int| 0 <= k < n implies #[trigger] flushed(p)[k] == entry_of(entry_lines(lines, k)) by {
        if k < n - 1 {
            assert(flushed(p)[k] == entries_of(p.complete)[k]);
        }
    }
}

/// Whether a line can be a group's first line: it starts no entry, or its
/// text after the 22-byte prefix starts on a character boundary.
pub fn header_cuttable_exec(line: &str) -> (b: bool)
    ensures
        b == header_cuttable(line@),
{
    !is_timestamp_line(line) || line.is_char_boundary(22)
}

/// Groups multi-line log entries: each `[YYYY-MM-DD HH:MM:SS]` line starts a new one.
pub struct LogEntryParser {
    buffer: Vec<String>,
    complete: Vec<Vec<String>>,
}

impl View for LogEntryParser {
    type V = ParserView;

    closed spec fn view(&self) -> ParserView {
        ParserView {
            buffer: texts(self.buffer@),
            complete: self.complete@.map_values(|g: Vec<String>| texts(g@)),
        }
    }
}

impl LogEntryParser {
    /// Every finished group holds a line.
    pub open spec fn wf(&self) -> bool {
        forall|k: int| 0 <= k < self@.complete.len() ==> #[trigger] self@.complete[k].len() > 0
    }

    /// An empty parser.
    pub fn new() -> (p: Self)
        ensures
            p.wf(),
            p@.buffer == Seq::<Seq<char>>::empty(),
            p@.complete == Seq::<Seq<Seq<char>>>::empty(),
    {
        let p = LogEntryParser { buffer: Vec::new(), complete: Vec::new() };
        assert(p@.buffer =~= Seq::<Seq<char>>::empty());
        assert(p@.complete =~= Seq::<Seq<Seq<char>>>::empty());
        p
    }

    /// Feeds text; every complete line joins the open group or, when it starts
    /// with a timestamp, closes that group and opens its own.
    pub fn feed(&mut self, text: &str)
        requires
            old(self).wf(),
        ensures
            final(self).wf(),
            final(self)@ == feed_all(old(self)@, text_lines(text@)),
    {
        let lines = split_lines(text);
        let ghost ls = texts(lines@);
        let ghost start = self@;
        let mut k: usize = 0;
        while k < lines.len()
            invariant
                ls == texts(lines@),
                ls == text_lines(text@),
                0 <= k <= lines.len(),
                self.wf(),
                self@ == feed_all(start, ls.take(k as int)),
            decreases lines.len() - k,
        {
            let line = lines[k].clone();
            let ghost prev = self@;
            proof {
                assert(ls.take(k + 1).drop_last() =~= ls.take(k as int));
                assert(ls[k as int] == line@);
            }
            if is_timestamp_line(line.as_str()) && !self.buffer.is_empty() {
                let mut finished: Vec<String> = Vec::new();
                std::mem::swap(&mut finished, &mut self.buffer);
                self.complete.push(finished);
                self.buffer.push(line);
                proof {
                    assert(self@.buffer =~= seq![line@]);
                    assert(self@.complete =~= prev.complete.push(prev.buffer));
                }
            } else {
                self.buffer.push(line);
                proof {
                    assert(self@.buffer =~= prev.buffer.push(line@));
                    assert(self@.complete =~= prev.complete);
                }
            }
            assert(self@ == feed_line(prev, ls[k as int]));
            k += 1;
        }
        assert(ls.take(lines.len() as int) =~= ls);
    }

    /// Whether `drain_complete` can parse every finished group.
    pub fn can_drain(&self) -> (b: bool)
        requires
            self.wf(),
        ensures
            b == groups_parsable(self@.complete),
    {
        let mut k: usize = 0;
        while k < self.complete.len()
            invariant
                self.wf(),
                0 <= k <= self.complete.len(),
                forall|i: int| 0 <= i < k ==> header_cuttable(#[trigger] self@.complete[i][0]),
            decreases self.complete.len() - k,
        {
            assert(self@.complete[k as int] == texts(self.complete@[k as int]@));
            assert(self@.complete[k as int].len() > 0);
            assert(self@.complete[k as int][0] == self.complete@[k as int]@[0]@);
            if !header_cuttable_exec(self.complete[k][0].as_str()) {
                assert(!header_cuttable(self@.complete[k as int][0]));
                return false;
            }
            k += 1;
        }
        true
    }

    /// Whether `flush` can parse every group, the open one included.
    pub fn can_flush(&self) -> (b: bool)
        requires
            self.wf(),
        ensures
            b == (groups_parsable(self@.complete) && open_parsable(self@.buffer)),
    {
        if !self.can_drain() {
            return false;
        }
        if self.buffer.len() > 0 {
            header_cuttable_exec(self.buffer[0].as_str())
        } else {
            true
        }
    }

    /// Parses and hands out the finished groups; the open group stays.
    pub fn drain_complete(&mut self) -> (r: Vec<LogEntry>)
        requires
            old(self).wf(),
            groups_parsable(old(self)@.complete),
        ensures
            final(self).wf(),
            entry_views(r@) == entries_of(old(self)@.complete),
            final(self)@.complete == Seq::<Seq<Seq<char>>>::empty(),
            final(self)@.buffer == old(self)@.buffer,
    {
        let ghost start = self@;
        let mut batches: Vec<Vec<String>> = Vec::new();
        std::mem::swap(&mut batches, &mut self.complete);
        let ghost groups = batches@.map_values(|g: Vec<String>| texts(g@));
        assert(groups == start.complete);
        let mut out: Vec<LogEntry> = Vec::new();
        let mut k: usize = 0;
        while k < batches.len()
            invariant
                groups == batches@.map_values(|g: Vec<String>| texts(g@)),
                groups == start.complete,
                forall|i: int| 0 <= i < groups.len() ==> #[trigger] groups[i].len() > 0,
                groups_parsable(groups),
                0 <= k <= batches.len(),
                entry_views(out@) == entries_of(groups.take(k as int)),
            decreases batches.len() - k,
        {
            assert(groups[k as int] == texts(batches@[k as int]@));
            assert(groups[k as int].len() > 0);
            assert(header_cuttable(groups[k as int][0]));
            let e = parse_entry(batches[k].as_slice());
            let ghost before = out@;
            out.push(e);
            proof {
                assert(groups.take(k + 1) =~= groups.take(k as int).push(groups[k as int]));
                assert(entry_views(out@) =~= entry_views(before).push(e@));
                assert(entries_of(groups.take(k + 1)) =~= entries_of(groups.take(k as int)).push(
                    entry_of(groups[k as int]),
                ));
            }
            k += 1;
        }
        assert(groups.take(batches.len() as int) =~= groups);
        assert(self@.complete =~= Seq::<Seq<Seq<char>>>::empty());
        assert(self@.buffer == start.buffer);
        out
    }

    /// Parses and hands out every group, the open one included; the parser is empty after.
    pub fn flush(&mut self) -> (r: Vec<LogEntry>)
        requires
            old(self).wf(),
            groups_parsable(old(self)@.complete),
            open_parsable(old(self)@.buffer),
        ensures
            final(self).wf(),
            entry_views(r@) == flushed(old(self)@),
            final(self)@.complete == Seq::<Seq<Seq<char>>>::empty(),
            final(self)@.buffer == Seq::<Seq<char>>::empty(),
    {
        let ghost start = self@;
        let mut entries = self.drain_complete();
        if !self.buffer.is_empty() {
            let mut remaining: Vec<String> = Vec::new();
            std::mem::swap(&mut remaining, &mut self.buffer);
            assert(texts(remaining@) == start.buffer);
            let e = parse_entry(remaining.as_slice());
            let ghost before = entries@;
            entries.push(e);
            assert(entry_views(entries@) =~= entry_views(before).push(e@));
        }
        assert(self@.buffer =~= Seq::<Seq<char>>::empty());
        entries
    }
}

} // verus!
