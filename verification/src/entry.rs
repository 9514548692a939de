//! One parsed Laravel log entry, and how a group of lines becomes one.
use vstd::prelude::*;
use vstd::utf8::*;
use crate::json::{extract_json_blocks, split_json};
use crate::level::{level_from_name, LogLevel};
use crate::text::{occurs_at, chars_of, find_seq, first_occurrence, last_position, rfind_char, str_eq, string_from_range, trim, trim_end_index, trim_start_index, decode_range, lemma_after_ascii_head, lemma_ascii_boundary};

verus! {

/// The stacktrace part of an entry.
#[derive(Debug, Clone)]
pub struct Stacktrace {
    pub exception_summary: String,
    pub frames: Vec<String>,
}

/// A parsed log entry: the header line's fields plus optional JSON blocks and frames.
#[derive(Debug, Clone)]
pub struct LogEntry {
    pub timestamp: String,
    pub environment: String,
    pub level: LogLevel,
    pub message: String,
    pub payload: Option<String>,
    pub context: Option<String>,
    pub stacktrace: Option<Stacktrace>,
    pub raw: String,
}

/// Mathematical content of a [`Stacktrace`].
pub struct StacktraceView {
    pub exception_summary: Seq<char>,
    pub frames: Seq<Seq<char>>,
}

/// Mathematical content of a [`LogEntry`].
pub struct EntryView {
    pub timestamp: Seq<char>,
    pub environment: Seq<char>,
    pub level: LogLevel,
    pub message: Seq<char>,
    pub payload: Option<Seq<char>>,
    pub context: Option<Seq<char>>,
    pub stacktrace: Option<StacktraceView>,
    pub raw: Seq<char>,
}

/// The characters of each string.
pub open spec fn texts(v: Seq<String>) -> Seq<Seq<char>> {
    v.map_values(|s: String| s@)
}

/// The characters of an optional string.
pub open spec fn opt_text(o: Option<String>) -> Option<Seq<char>> {
    match o {
        Some(s) => Some(s@),
        None => None,
    }
}

impl View for Stacktrace {
    type V = StacktraceView;

    open spec fn view(&self) -> StacktraceView {
        StacktraceView { exception_summary: self.exception_summary@, frames: texts(self.frames@) }
    }
}

impl View for LogEntry {
    type V = EntryView;

    open spec fn view(&self) -> EntryView {
        EntryView {
            timestamp: self.timestamp@,
            environment: self.environment@,
            level: self.level,
            message: self.message@,
            payload: opt_text(self.payload),
            context: opt_text(self.context),
            stacktrace: match self.stacktrace {
                Some(st) => Some(st@),
                None => None,
            },
            raw: self.raw@,
        }
    }
}

impl LogEntry {
    /// Whether the entry has a payload, a context or a stacktrace.
    pub open spec fn has_content(&self) -> bool {
        self.payload is Some || self.context is Some || self.stacktrace is Some
    }

    /// Whether the entry has a payload, a context or a stacktrace to show.
    pub fn has_expandable_content(&self) -> (b: bool)
        ensures
            b == self.has_content(),
    {
        self.payload.is_some() || self.context.is_some() || self.stacktrace.is_some()
    }

    /// Number of stack frames, zero without a stacktrace.
    pub fn frame_count(&self) -> (n: usize)
        ensures
            n == match self.stacktrace {
                Some(st) => st.frames@.len(),
                None => 0,
            },
    {
        match &self.stacktrace {
            Some(st) => st.frames.len(),
            None => 0,
        }
    }
}

/// Whether bytes start with the Laravel prefix `[YYYY-MM-DD HH:MM:SS]`
/// (only the separators are checked) and hold at least 22 bytes.
pub open spec fn is_timestamp_bytes(b: Seq<u8>) -> bool {
    &&& b.len() >= 22
    &&& b[0] == 0x5b  // '['
    &&& b[5] == 0x2d  // '-'
    &&& b[8] == 0x2d  // '-'
    &&& b[11] == 0x20  // ' '
    &&& b[14] == 0x3a  // ':'
    &&& b[17] == 0x3a  // ':'
    &&& b[20] == 0x5d  // ']'
}

/// Whether a line starts a new entry.
pub open spec fn starts_entry(line: Seq<char>) -> bool {
    is_timestamp_bytes(encode_utf8(line))
}

/// A header line can be cut after its `] ` prefix: the text after the first
/// 22 bytes starts on a character boundary. Lines that start no entry always can.
pub open spec fn header_cuttable(line: Seq<char>) -> bool {
    starts_entry(line) ==> is_char_boundary(encode_utf8(line), 22)
}

/// Checks the timestamp prefix of a line.
pub fn is_timestamp_line(line: &str) -> (b: bool)
    ensures
        b == starts_entry(line@),
{
    let bytes = line.as_bytes();
    bytes.len() >= 22 && bytes[0] == 0x5b && bytes[5] == 0x2d && bytes[8] == 0x2d && bytes[11]
        == 0x20 && bytes[14] == 0x3a && bytes[17] == 0x3a && bytes[20] == 0x5d
}

/// `environment.LEVEL: rest`: the environment is what precedes the last `.`
/// before the first `: `, the level is named after that dot, and the rest
/// follows the `: `. Without that shape: empty environment, `Unknown`, whole text.
pub open spec fn env_level_message(t: Seq<char>) -> (Seq<char>, LogLevel, Seq<char>) {
    match first_occurrence(t, ": "@) {
        Some(c) => {
            let env_level = t.take(c);
            match last_position(env_level, '.') {
                Some(d) => (env_level.take(d), level_from_name(env_level.skip(d + 1)), t.skip(c + 2)),
                None => (seq![], LogLevel::Unknown, t),
            }
        },
        None => (seq![], LogLevel::Unknown, t),
    }
}

/// Splits `environment.LEVEL: rest of line`.
pub fn parse_env_level_message(text: &str) -> (r: (String, LogLevel, String))
    ensures
        r.0@ == env_level_message(text@).0,
        r.1 == env_level_message(text@).1,
        r.2@ == env_level_message(text@).2,
{
    let t = chars_of(text);
    let sep = chars_of(": ");
    proof {
        reveal_strlit(": ");
    }
    if let Some(c) = find_seq(&t, &sep) {
        let env_level = chars_range(&t, 0, c);
        assert(env_level@ =~= t@.take(c as int));
        if let Some(d) = rfind_char(&env_level, '.') {
            let environment = string_from_range(&env_level, 0, d);
            let name = string_from_range(&env_level, d + 1, env_level.len());
            let level = LogLevel::from_str(name.as_str());
            let rest = string_from_range(&t, c + 2, t.len());
            assert(environment@ =~= env_level@.take(d as int));
            assert(name@ =~= env_level@.skip(d + 1));
            assert(rest@ =~= t@.skip(c + 2));
            return (environment, level, rest);
        }
    }
    assert(t@.subrange(0, t.len() as int) =~= t@);
    (String::new(), LogLevel::Unknown, string_from_range(&t, 0, t.len()))
}

/// Whether a trimmed line is a numbered stack frame: `#` then an ASCII digit.
pub open spec fn is_frame(t: Seq<char>) -> bool {
    t.len() >= 2 && t[0] == '#' && '0' <= t[1] && t[1] <= '9'
}

/// Scans lines in order: after a `[stacktrace]` marker line, every trimmed
/// frame line is collected. Returns whether a marker was seen, and the frames.
pub open spec fn stack_scan(lines: Seq<Seq<char>>) -> (bool, Seq<Seq<char>>)
    decreases lines.len(),
{
    if lines.len() == 0 {
        (false, seq![])
    } else {
        let (inside, frames) = stack_scan(lines.drop_last());
        let t = trim(lines.last());
        if t == "[stacktrace]"@ {
            (true, frames)
        } else if inside && is_frame(t) {
            (inside, frames.push(t))
        } else {
            (inside, frames)
        }
    }
}

/// The lines after the first.
pub open spec fn continuation(lines: Seq<Seq<char>>) -> Seq<Seq<char>> {
    if lines.len() == 0 {
        seq![]
    } else {
        lines.skip(1)
    }
}

/// The frames of an entry's continuation lines, when a marker and at least one frame are present.
pub open spec fn stack_frames(lines: Seq<Seq<char>>) -> Option<Seq<Seq<char>>> {
    let (inside, frames) = stack_scan(continuation(lines));
    if inside && frames.len() > 0 {
        Some(frames)
    } else {
        None
    }
}

/// Copies `cs[lo..hi]`.
pub fn chars_range(cs: &Vec<char>, lo: usize, hi: usize) -> (v: Vec<char>)
    requires
        lo <= hi <= cs.len(),
    ensures
        v@ == cs@.subrange(lo as int, hi as int),
{
    let mut v: Vec<char> = Vec::new();
    let mut i = lo;
    while i < hi
        invariant
            lo <= i <= hi <= cs.len(),
            v@ == cs@.subrange(lo as int, i as int),
        decreases hi - i,
    {
        v.push(cs[i]);
        i += 1;
        assert(v@ =~= cs@.subrange(lo as int, i as int));
    }
    v
}

/// A line with surrounding white space removed.
pub fn trimmed(line: &str) -> (s: String)
    ensures
        s@ == trim(line@),
{
    let cs = chars_of(line);
    let b = trim_start_index(&cs, 0, cs.len());
    let e = trim_end_index(&cs, b, cs.len());
    assert(cs@.subrange(0, cs.len() as int) =~= cs@);
    string_from_range(&cs, b, e)
}

/// Collects the stack frames listed after a `[stacktrace]` line.
pub fn parse_stacktrace(lines: &[String]) -> (r: Option<Stacktrace>)
    ensures
        match r {
            Some(st) => stack_frames(texts(lines@)) == Some(st@.frames) && st.exception_summary@
                == Seq::<char>::empty(),
            None => stack_frames(texts(lines@)) is None,
        },
{
    let ghost all = texts(lines@);
    let mut inside = false;
    let mut frames: Vec<String> = Vec::new();
    let mut k: usize = 1;
    if lines.len() == 0 {
        return None;
    }
    while k < lines.len()
        invariant
            all == texts(lines@),
            1 <= k <= lines.len(),
            (inside, texts(frames@)) == stack_scan(all.subrange(1, k as int)),
        decreases lines.len() - k,
    {
        let t = trimmed(lines[k].as_str());
        let ghost prev = all.subrange(1, k as int);
        let ghost next = all.subrange(1, k + 1);
        proof {
            assert(next.drop_last() =~= prev);
            assert(next.last() == lines@[k as int]@);
            assert(t@ == trim(next.last()));
        }
        if str_eq(t.as_str(), "[stacktrace]") {
            inside = true;
            assert(t@ == "[stacktrace]"@);
        } else {
            assert(t@ != "[stacktrace]"@);
            let tc = chars_of(t.as_str());
            if inside && tc.len() >= 2 && tc[0] == '#' && '0' <= tc[1] && tc[1] <= '9' {
                let ghost before = frames@;
                frames.push(t);
                assert(texts(frames@) =~= texts(before).push(trim(lines@[k as int]@)));
            }
        }
        assert((inside, texts(frames@)) == stack_scan(next));
        k += 1;
    }
    assert(all.subrange(1, lines.len() as int) =~= continuation(all));
    if inside && frames.len() > 0 {
        Some(Stacktrace { exception_summary: String::new(), frames })
    } else {
        None
    }
}

/// The text between `[object] (` and the last `)` after it, if both are there.
pub open spec fn exception_summary(line: Seq<char>) -> Option<Seq<char>> {
    match first_occurrence(line, "[object] ("@) {
        None => None,
        Some(p) => {
            let after = line.skip(p + "[object] ("@.len());
            match last_position(after, ')') {
                None => None,
                Some(q) => Some(after.take(q)),
            }
        },
    }
}

/// Extracts `Class(...): message at path:line` from `[object] (...)`.
pub fn extract_exception_summary(line: &str) -> (r: Option<String>)
    ensures
        opt_text(r) == exception_summary(line@),
{
    let t = chars_of(line);
    let pat = chars_of("[object] (");
    let ghost pv = "[object] ("@;
    assert(pat@ == pv);
    proof {
        reveal_strlit("[object] (");
    }
    let plen = pat.len();
    match find_seq(&t, &pat) {
        None => None,
        Some(p) => {
            assert(occurs_at(t@, pv, p as int));
            assert(p + plen <= t@.len());
            assert(t@.len() == t.len());
            let start = p + plen;
            let after = chars_range(&t, start, t.len());
            assert(after@ =~= line@.skip(p + pv.len()));
            match rfind_char(&after, ')') {
                None => None,
                Some(q) => {
                    let s = string_from_range(&after, 0, q);
                    assert(s@ =~= after@.take(q as int));
                    Some(s)
                },
            }
        },
    }
}

/// Lines joined with `\n` between them.
pub open spec fn join_lines(lines: Seq<Seq<char>>) -> Seq<char>
    decreases lines.len(),
{
    if lines.len() == 0 {
        seq![]
    } else if lines.len() == 1 {
        lines[0]
    } else {
        join_lines(lines.drop_last()) + seq!['\n'] + lines.last()
    }
}

/// The entry that a group of lines denotes. Its first line decides: without
/// the timestamp prefix the whole first line is the message and nothing else
/// is parsed; with it, the timestamp is bytes 1..20, and the text after the
/// 22-byte prefix splits into environment, level, message and JSON blocks,
/// while the following lines may hold a stacktrace.
pub open spec fn entry_of(lines: Seq<Seq<char>>) -> EntryView {
    let first = lines[0];
    let raw = join_lines(lines);
    if !starts_entry(first) {
        EntryView {
            timestamp: seq![],
            environment: seq![],
            level: LogLevel::Unknown,
            message: first,
            payload: None,
            context: None,
            stacktrace: None,
            raw,
        }
    } else {
        let b = encode_utf8(first);
        let after = decode_utf8(b.subrange(22, b.len() as int));
        let (environment, level, rest) = env_level_message(after);
        let (message, payload, context) = split_json(rest);
        EntryView {
            timestamp: decode_utf8(b.subrange(1, 20)),
            environment,
            level,
            message,
            payload,
            context,
            stacktrace: match stack_frames(lines) {
                Some(frames) => Some(
                    StacktraceView {
                        exception_summary: match exception_summary(first) {
                            Some(s) => s,
                            None => seq![],
                        },
                        frames,
                    },
                ),
                None => None,
            },
            raw,
        }
    }
}

/// Joins lines with `\n`.
pub fn join_with_newlines(lines: &[String]) -> (s: String)
    ensures
        s@ == join_lines(texts(lines@)),
{
    let ghost all = texts(lines@);
    let mut s = String::new();
    let mut k: usize = 0;
    while k < lines.len()
        invariant
            all == texts(lines@),
            0 <= k <= lines.len(),
            s@ == join_lines(all.take(k as int)),
        decreases lines.len() - k,
    {
        proof {
            assert(all.take(k + 1).drop_last() =~= all.take(k as int));
        }
        if k > 0 {
            s.append("\n");
            proof {
                reveal_strlit("\n");
            }
        } else {
            assert(all.take(0) =~= Seq::<Seq<char>>::empty());
        }
        s.append(lines[k].as_str());
        k += 1;
    }
    assert(all.take(lines.len() as int) =~= all);
    s
}

/// Parses a group of lines (a header line and its continuation lines) into one entry.
pub fn parse_entry(lines: &[String]) -> (e: LogEntry)
    requires
        lines@.len() > 0,
        header_cuttable(lines@[0]@),
    ensures
        e@ == entry_of(texts(lines@)),
{
    let raw = join_with_newlines(lines);
    let first_line = &lines[0];
    assert(texts(lines@)[0] == first_line@);
    if !is_timestamp_line(first_line.as_str()) {
        return LogEntry {
            timestamp: String::new(),
            environment: String::new(),
            level: LogLevel::Unknown,
            message: first_line.clone(),
            payload: None,
            context: None,
            stacktrace: None,
            raw,
        };
    }
    let bytes = first_line.as_str().as_bytes();
    proof {
        encode_utf8_valid_utf8(first_line@);
        lemma_after_ascii_head(bytes@);
        lemma_ascii_boundary(bytes@, 20);
        is_char_boundary_start_end_of_seq(bytes@);
    }
    let timestamp = decode_range(bytes, 1, 20);
    let after_bracket = decode_range(bytes, 22, bytes.len());
    let (environment, level, rest) = parse_env_level_message(after_bracket.as_str());
    let (message, payload, context) = extract_json_blocks(rest.as_str());
    let stacktrace = parse_stacktrace(lines);
    let stacktrace = match stacktrace {
        Some(mut st) => {
            if let Some(summary) = extract_exception_summary(first_line.as_str()) {
                st.exception_summary = summary;
            }
            Some(st)
        },
        None => None,
    };
    LogEntry { timestamp, environment, level, message, payload, context, stacktrace, raw }
}

} // verus!
