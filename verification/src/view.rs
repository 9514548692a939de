//! What the logs tab draws, as plain styled text: the file list, one line per
//! entry (with its details when expanded), the title, search bar, footer and
//! the scroll position that keeps the selected entry in sight.
use vstd::prelude::*;
use vstd::utf8::*;
use crate::entry::{EntryView, LogEntry, Stacktrace, StacktraceView};
use crate::files::{mode_label, LogFileTree, LogViewMode};
use crate::level::{level_display, LogLevel};
use crate::logs_tab::{entry_shown, lemma_shown_upto_count, lemma_shown_upto_increasing, LogsTabState};
use crate::number::{decimal, format_usize};
use crate::text::{decode_range, push_char};

verus! {

broadcast use vstd::std_specs::hash::group_hash_axioms;

/// A color role; the drawing side maps each to a color of its theme.
#[derive(Debug, Clone, Copy, PartialEq, Eq, Structural)]
pub enum Tone {
    Accent,
    Text,
    TextDim,
    TextMuted,
    Success,
    LogCritical,
    LogError,
    LogWarning,
    LogNotice,
    LogInfo,
    LogDebug,
}

/// A run of text with one style; `tone` is `None` for unstyled text.
#[derive(Debug, Clone)]
pub struct Segment {
    pub text: String,
    pub tone: Option<Tone>,
    pub bold: bool,
}

/// A line of segments; `highlighted` lines are drawn on the selection background.
#[derive(Debug, Clone)]
pub struct StyledLine {
    pub segments: Vec<Segment>,
    pub highlighted: bool,
}

/// A segment by its plain values.
pub struct SegmentView {
    pub text: Seq<char>,
    pub tone: Option<Tone>,
    pub bold: bool,
}

impl View for Segment {
    type V = SegmentView;

    open spec fn view(&self) -> SegmentView {
        SegmentView { text: self.text@, tone: self.tone, bold: self.bold }
    }
}

/// Segments by their plain values.
pub open spec fn segment_views(v: Seq<Segment>) -> Seq<SegmentView> {
    v.map_values(|s: Segment| s@)
}

/// A line by its plain values.
pub struct LineView {
    pub segments: Seq<SegmentView>,
    pub highlighted: bool,
}

impl View for StyledLine {
    type V = LineView;

    open spec fn view(&self) -> LineView {
        LineView { segments: segment_views(self.segments@), highlighted: self.highlighted }
    }
}

/// Lines by their plain values.
pub open spec fn line_views(v: Seq<StyledLine>) -> Seq<LineView> {
    v.map_values(|l: StyledLine| l@)
}

/// A styled segment.
pub open spec fn styled(text: Seq<char>, tone: Tone) -> SegmentView {
    SegmentView { text, tone: Some(tone), bold: false }
}

/// An unstyled segment.
pub open spec fn raw(text: Seq<char>) -> SegmentView {
    SegmentView { text, tone: None, bold: false }
}

fn seg(text: String, tone: Tone) -> (s: Segment)
    ensures
        s@ == styled(text@, tone),
{
    Segment { text, tone: Some(tone), bold: false }
}

fn seg_str(text: &str, tone: Tone) -> (s: Segment)
    ensures
        s@ == styled(text@, tone),
{
    Segment { text: String::from_str(text), tone: Some(tone), bold: false }
}

fn raw_str(text: &str) -> (s: Segment)
    ensures
        s@ == raw(text@),
{
    Segment { text: String::from_str(text), tone: None, bold: false }
}

/// The color role of a level.
pub open spec fn level_tone(level: LogLevel) -> Tone {
    match level {
        LogLevel::Emergency | LogLevel::Alert | LogLevel::Critical => Tone::LogCritical,
        LogLevel::Error => Tone::LogError,
        LogLevel::Warning => Tone::LogWarning,
        LogLevel::Notice => Tone::LogNotice,
        LogLevel::Info => Tone::LogInfo,
        LogLevel::Debug => Tone::LogDebug,
        LogLevel::Unknown => Tone::TextMuted,
    }
}

/// The color role of a level.
pub fn level_color(level: &LogLevel) -> (t: Tone)
    ensures
        t == level_tone(*level),
{
    match level {
        LogLevel::Emergency | LogLevel::Alert | LogLevel::Critical => Tone::LogCritical,
        LogLevel::Error => Tone::LogError,
        LogLevel::Warning => Tone::LogWarning,
        LogLevel::Notice => Tone::LogNotice,
        LogLevel::Info => Tone::LogInfo,
        LogLevel::Debug => Tone::LogDebug,
        LogLevel::Unknown => Tone::TextMuted,
    }
}

/// A level's label, right-aligned in nine columns.
pub open spec fn level_label(level: LogLevel) -> Seq<char> {
    match level {
        LogLevel::Emergency => "EMERGENCY"@,
        LogLevel::Alert => "    ALERT"@,
        LogLevel::Critical => " CRITICAL"@,
        LogLevel::Error => "    ERROR"@,
        LogLevel::Warning => "     WARN"@,
        LogLevel::Notice => "   NOTICE"@,
        LogLevel::Info => "     INFO"@,
        LogLevel::Debug => "    DEBUG"@,
        LogLevel::Unknown => "  UNKNOWN"@,
    }
}

/// A level's label, right-aligned in nine columns.
pub fn level_text(level: &LogLevel) -> (s: &'static str)
    ensures
        s@ == level_label(*level),
        s@.len() == 9,
{
    proof {
        reveal_strlit("EMERGENCY");
        reveal_strlit("    ALERT");
        reveal_strlit(" CRITICAL");
        reveal_strlit("    ERROR");
        reveal_strlit("     WARN");
        reveal_strlit("   NOTICE");
        reveal_strlit("     INFO");
        reveal_strlit("    DEBUG");
        reveal_strlit("  UNKNOWN");
    }
    match level {
        LogLevel::Emergency => "EMERGENCY",
        LogLevel::Alert => "    ALERT",
        LogLevel::Critical => " CRITICAL",
        LogLevel::Error => "    ERROR",
        LogLevel::Warning => "     WARN",
        LogLevel::Notice => "   NOTICE",
        LogLevel::Info => "     INFO",
        LogLevel::Debug => "    DEBUG",
        LogLevel::Unknown => "  UNKNOWN",
    }
}

/// The time shown for a timestamp: bytes 11..19 (`HH:MM:SS` of
/// `YYYY-MM-DD HH:MM:SS`) when it has 19 bytes, else its first 8 bytes when
/// it has 8, else all of it.
pub open spec fn time_part(t: Seq<char>) -> Seq<char> {
    let b = encode_utf8(t);
    if b.len() >= 19 {
        decode_utf8(b.subrange(11, 19))
    } else if b.len() >= 8 {
        decode_utf8(b.subrange(0, 8))
    } else {
        t
    }
}

/// A timestamp can be cut where `time_part` cuts it: those bytes are
/// character boundaries (always so for ASCII timestamps).
pub open spec fn time_cuttable(t: Seq<char>) -> bool {
    let b = encode_utf8(t);
    &&& b.len() >= 19 ==> is_char_boundary(b, 11) && is_char_boundary(b, 19)
    &&& (8 <= b.len() < 19) ==> is_char_boundary(b, 8)
}

/// The time shown for a timestamp.
pub fn extract_time(timestamp: &str) -> (s: String)
    requires
        time_cuttable(timestamp@),
    ensures
        s@ == time_part(timestamp@),
{
    let b = timestamp.as_bytes();
    proof {
        encode_utf8_valid_utf8(timestamp@);
        is_char_boundary_start_end_of_seq(b@);
    }
    if b.len() >= 19 {
        decode_range(b, 11, 19)
    } else if b.len() >= 8 {
        decode_range(b, 0, 8)
    } else {
        String::from_str(timestamp)
    }
}

/// `n` copies of a character.
pub open spec fn repeated(c: char, n: nat) -> Seq<char> {
    Seq::new(n, |i: int| c)
}

fn push_repeated(s: &mut String, c: char, n: usize)
    ensures
        final(s)@ == old(s)@ + repeated(c, n as nat),
{
    let mut k: usize = 0;
    while k < n
        invariant
            0 <= k <= n,
            s@ == old(s)@ + repeated(c, k as nat),
        decreases n - k,
    {
        push_char(s, c);
        k += 1;
        assert(s@ =~= old(s)@ + repeated(c, k as nat));
    }
}

/// A divider `┄ label ┄` filled out with `┄` to `width` bytes.
pub open spec fn divider(label: Seq<char>, width: nat) -> Seq<char> {
    let prefix = "┄ "@ + label + " ┄"@;
    let used = encode_utf8(label).len() + 8;
    prefix + repeated('┄', if width > used { (width - used) as nat } else { 0 })
}

/// A divider `┄ label ┄` filled out with `┄` to `width` bytes.
pub fn build_section_divider(label: &str, width: usize) -> (s: String)
    ensures
        s@ == divider(label@, width as nat),
{
    let mut s = String::from_str("┄ ").concat(label).concat(" ┄");
    proof {
        reveal_strlit("┄ ");
        reveal_strlit(" ┄");
    }
    assert(s@ == "┄ "@ + label@ + " ┄"@);
    let used = label.as_bytes().len() as u128 + 8;
    assert(used == encode_utf8(label@).len() + 8);
    let remaining: usize = if (width as u128) > used {
        (width as u128 - used) as usize
    } else {
        0
    };
    push_repeated(&mut s, '┄', remaining);
    s
}


/// Frame count of an entry's stacktrace, zero without one.
pub open spec fn frames_of(e: EntryView) -> nat {
    match e.stacktrace {
        Some(st) => st.frames.len(),
        None => 0,
    }
}

/// The marks at the right of a collapsed entry: ` {…}` when it has JSON,
/// then ` ▶ N frames` when it has stack frames (a space between the two).
pub open spec fn indicators(e: EntryView) -> Seq<char> {
    let json = if e.payload is Some || e.context is Some {
        " {…}"@
    } else {
        seq![]
    };
    let n = frames_of(e);
    if n > 0 {
        (if json.len() > 0 {
            json + " "@
        } else {
            json
        }) + " ▶ "@ + decimal(n) + " frames"@
    } else {
        json
    }
}

/// Two widths subtracted, stopping at zero.
pub open spec fn sat_sub(a: int, b: int) -> nat {
    if a > b {
        (a - b) as nat
    } else {
        0
    }
}

/// Room left for the message: the width less the 21 columns of the prefix
/// and the byte length of the indicators (taken as a `u16`).
pub open spec fn message_width(e: EntryView, width: u16) -> nat {
    sat_sub(sat_sub(width as int, 21) as int, (encode_utf8(indicators(e)).len() as u16) as int)
}

/// A message cut to fit: when it has more bytes than `w` (and `w > 3`), its
/// first `w - 3` bytes and `...`.
pub open spec fn shown_message(m: Seq<char>, w: nat) -> Seq<char> {
    let b = encode_utf8(m);
    if b.len() > w && w > 3 {
        decode_utf8(b.subrange(0, w - 3)) + "..."@
    } else {
        m
    }
}

/// The cut of `shown_message` falls on a character boundary.
pub open spec fn message_cuttable(m: Seq<char>, w: nat) -> bool {
    let b = encode_utf8(m);
    (b.len() > w && w > 3) ==> is_char_boundary(b, w - 3)
}

/// Text padded with spaces to at least `w` characters.
pub open spec fn padded(t: Seq<char>, w: nat) -> Seq<char> {
    if t.len() < w {
        t + repeated(' ', (w - t.len()) as nat)
    } else {
        t
    }
}

/// Whether an entry's one-line form can be built at this width without
/// cutting inside a character.
pub open spec fn collapsible(e: EntryView, width: u16) -> bool {
    time_cuttable(e.timestamp) && message_cuttable(e.message, message_width(e, width))
}

/// The marker before a line: `▌ ` for the selected one, else two spaces.
pub open spec fn cursor_segment(selected: bool) -> SegmentView {
    if selected {
        styled("▌ "@, Tone::Accent)
    } else {
        raw("  "@)
    }
}

/// The one-line form of an entry: cursor mark, time, level, the message cut
/// and padded to the room left, and the indicators.
pub open spec fn collapsed_line(e: EntryView, selected: bool, width: u16) -> LineView {
    let w = message_width(e, width);
    let ind = indicators(e);
    let base = seq![
        cursor_segment(selected),
        styled(time_part(e.timestamp), Tone::TextMuted),
        raw(" "@),
        SegmentView { text: level_label(e.level), tone: Some(level_tone(e.level)), bold: true },
        raw(" "@),
        styled(padded(shown_message(e.message, w), w), Tone::Text),
    ];
    LineView {
        segments: if ind.len() > 0 {
            base.push(styled(ind, Tone::TextMuted))
        } else {
            base
        },
        highlighted: false,
    }
}

fn cursor_mark(selected: bool) -> (s: Segment)
    ensures
        s@ == cursor_segment(selected),
{
    if selected {
        seg_str("▌ ", Tone::Accent)
    } else {
        raw_str("  ")
    }
}

fn indicator_text(entry: &LogEntry) -> (s: String)
    ensures
        s@ == indicators(entry@),
{
    let mut s = String::new();
    if entry.payload.is_some() || entry.context.is_some() {
        s.append(" {…}");
    }
    proof {
        reveal_strlit(" {…}");
        reveal_strlit(" ");
        reveal_strlit(" ▶ ");
        reveal_strlit(" frames");
    }
    let n = entry.frame_count();
    if n > 0 {
        if !s.as_str().is_empty() {
            s.append(" ");
        }
        s.append(" ▶ ");
        s.append(format_usize(n).as_str());
        s.append(" frames");
    }
    s
}

fn cut_message(m: &String, w: usize) -> (s: String)
    requires
        message_cuttable(m@, w as nat),
    ensures
        s@ == shown_message(m@, w as nat),
{
    let b = m.as_str().as_bytes();
    if b.len() > w && w > 3 {
        proof {
            encode_utf8_valid_utf8(m@);
            is_char_boundary_start_end_of_seq(b@);
        }
        let head = decode_range(b, 0, w - 3);
        proof {
            reveal_strlit("...");
        }
        head.concat("...")
    } else {
        m.clone()
    }
}

fn pad_to(t: String, w: usize) -> (s: String)
    ensures
        s@ == padded(t@, w as nat),
{
    let n = crate::text::chars_of(t.as_str()).len();
    let mut s = t;
    if n < w {
        push_repeated(&mut s, ' ', w - n);
    }
    s
}

/// The one-line form of an entry.
pub fn build_collapsed_line(entry: &LogEntry, is_selected: bool, available_width: u16) -> (l: StyledLine)
    requires
        collapsible(entry@, available_width),
    ensures
        l@ == collapsed_line(entry@, is_selected, available_width),
{
    let color = level_color(&entry.level);
    let time = extract_time(entry.timestamp.as_str());
    let level = level_text(&entry.level);
    let mut spans: Vec<Segment> = Vec::new();
    spans.push(cursor_mark(is_selected));
    spans.push(seg(time, Tone::TextMuted));
    spans.push(raw_str(" "));
    spans.push(Segment { text: String::from_str(level), tone: Some(color), bold: true });
    spans.push(raw_str(" "));
    let right = indicator_text(entry);
    let right_len: u16 = right.as_str().as_bytes().len() as u16;
    let prefix_len: u16 = 21;
    let msg_width = available_width.saturating_sub(prefix_len).saturating_sub(right_len) as usize;
    let message = cut_message(&entry.message, msg_width);
    let padded_message = pad_to(message, msg_width);
    spans.push(seg(padded_message, Tone::Text));
    if !right.as_str().is_empty() {
        spans.push(seg(right, Tone::TextMuted));
    }
    let l = StyledLine { segments: spans, highlighted: false };
    assert(l@.segments =~= collapsed_line(entry@, is_selected, available_width).segments);
    l
}


/// A JSON value as the expanded view shows it. Numbers, arrays and objects
/// are kept as their compact JSON text.
#[derive(Debug, Clone)]
pub enum JsonValue {
    Text(String),
    Number(String),
    Bool(bool),
    Null,
    Other(String),
}

/// A JSON value by its plain values.
pub enum JsonValueView {
    Text(Seq<char>),
    Number(Seq<char>),
    Bool(bool),
    Null,
    Other(Seq<char>),
}

impl View for JsonValue {
    type V = JsonValueView;

    open spec fn view(&self) -> JsonValueView {
        match self {
            JsonValue::Text(t) => JsonValueView::Text(t@),
            JsonValue::Number(n) => JsonValueView::Number(n@),
            JsonValue::Bool(b) => JsonValueView::Bool(*b),
            JsonValue::Null => JsonValueView::Null,
            JsonValue::Other(t) => JsonValueView::Other(t@),
        }
    }
}

/// Object fields by their plain values.
pub open spec fn field_views(v: Seq<(String, JsonValue)>) -> Seq<(Seq<char>, JsonValueView)> {
    v.map_values(|f: (String, JsonValue)| (f.0@, f.1@))
}

/// Optional object fields by their plain values.
pub open spec fn opt_field_views(o: Option<Vec<(String, JsonValue)>>) -> Option<Seq<(Seq<char>, JsonValueView)>> {
    match o {
        Some(v) => Some(field_views(v@)),
        None => None,
    }
}

/// The fields of the JSON object that a text holds, in the order serde_json's
/// map yields them; none when the text is not a JSON object.
pub uninterp spec fn json_object_fields(text: Seq<char>) -> Option<Seq<(Seq<char>, JsonValueView)>>;

/// Calls `serde_json::from_str::<serde_json::Value>` and, for an object, lists
/// its fields: strings, booleans and null as they are, numbers and nested
/// arrays or objects as serde_json writes them. The result is named
/// `json_object_fields` of the text; JSON syntax itself is not stated.
#[verifier::external_body]
fn parse_json_object(text: &str) -> (r: Option<Vec<(String, JsonValue)>>)
    ensures
        opt_field_views(r) == json_object_fields(text@),
{
    let map = match serde_json::from_str::<serde_json::Value>(text) {
        Ok(serde_json::Value::Object(map)) => map,
        _ => return None,
    };
    let mut fields = Vec::new();
    for (key, value) in map {
        fields.push((key, match value {
            serde_json::Value::String(s) => JsonValue::Text(s),
            serde_json::Value::Number(n) => JsonValue::Number(n.to_string()),
            serde_json::Value::Bool(b) => JsonValue::Bool(b),
            serde_json::Value::Null => JsonValue::Null,
            other => JsonValue::Other(other.to_string()),
        }));
    }
    Some(fields)
}

/// How a JSON value is shown: strings quoted, numbers and booleans as
/// notices, null muted.
pub open spec fn json_value_segment(v: JsonValueView) -> SegmentView {
    match v {
        JsonValueView::Text(t) => styled("\""@ + t + "\""@, Tone::Text),
        JsonValueView::Number(n) => styled(n, Tone::LogNotice),
        JsonValueView::Bool(b) => styled(if b { "true"@ } else { "false"@ }, Tone::LogNotice),
        JsonValueView::Null => styled("null"@, Tone::TextMuted),
        JsonValueView::Other(t) => styled(t, Tone::Text),
    }
}

/// A plain line of segments.
pub open spec fn plain_line(segments: Seq<SegmentView>) -> LineView {
    LineView { segments, highlighted: false }
}

/// The line for one field: connector, `key: `, value.
pub open spec fn field_line(f: (Seq<char>, JsonValueView), connector: Tone) -> LineView {
    plain_line(seq![styled("│   "@, connector), styled(f.0 + ": "@, Tone::Accent), json_value_segment(f.1)])
}

/// The lines of a JSON block: one per field of an object, else the text itself.
pub open spec fn json_block_lines(text: Seq<char>, fields: Option<Seq<(Seq<char>, JsonValueView)>>, connector: Tone) -> Seq<LineView> {
    match fields {
        Some(fs) => Seq::new(fs.len(), |i: int| field_line(fs[i], connector)),
        None => seq![plain_line(seq![styled("│   "@, connector), styled(text, Tone::Text)])],
    }
}

fn format_json_value(v: &JsonValue) -> (s: Segment)
    ensures
        s@ == json_value_segment(v@),
{
    proof {
        reveal_strlit("\"");
        reveal_strlit("true");
        reveal_strlit("false");
        reveal_strlit("null");
    }
    match v {
        JsonValue::Text(t) => seg(String::from_str("\"").concat(t.as_str()).concat("\""), Tone::Text),
        JsonValue::Number(n) => seg(n.clone(), Tone::LogNotice),
        JsonValue::Bool(b) => seg_str(if *b { "true" } else { "false" }, Tone::LogNotice),
        JsonValue::Null => seg_str("null", Tone::TextMuted),
        JsonValue::Other(t) => seg(t.clone(), Tone::Text),
    }
}

/// The lines of a JSON block, given what reading it as an object gave.
pub fn render_json_lines(text: &str, fields: Option<Vec<(String, JsonValue)>>, connector: Tone) -> (r: Vec<StyledLine>)
    ensures
        line_views(r@) == json_block_lines(text@, opt_field_views(fields), connector),
{
    proof {
        reveal_strlit("│   ");
        reveal_strlit(": ");
    }
    let mut lines: Vec<StyledLine> = Vec::new();
    match fields {
        Some(fs) => {
            let ghost target = json_block_lines(text@, opt_field_views(Some(fs)), connector);
            let mut i: usize = 0;
            while i < fs.len()
                invariant
                    0 <= i <= fs.len(),
                    target == json_block_lines(text@, Some(field_views(fs@)), connector),
                    line_views(lines@) == target.take(i as int),
                decreases fs.len() - i,
            {
                let ghost before = lines@;
                let mut segs: Vec<Segment> = Vec::new();
                segs.push(seg_str("│   ", connector));
                segs.push(seg(fs[i].0.clone().concat(": "), Tone::Accent));
                segs.push(format_json_value(&fs[i].1));
                let line = StyledLine { segments: segs, highlighted: false };
                assert(line@ == field_line(field_views(fs@)[i as int], connector)) by {
                    assert(line@.segments =~= field_line(field_views(fs@)[i as int], connector).segments);
                }
                lines.push(line);
                assert(line_views(lines@) =~= line_views(before).push(line@));
                assert(target.take(i + 1) =~= target.take(i as int).push(line@));
                i += 1;
            }
            assert(target.take(fs.len() as int) =~= target);
        },
        None => {
            let mut segs: Vec<Segment> = Vec::new();
            segs.push(seg_str("│   ", connector));
            segs.push(seg_str(text, Tone::Text));
            let line = StyledLine { segments: segs, highlighted: false };
            let ghost expect = plain_line(seq![styled("│   "@, connector), styled(text@, Tone::Text)]);
            assert(line@.segments =~= expect.segments);
            lines.push(line);
            assert(line_views(lines@) =~= seq![expect]);
        },
    }
    lines
}


/// A divider line naming a JSON block, shown when an entry has both blocks.
pub open spec fn divider_line(label: Seq<char>, width: u16, connector: Tone) -> LineView {
    plain_line(seq![styled("│ "@, connector), styled(divider(label, sat_sub(width as int, 4)), Tone::TextMuted)])
}

/// The lines of a stacktrace: its summary when there is one, then, when
/// there are frames, a bare connector and one line per frame.
pub open spec fn stack_lines(st: Option<StacktraceView>, connector: Tone) -> Seq<LineView> {
    match st {
        Some(s) => {
            let summary = if s.exception_summary.len() > 0 {
                seq![plain_line(seq![styled("│   "@, connector), styled(s.exception_summary, Tone::Text)])]
            } else {
                seq![]
            };
            let frames = if s.frames.len() > 0 {
                seq![plain_line(seq![styled("│"@, connector)])] + Seq::new(
                    s.frames.len(),
                    |i: int| plain_line(seq![styled("│   "@, connector), styled(s.frames[i], Tone::TextDim)]),
                )
            } else {
                seq![]
            };
            summary + frames
        },
        None => seq![],
    }
}

/// The detail lines of an expanded entry: the payload block, then the
/// context block (each under a divider when both are present), then the
/// stacktrace. `pf` and `cf` are what reading each block as a JSON object gave.
pub open spec fn expanded_lines(
    e: EntryView,
    width: u16,
    pf: Option<Seq<(Seq<char>, JsonValueView)>>,
    cf: Option<Seq<(Seq<char>, JsonValueView)>>,
) -> Seq<LineView> {
    let both = e.payload is Some && e.context is Some;
    let c = level_tone(e.level);
    let payload = match e.payload {
        Some(p) => (if both {
            seq![divider_line("Payload"@, width, c)]
        } else {
            seq![]
        }) + json_block_lines(p, pf, c),
        None => seq![],
    };
    let context = match e.context {
        Some(x) => (if both {
            seq![divider_line("Context"@, width, c)]
        } else {
            seq![]
        }) + json_block_lines(x, cf, c),
        None => seq![],
    };
    payload + context + stack_lines(e.stacktrace, c)
}

/// What reading an optional block as a JSON object gives.
pub open spec fn fields_of_block(b: Option<Seq<char>>) -> Option<Seq<(Seq<char>, JsonValueView)>> {
    match b {
        Some(t) => json_object_fields(t),
        None => None,
    }
}

fn append_lines(dst: &mut Vec<StyledLine>, src: Vec<StyledLine>)
    ensures
        line_views(final(dst)@) == line_views(old(dst)@) + line_views(src@),
{
    let mut src = src;
    let ghost s0 = src@;
    let ghost d0 = dst@;
    dst.append(&mut src);
    assert(line_views(dst@) =~= line_views(d0) + line_views(s0));
}

fn divider_row(label: &str, width: u16, connector: Tone) -> (l: StyledLine)
    ensures
        l@ == divider_line(label@, width, connector),
{
    let mut segs: Vec<Segment> = Vec::new();
    segs.push(seg_str("│ ", connector));
    segs.push(seg(build_section_divider(label, width.saturating_sub(4) as usize), Tone::TextMuted));
    let l = StyledLine { segments: segs, highlighted: false };
    assert(l@.segments =~= divider_line(label@, width, connector).segments);
    l
}

fn stack_rows(st: &Option<Stacktrace>, connector: Tone) -> (r: Vec<StyledLine>)
    ensures
        line_views(r@) == stack_lines(
            match st {
                Some(s) => Some(s@),
                None => None,
            },
            connector,
        ),
{
    proof {
        reveal_strlit("│   ");
        reveal_strlit("│");
    }
    let mut lines: Vec<StyledLine> = Vec::new();
    match st {
        Some(s) => {
            let ghost sv = s@;
            if !s.exception_summary.as_str().is_empty() {
                let mut segs: Vec<Segment> = Vec::new();
                segs.push(seg_str("│   ", connector));
                segs.push(seg(s.exception_summary.clone(), Tone::Text));
                let l = StyledLine { segments: segs, highlighted: false };
                assert(l@.segments =~= seq![styled("│   "@, connector), styled(sv.exception_summary, Tone::Text)]);
                lines.push(l);
            }
            let ghost summary = line_views(lines@);
            assert(summary =~= (if sv.exception_summary.len() > 0 {
                seq![plain_line(seq![styled("│   "@, connector), styled(sv.exception_summary, Tone::Text)])]
            } else {
                seq![]
            }));
            if s.frames.len() > 0 {
                let mut segs: Vec<Segment> = Vec::new();
                segs.push(seg_str("│", connector));
                let l = StyledLine { segments: segs, highlighted: false };
                assert(l@.segments =~= seq![styled("│"@, connector)]);
                lines.push(l);
                let ghost rows = Seq::new(
                    sv.frames.len(),
                    |i: int| plain_line(seq![styled("│   "@, connector), styled(sv.frames[i], Tone::TextDim)]),
                );
                let ghost head = summary + seq![plain_line(seq![styled("│"@, connector)])];
                assert(line_views(lines@) =~= head);
                let mut i: usize = 0;
                while i < s.frames.len()
                    invariant
                        0 <= i <= s.frames.len(),
                        sv == s@,
                        rows == Seq::new(
                            sv.frames.len(),
                            |i: int| plain_line(seq![styled("│   "@, connector), styled(sv.frames[i], Tone::TextDim)]),
                        ),
                        line_views(lines@) == head + rows.take(i as int),
                    decreases s.frames.len() - i,
                {
                    let ghost before = lines@;
                    let mut segs: Vec<Segment> = Vec::new();
                    segs.push(seg_str("│   ", connector));
                    segs.push(seg(s.frames[i].clone(), Tone::TextDim));
                    let l = StyledLine { segments: segs, highlighted: false };
                    assert(l@.segments =~= rows[i as int].segments);
                    lines.push(l);
                    assert(line_views(lines@) =~= line_views(before).push(l@));
                    assert(rows.take(i + 1) =~= rows.take(i as int).push(rows[i as int]));
                    i += 1;
                }
                assert(rows.take(s.frames.len() as int) =~= rows);
            } else {
                assert(line_views(lines@) =~= summary + Seq::<LineView>::empty());
            }
        },
        None => {
            assert(line_views(lines@) =~= Seq::<LineView>::empty());
        },
    }
    lines
}

/// The detail lines of an expanded entry.
pub fn build_expanded_lines(entry: &LogEntry, available_width: u16) -> (r: Vec<StyledLine>)
    ensures
        line_views(r@) == expanded_lines(
            entry@,
            available_width,
            fields_of_block(entry@.payload),
            fields_of_block(entry@.context),
        ),
{
    let color = level_color(&entry.level);
    let mut lines: Vec<StyledLine> = Vec::new();
    let has_both = entry.payload.is_some() && entry.context.is_some();
    proof {
        reveal_strlit("Payload");
        reveal_strlit("Context");
    }
    let ghost both = entry@.payload is Some && entry@.context is Some;
    let ghost c = level_tone(entry@.level);
    let ghost payload_part = match entry@.payload {
        Some(p) => (if both {
            seq![divider_line("Payload"@, available_width, c)]
        } else {
            seq![]
        }) + json_block_lines(p, fields_of_block(entry@.payload), c),
        None => seq![],
    };
    let ghost context_part = match entry@.context {
        Some(x) => (if both {
            seq![divider_line("Context"@, available_width, c)]
        } else {
            seq![]
        }) + json_block_lines(x, fields_of_block(entry@.context), c),
        None => seq![],
    };
    if let Some(payload_str) = &entry.payload {
        if has_both {
            lines.push(divider_row("Payload", available_width, color));
        }
        assert(line_views(lines@) =~= (if both {
            seq![divider_line("Payload"@, available_width, c)]
        } else {
            seq![]
        }));
        let fields = parse_json_object(payload_str.as_str());
        append_lines(&mut lines, render_json_lines(payload_str.as_str(), fields, color));
    }
    assert(line_views(lines@) =~= payload_part);
    let ghost after_payload = line_views(lines@);
    if let Some(context_str) = &entry.context {
        if has_both {
            lines.push(divider_row("Context", available_width, color));
        }
        assert(line_views(lines@) =~= after_payload + (if both {
            seq![divider_line("Context"@, available_width, c)]
        } else {
            seq![]
        }));
        let fields = parse_json_object(context_str.as_str());
        append_lines(&mut lines, render_json_lines(context_str.as_str(), fields, color));
    }
    assert(line_views(lines@) =~= payload_part + context_part);
    append_lines(&mut lines, stack_rows(&entry.stacktrace, color));
    assert(line_views(lines@) =~= expanded_lines(
        entry@,
        available_width,
        fields_of_block(entry@.payload),
        fields_of_block(entry@.context),
    ));
    lines
}


/// A line, on the selection background when `on` holds.
pub open spec fn highlight(l: LineView, on: bool) -> LineView {
    LineView { segments: l.segments, highlighted: on }
}

/// The lines of one entry: its one-line form, then its details when expanded;
/// the selected entry's lines on the selection background.
pub open spec fn entry_block(e: EntryView, selected: bool, expanded: bool, width: u16) -> Seq<LineView> {
    let details = if expanded {
        expanded_lines(e, width, fields_of_block(e.payload), fields_of_block(e.context))
    } else {
        seq![]
    };
    seq![highlight(collapsed_line(e, selected, width), selected)] + details.map_values(|l: LineView| highlight(l, selected))
}

/// The lines of the listed entries, in order.
pub open spec fn entry_rows(es: Seq<LogEntry>, idxs: Seq<usize>, selected: usize, expanded: Set<usize>, width: u16) -> Seq<LineView>
    decreases idxs.len(),
{
    if idxs.len() == 0 {
        seq![]
    } else {
        let i = idxs.last();
        entry_rows(es, idxs.drop_last(), selected, expanded, width) + entry_block(es[i as int]@, i == selected, expanded.contains(i), width)
    }
}

/// Where the selected entry's lines start and how many there are; `(0, 1)`
/// when it is not listed.
pub open spec fn selection_span(es: Seq<LogEntry>, idxs: Seq<usize>, selected: usize, expanded: Set<usize>, width: u16) -> (nat, nat)
    decreases idxs.len(),
{
    if idxs.len() == 0 {
        (0, 1)
    } else {
        let i = idxs.last();
        if i == selected {
            (
                entry_rows(es, idxs.drop_last(), selected, expanded, width).len(),
                entry_block(es[i as int]@, true, expanded.contains(i), width).len(),
            )
        } else {
            selection_span(es, idxs.drop_last(), selected, expanded, width)
        }
    }
}

/// The first line shown: zero when everything fits; otherwise the current
/// offset, moved just enough to bring the selected lines into sight.
pub open spec fn scroll_for(total: nat, inner: nat, start: nat, count: nat, current: nat) -> u16 {
    if total <= inner {
        0
    } else if start < current {
        start as u16
    } else if start + count > current + inner {
        sat_sub((start + count) as int, inner as int) as u16
    } else {
        current as u16
    }
}

/// The title of the entries pane.
pub open spec fn pane_title(count: nat, mode: Option<LogViewMode>, filter: Option<LogLevel>) -> Seq<char> {
    " Logs ["@ + decimal(count) + "] "@ + mode_label(
        match mode {
            Some(m) => m,
            None => LogViewMode::Live,
        },
    ) + " | Level: "@ + (match filter {
        None => "All"@,
        Some(l) => level_display(l),
    }) + " "@
}

/// The search bar: the query being typed, or the query in force, or nothing.
pub open spec fn search_bar(input_mode: bool, query: Seq<char>) -> Seq<SegmentView> {
    if input_mode {
        seq![styled("Search: "@, Tone::Accent), styled(query, Tone::Text), styled("█"@, Tone::Accent)]
    } else if query.len() > 0 {
        seq![
            styled("Search: "@, Tone::TextMuted),
            styled("\""@ + query + "\""@, Tone::TextDim),
            styled(" (press / to edit)"@, Tone::TextMuted),
        ]
    } else {
        seq![]
    }
}

/// The key hints under the pane.
pub open spec fn footer_hints(input_mode: bool, focused: bool) -> Seq<SegmentView> {
    if input_mode {
        seq![
            styled("[Esc] "@, Tone::Accent),
            styled("Cancel"@, Tone::TextDim),
            raw("  "@),
            styled("[Enter] "@, Tone::Accent),
            styled("Confirm"@, Tone::TextDim),
        ]
    } else if focused {
        seq![
            styled("[j/k] "@, Tone::Accent),
            styled("Navigate"@, Tone::TextDim),
            raw("  "@),
            styled("[Enter] "@, Tone::Accent),
            styled("Expand"@, Tone::TextDim),
            raw("  "@),
            styled("[e/E] "@, Tone::Accent),
            styled("Expand/Collapse All"@, Tone::TextDim),
            raw("  "@),
            styled("[/] "@, Tone::Accent),
            styled("Search"@, Tone::TextDim),
            raw("  "@),
            styled("[f] "@, Tone::Accent),
            styled("Level"@, Tone::TextDim),
            raw("  "@),
            styled("[g/G] "@, Tone::Accent),
            styled("Top/Bottom"@, Tone::TextDim),
        ]
    } else {
        seq![]
    }
}

/// Everything the entries pane draws.
pub struct EntriesPane {
    pub title: String,
    pub lines: Vec<StyledLine>,
    pub scroll: u16,
    pub scrollbar: Option<(usize, usize)>,
    pub search: Vec<Segment>,
    pub footer: Vec<Segment>,
}

/// The columns left for text in a pane `width` wide: borders, padding and
/// the scroll bar take six.
pub open spec fn content_width(width: u16) -> u16 {
    sat_sub(width as int, 6) as u16
}

/// Whether every listed entry of the tab can be drawn at this width.
pub open spec fn drawable(tab: &LogsTabState, width: u16) -> bool {
    forall|q: int| 0 <= q < tab.shown().len() ==> collapsible(#[trigger] tab.entries@[tab.shown()[q] as int]@, content_width(width))
}

/// Lines of the pane once entries are drawn (the rows above).
pub open spec fn pane_lines(tab: &LogsTabState, width: u16) -> Seq<LineView> {
    entry_rows(tab.entries@, tab.shown(), tab.selected_entry, tab.expanded_entries@, content_width(width))
}

fn search_segments(input_mode: bool, query: &String) -> (r: Vec<Segment>)
    ensures
        segment_views(r@) == search_bar(input_mode, query@),
{
    let mut r: Vec<Segment> = Vec::new();
    if input_mode {
        r.push(seg_str("Search: ", Tone::Accent));
        r.push(seg(query.clone(), Tone::Text));
        r.push(seg_str("█", Tone::Accent));
    } else if !query.as_str().is_empty() {
        r.push(seg_str("Search: ", Tone::TextMuted));
        let quoted = String::from_str("\"").concat(query.as_str()).concat("\"");
        proof {
            reveal_strlit("\"");
        }
        r.push(seg(quoted, Tone::TextDim));
        r.push(seg_str(" (press / to edit)", Tone::TextMuted));
    }
    assert(segment_views(r@) =~= search_bar(input_mode, query@));
    r
}

fn footer_segments(input_mode: bool, focused: bool) -> (r: Vec<Segment>)
    ensures
        segment_views(r@) == footer_hints(input_mode, focused),
{
    let mut r: Vec<Segment> = Vec::new();
    if input_mode {
        r.push(seg_str("[Esc] ", Tone::Accent));
        r.push(seg_str("Cancel", Tone::TextDim));
        r.push(raw_str("  "));
        r.push(seg_str("[Enter] ", Tone::Accent));
        r.push(seg_str("Confirm", Tone::TextDim));
    } else if focused {
        r.push(seg_str("[j/k] ", Tone::Accent));
        r.push(seg_str("Navigate", Tone::TextDim));
        r.push(raw_str("  "));
        r.push(seg_str("[Enter] ", Tone::Accent));
        r.push(seg_str("Expand", Tone::TextDim));
        r.push(raw_str("  "));
        r.push(seg_str("[e/E] ", Tone::Accent));
        r.push(seg_str("Expand/Collapse All", Tone::TextDim));
        r.push(raw_str("  "));
        r.push(seg_str("[/] ", Tone::Accent));
        r.push(seg_str("Search", Tone::TextDim));
        r.push(raw_str("  "));
        r.push(seg_str("[f] ", Tone::Accent));
        r.push(seg_str("Level", Tone::TextDim));
        r.push(raw_str("  "));
        r.push(seg_str("[g/G] ", Tone::Accent));
        r.push(seg_str("Top/Bottom", Tone::TextDim));
    }
    assert(segment_views(r@) =~= footer_hints(input_mode, focused));
    r
}

fn title_text(count: usize, mode: Option<LogViewMode>, filter_name: &str) -> (s: String)
    ensures
        s@ == " Logs ["@ + decimal(count as nat) + "] "@ + mode_label(
            match mode {
                Some(m) => m,
                None => LogViewMode::Live,
            },
        ) + " | Level: "@ + filter_name@ + " "@,
{
    let m = match mode {
        Some(m) => m,
        None => LogViewMode::Live,
    };
    let s = String::from_str(" Logs [").concat(format_usize(count).as_str()).concat("] ").concat(m.indicator()).concat(" | Level: ").concat(filter_name).concat(" ");
    proof {
        reveal_strlit(" Logs [");
        reveal_strlit("] ");
        reveal_strlit(" | Level: ");
        reveal_strlit(" ");
    }
    s
}

fn highlighted_lines(v: Vec<StyledLine>, on: bool) -> (r: Vec<StyledLine>)
    ensures
        line_views(r@) == line_views(v@).map_values(|l: LineView| highlight(l, on)),
{
    let mut r: Vec<StyledLine> = Vec::new();
    let mut v = v;
    let ghost orig = line_views(v@);
    let mut rev: Vec<StyledLine> = Vec::new();
    while v.len() > 0
        invariant
            orig.len() == v@.len() + rev@.len(),
            forall|q: int| 0 <= q < v@.len() ==> #[trigger] line_views(v@)[q] == orig[q],
            forall|q: int| 0 <= q < rev@.len() ==> #[trigger] line_views(rev@)[q] == highlight(orig[orig.len() - 1 - q], on),
        decreases v.len(),
    {
        let ghost vb = v@;
        let ghost rb = rev@;
        let mut l = v.pop().unwrap();
        assert(line_views(vb)[vb.len() - 1] == l@);
        l.highlighted = on;
        rev.push(l);
        assert forall|q: int| 0 <= q < v@.len() implies #[trigger] line_views(v@)[q] == orig[q] by {
            assert(v@[q] == vb[q]);
            assert(line_views(vb)[q] == orig[q]);
        }
        assert forall|q: int| 0 <= q < rev@.len() implies #[trigger] line_views(rev@)[q] == highlight(orig[orig.len() - 1 - q], on) by {
            if q < rb.len() {
                assert(rev@[q] == rb[q]);
                assert(line_views(rb)[q] == highlight(orig[orig.len() - 1 - q], on));
            }
        }
    }
    while rev.len() > 0
        invariant
            orig.len() == r@.len() + rev@.len(),
            forall|q: int| 0 <= q < rev@.len() ==> #[trigger] line_views(rev@)[q] == highlight(orig[orig.len() - 1 - q], on),
            forall|q: int| 0 <= q < r@.len() ==> #[trigger] line_views(r@)[q] == highlight(orig[q], on),
        decreases rev.len(),
    {
        let ghost vb = rev@;
        let ghost rb = r@;
        let l = rev.pop().unwrap();
        assert(line_views(vb)[vb.len() - 1] == l@);
        r.push(l);
        assert forall|q: int| 0 <= q < rev@.len() implies #[trigger] line_views(rev@)[q] == highlight(orig[orig.len() - 1 - q], on) by {
            assert(rev@[q] == vb[q]);
            assert(line_views(vb)[q] == highlight(orig[orig.len() - 1 - q], on));
        }
        assert forall|q: int| 0 <= q < r@.len() implies #[trigger] line_views(r@)[q] == highlight(orig[q], on) by {
            if q < rb.len() {
                assert(r@[q] == rb[q]);
                assert(line_views(rb)[q] == highlight(orig[q], on));
            }
        }
    }
    assert(line_views(r@) =~= orig.map_values(|l: LineView| highlight(l, on)));
    r
}


proof fn lemma_span_within(es: Seq<LogEntry>, idxs: Seq<usize>, selected: usize, expanded: Set<usize>, width: u16)
    ensures
        selection_span(es, idxs, selected, expanded, width) == (0nat, 1nat) || selection_span(es, idxs, selected, expanded, width).0
            + selection_span(es, idxs, selected, expanded, width).1 <= entry_rows(es, idxs, selected, expanded, width).len(),
    decreases idxs.len(),
{
    if idxs.len() > 0 {
        lemma_span_within(es, idxs.drop_last(), selected, expanded, width);
    }
}

fn entry_lines(entry: &LogEntry, is_selected: bool, is_expanded: bool, width: u16) -> (r: Vec<StyledLine>)
    requires
        collapsible(entry@, width),
    ensures
        line_views(r@) == entry_block(entry@, is_selected, is_expanded, width),
{
    let mut header = build_collapsed_line(entry, is_selected, width);
    header.highlighted = is_selected;
    let mut lines: Vec<StyledLine> = Vec::new();
    lines.push(header);
    let ghost first = line_views(lines@);
    if is_expanded {
        let expanded = build_expanded_lines(entry, width);
        append_lines(&mut lines, highlighted_lines(expanded, is_selected));
    } else {
        let ghost none: Seq<LineView> = seq![];
        assert(line_views(lines@) =~= first + none.map_values(|l: LineView| highlight(l, is_selected)));
    }
    lines
}

/// What the entries pane of `tab` in a `width` by `height` area shows: the
/// title, the entry lines, the scroll position (with the scroll bar's range
/// when the lines overflow), the search bar and the key hints.
pub open spec fn pane_of(p: EntriesPane, tab: &LogsTabState, width: u16, height: u16, is_focused: bool) -> bool {
    &&& p.title@ == pane_title(tab.shown().len(), tab.view_mode, tab.filter_level)
    &&& line_views(p.lines@) == pane_lines(tab, width)
    &&& ({
        let total = pane_lines(tab, width).len();
        let inner = sat_sub(height as int, 6);
        let span = selection_span(tab.entries@, tab.shown(), tab.selected_entry, tab.expanded_entries@, content_width(width));
        &&& p.scroll == scroll_for(total, inner, span.0, span.1, tab.scroll_offset as nat)
        &&& p.scrollbar == if total > inner {
            Some(((total - inner) as usize, p.scroll as usize))
        } else {
            None
        }
    })
    &&& segment_views(p.search@) == search_bar(tab.input_mode, tab.search_query@)
    &&& segment_views(p.footer@) == footer_hints(tab.input_mode, is_focused)
}

/// What the entries pane of the logs tab draws in a `width` by `height` area.
pub fn entries_pane(tab: &LogsTabState, width: u16, height: u16, is_focused: bool) -> (p: EntriesPane)
    requires
        drawable(tab, width),
        tab.scroll_offset + sat_sub(height as int, 6) <= usize::MAX,
    ensures
        pane_of(p, tab, width, height, is_focused),
{
    let filtered = tab.filtered_entry_indices();
    let _n = tab.entries.len();
    proof {
        lemma_shown_upto_increasing(tab.entries@, tab.filter_level, tab.search_query@, tab.entries@.len() as int);
    }
    let title = title_text(filtered.len(), tab.view_mode, tab.filter_name());
    let inner_height = height.saturating_sub(6) as usize;
    let cw = width.saturating_sub(6);
    let ghost es = tab.entries@;
    let ghost ex = tab.expanded_entries@;
    let mut all_lines: Vec<StyledLine> = Vec::new();
    let mut start: usize = 0;
    let mut count: usize = 1;
    let mut k: usize = 0;
    while k < filtered.len()
        invariant
            filtered@ == tab.shown(),
            forall|q: int| 0 <= q < filtered@.len() ==> #[trigger] filtered@[q] < tab.entries@.len(),
            drawable(tab, width),
            cw == content_width(width),
            es == tab.entries@,
            ex == tab.expanded_entries@,
            0 <= k <= filtered.len(),
            line_views(all_lines@) == entry_rows(es, filtered@.take(k as int), tab.selected_entry, ex, cw),
            (start as nat, count as nat) == selection_span(es, filtered@.take(k as int), tab.selected_entry, ex, cw),
        decreases filtered.len() - k,
    {
        let idx = filtered[k];
        let entry = &tab.entries[idx];
        let is_selected = idx == tab.selected_entry;
        let is_expanded = tab.expanded_entries.contains(&idx);
        proof {
            assert(filtered@.take(k + 1).drop_last() =~= filtered@.take(k as int));
            assert(filtered@.take(k + 1).last() == idx);
            assert(collapsible(tab.entries@[tab.shown()[k as int] as int]@, content_width(width)));
        }
        let block = entry_lines(entry, is_selected, is_expanded, cw);
        if is_selected {
            start = all_lines.len();
            count = block.len();
        }
        append_lines(&mut all_lines, block);
        k += 1;
    }
    assert(filtered@.take(filtered.len() as int) =~= filtered@);
    let total = all_lines.len();
    proof {
        lemma_span_within(es, filtered@, tab.selected_entry, ex, cw);
    }
    let scroll: u16 = if total <= inner_height {
        0
    } else {
        let selected_end = start + count;
        let current = tab.scroll_offset;
        if start < current {
            start as u16
        } else if selected_end > current + inner_height {
            selected_end.saturating_sub(inner_height) as u16
        } else {
            current as u16
        }
    };
    let scrollbar = if total > inner_height {
        Some((total - inner_height, scroll as usize))
    } else {
        None
    };
    EntriesPane {
        title,
        lines: all_lines,
        scroll,
        scrollbar,
        search: search_segments(tab.input_mode, &tab.search_query),
        footer: footer_segments(tab.input_mode, is_focused),
    }
}


/// The row of one log file: cursor mark, the name (bold when it is the open
/// file) and, for `laravel.log`, the live mark; the cursor row is highlighted.
pub open spec fn file_row(name: Seq<char>, selected: bool, active: bool) -> LineView {
    let name_seg = if active {
        SegmentView { text: name, tone: Some(Tone::Text), bold: true }
    } else {
        styled(name, Tone::TextDim)
    };
    let live = if name == "laravel.log"@ {
        seq![raw(" "@), styled("◉"@, Tone::Success)]
    } else {
        seq![]
    };
    LineView { segments: seq![cursor_segment(selected), name_seg] + live, highlighted: selected }
}

/// The rows of the file list; the cursor shows only while the list has focus.
pub open spec fn file_rows(files: Seq<Seq<char>>, selected_index: usize, active: Option<Seq<char>>, focused: bool) -> Seq<LineView> {
    Seq::new(files.len(), |i: int| file_row(files[i], focused && i == selected_index, active == Some(files[i])))
}

/// The rows of the log file list.
pub fn file_tree_lines(tree: &LogFileTree, active_file: Option<&str>, is_focused: bool) -> (r: Vec<StyledLine>)
    ensures
        line_views(r@) == file_rows(crate::entry::texts(tree.files@), tree.selected_index, match active_file {
            Some(a) => Some(a@),
            None => None,
        }, is_focused),
{
    let ghost active = match active_file {
        Some(a) => Some(a@),
        None => None,
    };
    let ghost target = file_rows(crate::entry::texts(tree.files@), tree.selected_index, active, is_focused);
    proof {
        reveal_strlit("laravel.log");
        reveal_strlit(" ");
        reveal_strlit("◉");
    }
    let mut lines: Vec<StyledLine> = Vec::new();
    let mut i: usize = 0;
    while i < tree.files.len()
        invariant
            0 <= i <= tree.files.len(),
            active == match active_file {
                Some(a) => Some(a@),
                None => None,
            },
            target == file_rows(crate::entry::texts(tree.files@), tree.selected_index, active, is_focused),
            line_views(lines@) == target.take(i as int),
        decreases tree.files.len() - i,
    {
        let name = &tree.files[i];
        let is_selected = is_focused && i == tree.selected_index;
        let is_active = match active_file {
            Some(a) => crate::text::str_eq(a, name.as_str()),
            None => false,
        };
        let is_live = crate::text::str_eq(name.as_str(), "laravel.log");
        let mut segs: Vec<Segment> = Vec::new();
        segs.push(cursor_mark(is_selected));
        if is_active {
            segs.push(Segment { text: name.clone(), tone: Some(Tone::Text), bold: true });
        } else {
            segs.push(seg(name.clone(), Tone::TextDim));
        }
        if is_live {
            segs.push(raw_str(" "));
            segs.push(seg_str("◉", Tone::Success));
        }
        let line = StyledLine { segments: segs, highlighted: is_selected };
        assert(line@.segments =~= target[i as int].segments);
        let ghost before = lines@;
        lines.push(line);
        assert(line_views(lines@) =~= line_views(before).push(line@));
        assert(target.take(i + 1) =~= target.take(i as int).push(target[i as int]));
        i += 1;
    }
    assert(target.take(tree.files.len() as int) =~= target);
    lines
}


/// Whether the timestamp can be cut where `time_part` cuts it.
pub fn time_cuttable_exec(t: &str) -> (b: bool)
    ensures
        b == time_cuttable(t@),
{
    let n = t.as_bytes().len();
    if n >= 19 {
        t.is_char_boundary(11) && t.is_char_boundary(19)
    } else if n >= 8 {
        t.is_char_boundary(8)
    } else {
        true
    }
}

/// Whether an entry's one-line form can be built at this width.
pub fn collapsible_exec(entry: &LogEntry, width: u16) -> (b: bool)
    ensures
        b == collapsible(entry@, width),
{
    if !time_cuttable_exec(entry.timestamp.as_str()) {
        return false;
    }
    let right = indicator_text(entry);
    let right_len: u16 = right.as_str().as_bytes().len() as u16;
    let w = width.saturating_sub(21).saturating_sub(right_len) as usize;
    let m = entry.message.as_str();
    if m.as_bytes().len() > w && w > 3 {
        m.is_char_boundary(w - 3)
    } else {
        true
    }
}

/// Whether every listed entry of the tab can be drawn in a pane `width` wide.
pub fn pane_drawable(tab: &LogsTabState, width: u16) -> (b: bool)
    ensures
        b == drawable(tab, width),
{
    let filtered = tab.filtered_entry_indices();
    let _n = tab.entries.len();
    proof {
        lemma_shown_upto_increasing(tab.entries@, tab.filter_level, tab.search_query@, tab.entries@.len() as int);
    }
    let cw = width.saturating_sub(6);
    let mut k: usize = 0;
    while k < filtered.len()
        invariant
            filtered@ == tab.shown(),
            forall|q: int| 0 <= q < filtered@.len() ==> #[trigger] filtered@[q] < tab.entries@.len(),
            cw == content_width(width),
            0 <= k <= filtered.len(),
            forall|q: int| 0 <= q < k ==> collapsible(#[trigger] tab.entries@[tab.shown()[q] as int]@, content_width(width)),
        decreases filtered.len() - k,
    {
        let idx = filtered[k];
        if !collapsible_exec(&tab.entries[idx], cw) {
            return false;
        }
        k += 1;
    }
    true
}


/// When the lines overflow the pane, the scroll position brings the selected
/// entry's lines into sight whenever they fit, moving no further than needed:
/// it stays put when they are already in sight.
pub proof fn law_scroll_shows_selection(total: nat, inner: nat, start: nat, count: nat, current: nat)
    requires
        total > inner,
        start + count <= total,
        count <= inner,
        total <= u16::MAX,
    ensures
        scroll_for(total, inner, start, count, current) <= start,
        start + count <= scroll_for(total, inner, start, count, current) + inner,
        current <= start && start + count <= current + inner ==> scroll_for(total, inner, start, count, current) == current,
{
}


/// The entries pane, or `None` when some listed entry cannot be cut where its
/// one-line form cuts it, or the scroll offset plus the pane's height
/// overflows `usize`.
pub fn checked_entries_pane(tab: &LogsTabState, width: u16, height: u16, is_focused: bool) -> (r: Option<EntriesPane>)
    ensures
        r is Some <==> (drawable(tab, width) && tab.scroll_offset + sat_sub(height as int, 6) <= usize::MAX),
        r matches Some(p) ==> pane_of(p, tab, width, height, is_focused),
{
    if !pane_drawable(tab, width) {
        return None;
    }
    let inner = height.saturating_sub(6) as usize;
    if tab.scroll_offset > usize::MAX - inner {
        return None;
    }
    Some(entries_pane(tab, width, height, is_focused))
}


/// The number in the entries pane's title is the number of entries the pane
/// lists, those that pass the level filter and match the search, not the
/// number of entries held: the title reads " Logs [n] ", the mode, " | Level: ",
/// the filter's name ("All" with none) and a space.
pub proof fn law_title_counts_listed_entries(p: EntriesPane, tab: &LogsTabState, width: u16, height: u16, is_focused: bool)
    requires
        pane_of(p, tab, width, height, is_focused),
    ensures
        p.title@ == " Logs ["@ + decimal(tab.entries@.filter(|e: LogEntry| entry_shown(e, tab.filter_level, tab.search_query@)).len())
            + "] "@ + mode_label(
            match tab.view_mode {
                Some(m) => m,
                None => LogViewMode::Live,
            },
        ) + " | Level: "@ + (match tab.filter_level {
            None => "All"@,
            Some(l) => level_display(l),
        }) + " "@,
{
    let es = tab.entries@;
    lemma_shown_upto_count(es, tab.filter_level, tab.search_query@, es.len() as int);
    assert(es.take(es.len() as int) =~= es);
}

} // verus!
