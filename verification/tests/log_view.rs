use laramux::entry::{LogEntry, Stacktrace};
use laramux::files::LogFileTree;
use laramux::level::LogLevel;
use laramux::logs_tab::LogsTabState;
use laramux::view::{
    build_collapsed_line, checked_entries_pane, build_expanded_lines, build_section_divider, entries_pane, extract_time,
    file_tree_lines, render_json_lines, level_color, level_text, JsonValue, Segment, StyledLine, Tone,
};

fn parts(segments: &[Segment]) -> Vec<(String, Option<Tone>, bool)> {
    segments.iter().map(|s| (s.text.clone(), s.tone, s.bold)).collect()
}

fn line_parts(line: &StyledLine) -> Vec<(String, Option<Tone>, bool)> {
    parts(&line.segments)
}

fn st(text: &str, tone: Tone) -> (String, Option<Tone>, bool) {
    (text.to_string(), Some(tone), false)
}

fn raw(text: &str) -> (String, Option<Tone>, bool) {
    (text.to_string(), None, false)
}

fn entry(level: LogLevel, message: &str) -> LogEntry {
    LogEntry {
        timestamp: "2024-01-26 10:30:45".to_string(),
        environment: "local".to_string(),
        level,
        message: message.to_string(),
        payload: None,
        context: None,
        stacktrace: None,
        raw: message.to_string(),
    }
}

#[test]
fn level_labels_and_colors() {
    assert_eq!(level_text(&LogLevel::Warning), "     WARN");
    assert_eq!(level_text(&LogLevel::Emergency), "EMERGENCY");
    assert_eq!(level_text(&LogLevel::Unknown).len(), 9);
    assert_eq!(level_color(&LogLevel::Alert), Tone::LogCritical);
    assert_eq!(level_color(&LogLevel::Unknown), Tone::TextMuted);
}

#[test]
fn time_is_cut_from_timestamp() {
    assert_eq!(extract_time("2024-01-26 10:30:45"), "10:30:45");
    assert_eq!(extract_time("abcdefghij"), "abcdefgh");
    assert_eq!(extract_time("abc"), "abc");
    assert_eq!(extract_time(""), "");
}

#[test]
fn divider_fills_to_width_in_bytes() {
    let d = build_section_divider("Payload", 26);
    assert_eq!(d, format!("┄ Payload ┄{}", "┄".repeat(11)));
    assert_eq!(build_section_divider("Context", 3), "┄ Context ┄");
}

#[test]
fn collapsed_line_with_indicators() {
    let mut e = entry(LogLevel::Error, "Something broke");
    e.payload = Some("{}".to_string());
    e.stacktrace = Some(Stacktrace {
        exception_summary: String::new(),
        frames: vec!["#0 a".to_string(), "#1 b".to_string(), "#2 c".to_string()],
    });
    let line = build_collapsed_line(&e, false, 60);
    assert!(!line.highlighted);
    assert_eq!(
        line_parts(&line),
        vec![
            raw("  "),
            st("10:30:45", Tone::TextMuted),
            raw(" "),
            ("    ERROR".to_string(), Some(Tone::LogError), true),
            raw(" "),
            st("Something broke    ", Tone::Text),
            st(" {…}  ▶ 3 frames", Tone::TextMuted),
        ]
    );
}

#[test]
fn collapsed_line_truncates_long_messages() {
    let e = entry(LogLevel::Info, "abcdefghijklmnopqrstuvwxyz");
    let line = build_collapsed_line(&e, true, 30);
    let p = line_parts(&line);
    assert_eq!(p[0], st("▌ ", Tone::Accent));
    assert_eq!(p[5], st("abcdef...", Tone::Text));
    assert_eq!(p.len(), 6);
    let narrow = build_collapsed_line(&e, false, 10);
    assert_eq!(line_parts(&narrow)[5], st("abcdefghijklmnopqrstuvwxyz", Tone::Text));
}

#[test]
fn expanded_lines_show_blocks_and_stack() {
    let mut e = entry(LogLevel::Error, "boom");
    e.payload = Some("{\"b\":1,\"a\":\"x\"}".to_string());
    e.context = Some("oops".to_string());
    e.stacktrace = Some(Stacktrace {
        exception_summary: "RuntimeException: boom".to_string(),
        frames: vec!["#0 a".to_string(), "#1 b".to_string()],
    });
    let lines = build_expanded_lines(&e, 30);
    let p: Vec<_> = lines.iter().map(line_parts).collect();
    let fill = "┄".repeat(11);
    assert_eq!(p.len(), 9);
    assert_eq!(p[0], vec![st("│ ", Tone::LogError), st(&format!("┄ Payload ┄{}", fill), Tone::TextMuted)]);
    assert_eq!(p[1], vec![st("│   ", Tone::LogError), st("a: ", Tone::Accent), st("\"x\"", Tone::Text)]);
    assert_eq!(p[2], vec![st("│   ", Tone::LogError), st("b: ", Tone::Accent), st("1", Tone::LogNotice)]);
    assert_eq!(p[3], vec![st("│ ", Tone::LogError), st(&format!("┄ Context ┄{}", fill), Tone::TextMuted)]);
    assert_eq!(p[4], vec![st("│   ", Tone::LogError), st("oops", Tone::Text)]);
    assert_eq!(p[5], vec![st("│   ", Tone::LogError), st("RuntimeException: boom", Tone::Text)]);
    assert_eq!(p[6], vec![st("│", Tone::LogError)]);
    assert_eq!(p[7], vec![st("│   ", Tone::LogError), st("#0 a", Tone::TextDim)]);
    assert_eq!(p[8], vec![st("│   ", Tone::LogError), st("#1 b", Tone::TextDim)]);
}

#[test]
fn expanded_single_block_has_no_divider() {
    let mut e = entry(LogLevel::Info, "m");
    e.context = Some("{\"user\":null,\"ok\":true,\"tags\":[1,2]}".to_string());
    let p: Vec<_> = build_expanded_lines(&e, 40).iter().map(line_parts).collect();
    assert_eq!(
        p,
        vec![
            vec![st("│   ", Tone::LogInfo), st("ok: ", Tone::Accent), st("true", Tone::LogNotice)],
            vec![st("│   ", Tone::LogInfo), st("tags: ", Tone::Accent), st("[1,2]", Tone::Text)],
            vec![st("│   ", Tone::LogInfo), st("user: ", Tone::Accent), st("null", Tone::TextMuted)],
        ]
    );
}

#[test]
fn json_lines_from_given_fields() {
    let fields = vec![("k".to_string(), JsonValue::Bool(false)), ("n".to_string(), JsonValue::Number("2.5".to_string()))];
    let lines = render_json_lines("ignored", Some(fields), Tone::Accent);
    assert_eq!(line_parts(&lines[0]), vec![st("│   ", Tone::Accent), st("k: ", Tone::Accent), st("false", Tone::LogNotice)]);
    assert_eq!(line_parts(&lines[1])[2], st("2.5", Tone::LogNotice));
    let fallback = render_json_lines("[1]", None, Tone::Text);
    assert_eq!(line_parts(&fallback[0]), vec![st("│   ", Tone::Text), st("[1]", Tone::Text)]);
}

#[test]
fn entries_pane_fits_without_scrolling() {
    let mut tab = LogsTabState::new();
    tab.add_entry(entry(LogLevel::Info, "one"));
    tab.add_entry(entry(LogLevel::Info, "two"));
    tab.add_entry(entry(LogLevel::Info, "three"));
    tab.selected_entry = 1;
    let pane = entries_pane(&tab, 40, 10, true);
    assert_eq!(pane.title, " Logs [3] ⏺ LIVE | Level: All ");
    assert_eq!(pane.lines.len(), 3);
    assert!(pane.lines[1].highlighted);
    assert!(!pane.lines[0].highlighted);
    assert_eq!(pane.scroll, 0);
    assert!(pane.scrollbar.is_none());
    assert!(pane.search.is_empty());
    assert_eq!(pane.footer.len(), 17);
    assert_eq!(pane.footer[0].text, "[j/k] ");
}

#[test]
fn entries_pane_scrolls_to_selection() {
    let mut tab = LogsTabState::new();
    for i in 0..10 {
        tab.add_entry(entry(LogLevel::Debug, &format!("entry {}", i)));
    }
    tab.selected_entry = 8;
    tab.search_query = String::new();
    let pane = entries_pane(&tab, 50, 8, false);
    assert_eq!(pane.lines.len(), 10);
    assert_eq!(pane.scroll, 7);
    assert_eq!(pane.scrollbar, Some((8, 7)));
    assert!(pane.footer.is_empty());

    tab.scroll_offset = 9;
    let pane = entries_pane(&tab, 50, 8, false);
    assert_eq!(pane.scroll, 8);

    tab.scroll_offset = 7;
    tab.input_mode = true;
    tab.search_query = "entry".to_string();
    let pane = entries_pane(&tab, 50, 8, false);
    assert_eq!(pane.scroll, 7);
    assert_eq!(parts(&pane.search), vec![st("Search: ", Tone::Accent), st("entry", Tone::Text), st("█", Tone::Accent)]);
    assert_eq!(pane.footer[1].text, "Cancel");
}

#[test]
fn entries_pane_search_hint_when_not_typing() {
    let mut tab = LogsTabState::new();
    tab.add_entry(entry(LogLevel::Error, "payment failed"));
    tab.search_query = "pay".to_string();
    let pane = entries_pane(&tab, 40, 20, true);
    assert_eq!(
        parts(&pane.search),
        vec![st("Search: ", Tone::TextMuted), st("\"pay\"", Tone::TextDim), st(" (press / to edit)", Tone::TextMuted)]
    );
}

#[test]
fn file_tree_rows() {
    let mut tree = LogFileTree::new();
    tree.update_files(vec!["auth.log".to_string(), "laravel.log".to_string()]);
    let lines = file_tree_lines(&tree, Some("auth.log"), true);
    assert_eq!(
        line_parts(&lines[0]),
        vec![st("▌ ", Tone::Accent), st("laravel.log", Tone::TextDim), raw(" "), st("◉", Tone::Success)]
    );
    assert!(lines[0].highlighted);
    assert_eq!(line_parts(&lines[1]), vec![raw("  "), ("auth.log".to_string(), Some(Tone::Text), true)]);
    assert!(!lines[1].highlighted);
    let unfocused = file_tree_lines(&tree, None, false);
    assert_eq!(line_parts(&unfocused[0])[0], raw("  "));
    assert!(!unfocused[0].highlighted);
}

#[test]
fn checked_pane_refuses_what_cannot_be_cut() {
    let mut tab = LogsTabState::new();
    tab.add_entry(entry(LogLevel::Info, "ééééééééééééééééééééé"));
    assert!(checked_entries_pane(&tab, 40, 10, true).is_some());
    assert!(checked_entries_pane(&tab, 37, 10, true).is_none());
    tab.scroll_offset = usize::MAX;
    assert!(checked_entries_pane(&tab, 200, 10, true).is_none());
    tab.scroll_offset = 0;
    let pane = checked_entries_pane(&tab, 200, 10, true).unwrap();
    assert_eq!(pane.lines.len(), 1);
}
