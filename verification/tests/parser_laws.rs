use laramux::entry::LogEntry;
use laramux::parser::{header_cuttable_exec, LogEntryParser};

const LOG: &str = "[2024-01-26 10:30:45] local.ERROR: Boom {\"id\":1}\n\
[stacktrace]\n\
#0 /app/a.php(1): f()\n\
#1 {main}\n\
[2024-01-26 10:30:46] local.INFO: Fine {\"a\":1} {\"b\":2}\n\
[2024-01-26 10:30:47] production.WARNING: Careful\n";

fn summary(entries: &[LogEntry]) -> Vec<(String, String, Option<String>, Option<String>, usize)> {
    entries
        .iter()
        .map(|e| (e.timestamp.clone(), e.message.clone(), e.payload.clone(), e.context.clone(), e.frame_count()))
        .collect()
}

fn parse_whole(text: &str) -> Vec<LogEntry> {
    let mut p = LogEntryParser::new();
    p.feed(text);
    let mut out = p.drain_complete();
    out.extend(p.flush());
    out
}

#[test]
fn feeding_in_pieces_matches_feeding_at_once() {
    let whole = parse_whole(LOG);
    assert_eq!(whole.len(), 3);
    let lines: Vec<&str> = LOG.split_inclusive('\n').collect();
    for cut in 0..=lines.len() {
        let mut p = LogEntryParser::new();
        p.feed(&lines[..cut].concat());
        let mut out = p.drain_complete();
        p.feed(&lines[cut..].concat());
        out.extend(p.drain_complete());
        out.extend(p.flush());
        assert_eq!(summary(&out), summary(&whole));
    }
}

#[test]
fn whole_log_parses_into_three_entries() {
    let entries = parse_whole(LOG);
    assert_eq!(entries[0].message, "Boom");
    assert_eq!(entries[0].payload, Some("{\"id\":1}".to_string()));
    assert_eq!(entries[0].frame_count(), 2);
    assert_eq!(entries[1].payload, Some("{\"a\":1}".to_string()));
    assert_eq!(entries[1].context, Some("{\"b\":2}".to_string()));
    assert_eq!(entries[2].environment, "production");
    assert!(!entries[2].has_expandable_content());
}

#[test]
fn flush_after_drain_gives_the_open_entry_once() {
    let mut p = LogEntryParser::new();
    p.feed("[2024-01-26 10:30:45] local.INFO: only one\n");
    assert!(p.drain_complete().is_empty());
    let flushed = p.flush();
    assert_eq!(flushed.len(), 1);
    assert!(p.flush().is_empty());
}

#[test]
fn entries_split_before_each_timestamp_line() {
    let text = "stray first line\n[2024-01-26 10:30:45] local.INFO: a\ncont\n[2024-01-26 10:30:46] local.INFO: b";
    let mut p = LogEntryParser::new();
    p.feed(text);
    assert!(p.can_drain());
    let drained = p.drain_complete();
    assert_eq!(drained.len(), 2);
    assert!(p.can_flush());
    let rest = p.flush();
    assert_eq!(rest.len(), 1);
    assert_eq!(drained[0].raw, "stray first line");
    assert_eq!(drained[1].raw, "[2024-01-26 10:30:45] local.INFO: a\ncont");
    assert_eq!(rest[0].raw, "[2024-01-26 10:30:46] local.INFO: b");
}

#[test]
fn header_cut_inside_a_character_is_reported() {
    assert!(header_cuttable_exec("[2024-01-26 10:30:45] local.INFO: ok"));
    assert!(!header_cuttable_exec("[2024-01-26 10:30:45]é local.INFO: bad"));
    assert!(header_cuttable_exec("plain é line"));
    let mut p = LogEntryParser::new();
    p.feed("[2024-01-26 10:30:45]é bad\n[2024-01-26 10:30:46] local.INFO: ok\n");
    assert!(!p.can_drain());
    assert!(!p.can_flush());
}
