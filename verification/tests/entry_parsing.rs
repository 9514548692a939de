use laramux::level::LogLevel;
use laramux::parser::LogEntryParser;

#[test]
fn test_parse_simple_info_no_json() {
    let mut parser = LogEntryParser::new();
    parser.feed("[2024-01-26 10:30:45] local.INFO: User logged in successfully");
    let entries = parser.flush();

    assert_eq!(entries.len(), 1);
    let entry = &entries[0];
    assert_eq!(entry.timestamp, "2024-01-26 10:30:45");
    assert_eq!(entry.environment, "local");
    assert!(matches!(entry.level, LogLevel::Info));
    assert_eq!(entry.message, "User logged in successfully");
    assert!(entry.payload.is_none());
    assert!(entry.context.is_none());
    assert!(entry.stacktrace.is_none());
    assert!(!entry.has_expandable_content());
    assert_eq!(entry.frame_count(), 0);
}

#[test]
fn test_parse_debug_with_single_json() {
    let mut parser = LogEntryParser::new();
    parser.feed(
        r#"[2024-01-26 10:30:45] local.DEBUG: Query executed {"sql":"SELECT * FROM users","time":3.5}"#,
    );
    let entries = parser.flush();

    assert_eq!(entries.len(), 1);
    let entry = &entries[0];
    assert_eq!(entry.timestamp, "2024-01-26 10:30:45");
    assert_eq!(entry.environment, "local");
    assert!(matches!(entry.level, LogLevel::Debug));
    assert_eq!(entry.message, "Query executed");
    assert_eq!(
        entry.payload.as_deref(),
        Some(r#"{"sql":"SELECT * FROM users","time":3.5}"#)
    );
    assert!(entry.context.is_none());
    assert!(entry.has_expandable_content());
}

#[test]
fn test_parse_info_with_dual_json() {
    let mut parser = LogEntryParser::new();
    parser.feed(
        r#"[2024-01-26 10:30:45] production.INFO: Payment processed {"amount":99.99,"currency":"USD"} {"user_id":42,"ip":"127.0.0.1"}"#,
    );
    let entries = parser.flush();

    assert_eq!(entries.len(), 1);
    let entry = &entries[0];
    assert!(matches!(entry.level, LogLevel::Info));
    assert_eq!(entry.message, "Payment processed");
    assert_eq!(
        entry.payload.as_deref(),
        Some(r#"{"amount":99.99,"currency":"USD"}"#)
    );
    assert_eq!(
        entry.context.as_deref(),
        Some(r#"{"user_id":42,"ip":"127.0.0.1"}"#)
    );
    assert!(entry.has_expandable_content());
}

#[test]
fn test_parse_error_with_stacktrace() {
    let mut parser = LogEntryParser::new();
    parser.feed(
        "[2024-01-26 10:30:45] local.ERROR: [object] (RuntimeException(code: 0): Something broke at /app/Http/Controller.php:42)\n\
         [stacktrace]\n\
         #0 /app/Http/Controller.php(42): App\\Service->run()\n\
         #1 /vendor/laravel/framework/src/Pipeline.php(128): call()\n\
         #2 {main}"
    );
    let entries = parser.flush();

    assert_eq!(entries.len(), 1);
    let entry = &entries[0];
    assert!(matches!(entry.level, LogLevel::Error));
    assert!(entry.stacktrace.is_some());
    let st = entry.stacktrace.as_ref().expect("stacktrace should exist");
    assert_eq!(
        st.exception_summary,
        "RuntimeException(code: 0): Something broke at /app/Http/Controller.php:42"
    );
    assert_eq!(st.frames.len(), 3);
    assert_eq!(entry.frame_count(), 3);
    assert!(entry.has_expandable_content());
}

#[test]
fn test_parse_multiple_entries() {
    let mut parser = LogEntryParser::new();
    parser.feed(
        "[2024-01-26 10:30:45] local.INFO: First message\n\
         [2024-01-26 10:30:46] local.WARNING: Second message",
    );
    let entries = parser.flush();

    assert_eq!(entries.len(), 2);
    assert!(matches!(entries[0].level, LogLevel::Info));
    assert_eq!(entries[0].message, "First message");
    assert!(matches!(entries[1].level, LogLevel::Warning));
    assert_eq!(entries[1].message, "Second message");
}

#[test]
fn test_parser_incremental_feed() {
    let mut parser = LogEntryParser::new();

    parser.feed("[2024-01-26 10:30:45] local.INFO: First message");
    let drained = parser.drain_complete();
    assert_eq!(
        drained.len(),
        0,
        "single buffered entry should not be drained"
    );

    parser.feed("[2024-01-26 10:30:46] local.DEBUG: Second message");
    let drained = parser.drain_complete();
    assert_eq!(drained.len(), 1, "first entry should now be complete");
    assert!(matches!(drained[0].level, LogLevel::Info));
    assert_eq!(drained[0].message, "First message");

    let flushed = parser.flush();
    assert_eq!(flushed.len(), 1, "second entry should be flushed");
    assert!(matches!(flushed[0].level, LogLevel::Debug));
    assert_eq!(flushed[0].message, "Second message");
}

#[test]
fn test_parse_entry_without_timestamp_prefix() {
    let mut parser = LogEntryParser::new();
    parser.feed("some random non-Laravel log line");
    let entries = parser.flush();

    assert_eq!(entries.len(), 1);
    let entry = &entries[0];
    assert!(matches!(entry.level, LogLevel::Unknown));
    assert_eq!(entry.message, "some random non-Laravel log line");
    assert!(entry.timestamp.is_empty());
    assert!(entry.environment.is_empty());
}
