use laramux::entry::LogEntry;
use laramux::files::{extract_date_from_filename, LogFileTree, LogViewMode};
use laramux::level::LogLevel;
use laramux::logs_tab::LogsTabState;

/// Helper to create a LogEntry with minimal fields
fn make_entry(level: LogLevel, message: &str) -> LogEntry {
    LogEntry {
        timestamp: "2026-05-23 10:00:00".to_string(),
        environment: "local".to_string(),
        level,
        message: message.to_string(),
        payload: None,
        context: None,
        stacktrace: None,
        raw: String::new(),
    }
}

/// Helper to create a LogEntry with expandable content (payload)
fn make_expandable_entry(level: LogLevel, message: &str) -> LogEntry {
    LogEntry {
        timestamp: "2026-05-23 10:00:00".to_string(),
        environment: "local".to_string(),
        level,
        message: message.to_string(),
        payload: Some(r#"{"key":"value"}"#.to_string()),
        context: None,
        stacktrace: None,
        raw: String::new(),
    }
}

#[test]
fn test_file_tree_ordering_laravel_log_first() {
    let mut tree = LogFileTree::new();
    tree.update_files(vec![
        "auth-2026-05-22.log".to_string(),
        "laravel.log".to_string(),
        "queue-2026-05-21.log".to_string(),
    ]);

    assert_eq!(tree.files[0], "laravel.log");
}

#[test]
fn test_file_tree_ordering_by_date_desc() {
    let mut tree = LogFileTree::new();
    tree.update_files(vec![
        "auth-2026-05-20.log".to_string(),
        "laravel.log".to_string(),
        "queue-2026-05-22.log".to_string(),
        "auth-2026-05-22.log".to_string(),
        "queue-2026-05-21.log".to_string(),
        "debug.log".to_string(),
    ]);

    assert_eq!(tree.files[0], "laravel.log");
    // Next: 2026-05-22 files sorted alphabetically
    assert_eq!(tree.files[1], "auth-2026-05-22.log");
    assert_eq!(tree.files[2], "queue-2026-05-22.log");
    // Then 2026-05-21
    assert_eq!(tree.files[3], "queue-2026-05-21.log");
    // Then 2026-05-20
    assert_eq!(tree.files[4], "auth-2026-05-20.log");
    // Files without dates last, alphabetically
    assert_eq!(tree.files[5], "debug.log");
}

#[test]
fn test_entry_expand_collapse() {
    let mut state = LogsTabState::new();

    // Add a non-expandable entry
    state.add_entry(make_entry(LogLevel::Info, "simple message"));
    // Add an expandable entry
    state.add_entry(make_expandable_entry(LogLevel::Error, "error with payload"));

    // Try to toggle non-expandable entry (should be no-op)
    state.selected_entry = 0;
    state.toggle_expand();
    assert!(
        state.expanded_entries.is_empty(),
        "non-expandable entry should not be added"
    );

    // Toggle expandable entry
    state.selected_entry = 1;
    state.toggle_expand();
    assert!(state.expanded_entries.contains(&1));

    // Toggle again to collapse
    state.toggle_expand();
    assert!(!state.expanded_entries.contains(&1));
}

#[test]
fn test_expand_all_collapse_all() {
    let mut state = LogsTabState::new();

    state.add_entry(make_entry(LogLevel::Info, "simple 1"));
    state.add_entry(make_expandable_entry(LogLevel::Error, "expandable 1"));
    state.add_entry(make_entry(LogLevel::Debug, "simple 2"));
    state.add_entry(make_expandable_entry(LogLevel::Warning, "expandable 2"));

    state.expand_all();
    // Only entries 1 and 3 are expandable
    assert_eq!(state.expanded_entries.len(), 2);
    assert!(state.expanded_entries.contains(&1));
    assert!(state.expanded_entries.contains(&3));
    assert!(!state.expanded_entries.contains(&0));
    assert!(!state.expanded_entries.contains(&2));

    state.collapse_all();
    assert!(state.expanded_entries.is_empty());
}

#[test]
fn test_cursor_navigation() {
    let mut state = LogsTabState::new();

    state.add_entry(make_entry(LogLevel::Info, "entry 0"));
    state.add_entry(make_entry(LogLevel::Warning, "entry 1"));
    state.add_entry(make_entry(LogLevel::Error, "entry 2"));

    // Start at 0
    state.selected_entry = 0;

    state.select_next_entry();
    assert_eq!(state.selected_entry, 1);

    state.select_next_entry();
    assert_eq!(state.selected_entry, 2);

    // At the end, should not go further
    state.select_next_entry();
    assert_eq!(state.selected_entry, 2);

    state.select_previous_entry();
    assert_eq!(state.selected_entry, 1);

    state.select_previous_entry();
    assert_eq!(state.selected_entry, 0);

    // At the beginning, should not go further
    state.select_previous_entry();
    assert_eq!(state.selected_entry, 0);

    // Jump to bottom
    state.jump_to_bottom();
    assert_eq!(state.selected_entry, 2);

    // Jump to top
    state.jump_to_top();
    assert_eq!(state.selected_entry, 0);
}

#[test]
fn test_filter_reset_on_file_change() {
    let mut state = LogsTabState::new();

    // Set up some state
    state.search_query = "test".to_string();
    state.filter_level = Some(LogLevel::Error);
    state.selected_entry = 5;
    state.expanded_entries.insert(2);
    state.scroll_offset = 10;
    state.add_entry(make_entry(LogLevel::Info, "old entry"));

    // Select a new file
    state.select_file("auth-2026-05-22.log");

    assert_eq!(state.active_file.as_deref(), Some("auth-2026-05-22.log"));
    assert_eq!(state.view_mode, Some(LogViewMode::Static),);
    assert!(state.entries.is_empty(), "entries should be cleared");
    assert!(state.search_query.is_empty(), "search should be cleared");
    assert!(state.filter_level.is_none(), "filter should be cleared");
    assert_eq!(state.selected_entry, 0);
    assert!(state.expanded_entries.is_empty());
    assert_eq!(state.scroll_offset, 0);
}

#[test]
fn test_live_mode_detection() {
    assert_eq!(LogViewMode::for_file("laravel.log"), LogViewMode::Live);
    assert_eq!(
        LogViewMode::for_file("auth-2026-05-22.log"),
        LogViewMode::Static
    );
    assert_eq!(LogViewMode::for_file("queue.log"), LogViewMode::Static);

    assert_eq!(LogViewMode::Live.indicator(), "⏺ LIVE");
    assert_eq!(LogViewMode::Static.indicator(), "⏸ STATIC");
}

#[test]
fn test_buffer_limit() {
    let mut state = LogsTabState::new();
    state.max_entries = 3;

    state.add_entry(make_entry(LogLevel::Info, "entry 0"));
    state.add_entry(make_expandable_entry(LogLevel::Warning, "entry 1"));
    state.add_entry(make_entry(LogLevel::Error, "entry 2"));

    assert_eq!(state.entries.len(), 3);

    // Expand entry at index 1
    state.selected_entry = 1;
    state.toggle_expand();
    assert!(state.expanded_entries.contains(&1));

    // Set selected_entry to 2
    state.selected_entry = 2;

    // Add one more, should pop front and shift indices
    state.add_entry(make_entry(LogLevel::Debug, "entry 3"));

    assert_eq!(state.entries.len(), 3);
    // Entry 0 was popped. Old entry 1 is now at index 0, old entry 2 at 1, new entry 3 at 2.
    assert_eq!(state.entries[0].message, "entry 1");
    assert_eq!(state.entries[1].message, "entry 2");
    assert_eq!(state.entries[2].message, "entry 3");

    // Expanded index 1 should now be 0
    assert!(state.expanded_entries.contains(&0));
    assert!(!state.expanded_entries.contains(&1));

    // selected_entry was 2, should shift to 1
    assert_eq!(state.selected_entry, 1);
}

#[test]
fn test_extract_date_from_filename() {
    assert_eq!(
        extract_date_from_filename("auth-2026-05-22.log"),
        Some("2026-05-22")
    );
    assert_eq!(
        extract_date_from_filename("queue-worker-2026-01-15.log"),
        Some("2026-01-15")
    );
    assert_eq!(extract_date_from_filename("laravel.log"), None);
    assert_eq!(extract_date_from_filename("debug.log"), None);
}

#[test]
fn test_filtered_entry_indices_level_filter() {
    let mut state = LogsTabState::new();

    state.add_entry(make_entry(LogLevel::Debug, "debug msg"));
    state.add_entry(make_entry(LogLevel::Info, "info msg"));
    state.add_entry(make_entry(LogLevel::Warning, "warning msg"));
    state.add_entry(make_entry(LogLevel::Error, "error msg"));
    state.add_entry(make_entry(LogLevel::Unknown, "unknown msg"));

    // No filter: all pass
    let indices = state.filtered_entry_indices();
    assert_eq!(indices, vec![0, 1, 2, 3, 4]);

    // Filter Warning+: indices 2 (Warning), 3 (Error), 4 (Unknown always passes)
    state.filter_level = Some(LogLevel::Warning);
    let indices = state.filtered_entry_indices();
    assert_eq!(indices, vec![2, 3, 4]);
}

#[test]
fn test_filtered_entry_indices_search() {
    let mut state = LogsTabState::new();

    state.add_entry(make_entry(LogLevel::Info, "User logged in"));
    state.add_entry(make_entry(LogLevel::Info, "Payment processed"));
    state.add_entry(make_entry(LogLevel::Error, "User not found"));

    state.search_query = "user".to_string();
    let indices = state.filtered_entry_indices();
    assert_eq!(indices, vec![0, 2]);
}

#[test]
fn test_file_tree_select_next_previous() {
    let mut tree = LogFileTree::new();
    tree.update_files(vec![
        "laravel.log".to_string(),
        "auth.log".to_string(),
        "queue.log".to_string(),
    ]);

    assert_eq!(tree.selected_index, 0);
    assert_eq!(tree.selected_file(), Some("laravel.log"));

    tree.select_next();
    assert_eq!(tree.selected_index, 1);

    tree.select_next();
    assert_eq!(tree.selected_index, 2);

    // Should not go past the end
    tree.select_next();
    assert_eq!(tree.selected_index, 2);

    tree.select_previous();
    assert_eq!(tree.selected_index, 1);

    tree.select_previous();
    assert_eq!(tree.selected_index, 0);

    // Should not go below 0
    tree.select_previous();
    assert_eq!(tree.selected_index, 0);
}

#[test]
fn test_file_tree_update_resets_out_of_bounds_index() {
    let mut tree = LogFileTree::new();
    tree.update_files(vec![
        "a.log".to_string(),
        "b.log".to_string(),
        "c.log".to_string(),
    ]);
    tree.selected_index = 2;

    // Update with fewer files; index should reset
    tree.update_files(vec!["a.log".to_string()]);
    assert_eq!(tree.selected_index, 0);
}
