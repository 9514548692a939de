use laramux::files::LogFileTree;
use laramux::level::LogLevel;
use laramux::logs_tab::LogsTabState;

#[test]
fn error_levels() {
    assert!(LogLevel::Error.is_error());
    assert!(LogLevel::Critical.is_error());
    assert!(LogLevel::Alert.is_error());
    assert!(LogLevel::Emergency.is_error());
    assert!(!LogLevel::Warning.is_error());
    assert!(!LogLevel::Unknown.is_error());
    assert_eq!(LogLevel::all().len(), 8);
    assert_eq!(LogLevel::all()[0], LogLevel::Debug);
    assert_eq!(LogLevel::all()[7], LogLevel::Emergency);
}

#[test]
fn filter_cycle_returns_to_all_after_seven_presses() {
    let mut tab = LogsTabState::default();
    let mut names = Vec::new();
    for _ in 0..7 {
        tab.cycle_filter();
        names.push(tab.filter_name());
    }
    assert_eq!(names, vec!["Debug", "Info", "Notice", "Warning", "Error", "Critical", "All"]);
    assert_eq!(tab.filter_level, None);
    tab.filter_level = Some(LogLevel::Alert);
    tab.cycle_filter();
    assert_eq!(tab.filter_level, Some(LogLevel::Debug));
}

#[test]
fn sidebar_order_does_not_depend_on_input_order() {
    let files = ["queue-2026-05-21.log", "debug.log", "laravel.log", "auth-2026-05-22.log", "api.log"];
    let mut first = LogFileTree::default();
    first.update_files(files.iter().map(|s| s.to_string()).collect());
    let mut second = LogFileTree::default();
    second.update_files(files.iter().rev().map(|s| s.to_string()).collect());
    assert_eq!(first.files, second.files);
    assert_eq!(
        first.files,
        vec!["laravel.log", "auth-2026-05-22.log", "queue-2026-05-21.log", "api.log", "debug.log"]
    );
}

#[test]
fn level_names_read_back_in_any_case() {
    let levels = [
        LogLevel::Debug,
        LogLevel::Info,
        LogLevel::Notice,
        LogLevel::Warning,
        LogLevel::Error,
        LogLevel::Critical,
        LogLevel::Alert,
        LogLevel::Emergency,
        LogLevel::Unknown,
    ];
    for l in levels {
        assert_eq!(LogLevel::from_str(l.name()), l);
        assert_eq!(LogLevel::from_str(&l.name().to_uppercase()), l);
    }
    assert_eq!(LogLevel::from_str("WaRnInG"), LogLevel::Warning);
    assert_eq!(LogLevel::from_str("warn"), LogLevel::Unknown);
    assert_eq!(LogLevel::from_str(""), LogLevel::Unknown);
}
