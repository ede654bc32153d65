use vis_grep::filter::{fuzzy_match, is_file_visible, LogLevelFilter, TreeFilter};
use vis_grep::levels::LogLevel;

#[test]
fn test_cycle_level() {
    let mut filter = LogLevelFilter::new();
    filter.minimum_level = LogLevel::Info;

    filter.cycle_level();
    assert_eq!(filter.minimum_level, LogLevel::Warn);

    filter.cycle_level();
    assert_eq!(filter.minimum_level, LogLevel::Error);

    filter.cycle_level();
    assert_eq!(filter.minimum_level, LogLevel::Info);
}

#[test]
fn test_display_mode() {
    let mut filter = LogLevelFilter::new();

    assert_eq!(filter.display_mode(), "ALL");

    filter.active = true;
    filter.minimum_level = LogLevel::Info;
    assert_eq!(filter.display_mode(), "INFO+");

    filter.minimum_level = LogLevel::Warn;
    assert_eq!(filter.display_mode(), "WARN+");

    filter.minimum_level = LogLevel::Error;
    assert_eq!(filter.display_mode(), "ERROR");
}

#[test]
fn test_tree_filter_matches() {
    let mut filter = TreeFilter::new();

    let test_cases = vec![
        ("test", "test", true),
        ("test", "Test", true),
        ("test", "TEST", true),
        ("test", "test.log", true),
        ("test", "my_test_file.log", true),
        ("test", "/home/user/test_logs/file.log", true),
        ("test", "Test Log 1", true),
        ("test", "latest", true),
        ("test", "t e s t", true),
        ("test", "other", false),
        ("test", "set", false),
        ("test", "tse", false),
    ];

    for (pattern, path, expected) in test_cases {
        filter.pattern = pattern.to_string();
        let result = filter.matches(path);
        println!("Pattern '{}' vs '{}': expected {}, got {}", pattern, path, expected, result);
        assert_eq!(result, expected, "Failed for pattern '{}' on path '{}'", pattern, path);
    }
}

#[test]
fn test_tree_filter_real_scenarios() {
    let mut filter = TreeFilter::new();

    filter.pattern = "test".to_string();
    filter.active = true;

    let files = vec![
        ("/home/me/test_logs/test_1.log", "Test Log 1", true),
        ("/home/me/test_logs/test_2.log", "Test Log 2", true),
        ("/home/me/test_logs/test_3.log", "Test Log 3", true),
        ("Application Logs", "Application Logs", false),
        ("System Logs", "System Logs", false),
    ];

    for (path, name, expected) in files {
        let path_match = filter.matches(path);
        let name_match = filter.matches(name);
        let visible = path_match || name_match;

        println!("Filter 'test' on '{}' (name: '{}'): path={}, name={}, visible={}",
                 path, name, path_match, name_match, visible);

        assert_eq!(visible, expected,
                  "Wrong visibility for path='{}', name='{}'", path, name);
    }
}

#[test]
fn cycle_mode_goes_round_forwards_and_backwards() {
    let mut f = LogLevelFilter::new();
    f.cycle_mode();
    assert!(f.active);
    assert_eq!(f.minimum_level, LogLevel::Info);
    f.cycle_mode();
    assert_eq!(f.minimum_level, LogLevel::Warn);
    f.cycle_mode();
    assert_eq!(f.minimum_level, LogLevel::Error);
    f.cycle_mode();
    assert!(!f.active);

    f.cycle_mode_backwards();
    assert!(f.active);
    assert_eq!(f.minimum_level, LogLevel::Error);
    f.cycle_mode_backwards();
    assert_eq!(f.minimum_level, LogLevel::Warn);
    f.cycle_mode_backwards();
    assert_eq!(f.minimum_level, LogLevel::Info);
    f.cycle_mode_backwards();
    assert!(!f.active);
    assert_eq!(f.display_mode(), "ALL");
}

#[test]
fn cycle_level_backwards_and_fallback() {
    let mut f = LogLevelFilter::new();
    f.cycle_level_backwards();
    assert_eq!(f.minimum_level, LogLevel::Error);
    f.cycle_level_backwards();
    assert_eq!(f.minimum_level, LogLevel::Warn);
    f.cycle_level_backwards();
    assert_eq!(f.minimum_level, LogLevel::Info);
    f.minimum_level = LogLevel::Debug;
    f.cycle_level();
    assert_eq!(f.minimum_level, LogLevel::Info);
}

#[test]
fn fuzzy_match_is_case_sensitive_on_its_own() {
    assert!(fuzzy_match("tst", "test"));
    assert!(!fuzzy_match("TST", "test"));
    assert!(fuzzy_match("", "anything"));
    assert!(!fuzzy_match("a", ""));
}

#[test]
fn tree_filter_lowercases_non_ascii() {
    let mut f = TreeFilter::new();
    f.pattern = "ÉTÉ".to_string();
    assert!(f.matches("journal-été.log"));
}

#[test]
fn excluded_files_are_hidden() {
    let mut f = TreeFilter::new();
    f.pattern = "log".to_string();
    f.active = true;
    f.exclude_patterns = vec!["archive/".to_string()];
    assert!(f.is_excluded("/var/archive/app.log"));
    assert!(!f.is_excluded("/var/live/app.log"));
    assert!(!is_file_visible(&f, "/var/archive/app.log", "app.log"));
    assert!(is_file_visible(&f, "/var/live/app.log", "app.log"));
    assert!(!is_file_visible(&f, "/var/live/data.txt", "data.txt"));
    f.active = false;
    assert!(is_file_visible(&f, "/var/archive/app.log", "app.log"));
}

#[test]
fn severity_orders_levels() {
    assert_eq!(LogLevel::Trace.severity(), 0);
    assert_eq!(LogLevel::Info.severity(), 2);
    assert_eq!(LogLevel::Fatal.severity(), 5);
    assert_eq!(LogLevel::Unknown.severity(), 0);
}
