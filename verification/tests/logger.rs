use hdds_tools::glob::glob_match;
use hdds_tools::logger::{LogEntry, LogFilter, LogLevel, LogTimestamp, SyslogFacility};
use hdds_tools::logger_collector::{topics_to_subscribe, LogProcessor};
use hdds_tools::logger_config::{
    parse_size, rotated_path, FileRotation, LogConfig, OutputConfig, OutputFormat,
};
use hdds_tools::logger_format::{create_formatter, JsonFormatter, SyslogFormatter, TextFormatter};
use hdds_tools::logger_stop::StopHandle;
use hdds_tools::logger_output::{needs_rotation, rotation_steps, size_after_write, RotationStep};
use std::sync::atomic::{AtomicBool, Ordering};
use std::sync::Arc;

fn sample_entry() -> LogEntry {
    // 2024-01-15T10:30:00Z
    let mut e = LogEntry::at(
        LogTimestamp { secs: 1705314600, nanos: 0 },
        LogLevel::Info,
        "Test message".to_string(),
    );
    e.participant_id = "01020304-0506-0708-090a-0b0c0d0e0f10".to_string();
    e.topic = Some("rt/rosout".to_string());
    e.node_name = Some("/test_node".to_string());
    e.file = Some("test.cpp".to_string());
    e.line = Some(42);
    e.function = Some("test_func".to_string());
    e
}

#[test]
fn test_log_level_ordering() {
    assert!(LogLevel::Debug < LogLevel::Info);
    assert!(LogLevel::Info < LogLevel::Warn);
    assert!(LogLevel::Warn < LogLevel::Error);
    assert!(LogLevel::Error < LogLevel::Fatal);
}

#[test]
fn test_log_level_from_str() {
    assert_eq!(LogLevel::parse("debug"), Some(LogLevel::Debug));
    assert_eq!(LogLevel::parse("INFO"), Some(LogLevel::Info));
    assert_eq!(LogLevel::parse("Warning"), Some(LogLevel::Warn));
    assert_eq!(LogLevel::parse("ERR"), Some(LogLevel::Error));
    assert_eq!(LogLevel::parse("invalid"), None);
}

#[test]
fn test_glob_match_exact() {
    assert!(glob_match("hello", "hello"));
    assert!(!glob_match("hello", "world"));
    assert!(!glob_match("hello", "hello!"));
}

#[test]
fn test_glob_match_star() {
    assert!(glob_match("*", "anything"));
    assert!(glob_match("*", ""));
    assert!(glob_match("hello*", "hello"));
    assert!(glob_match("hello*", "hello world"));
    assert!(glob_match("*world", "hello world"));
    assert!(glob_match("hello*world", "hello big world"));
    assert!(!glob_match("hello*world", "hello big moon"));
}

#[test]
fn test_glob_match_question() {
    assert!(glob_match("h?llo", "hello"));
    assert!(glob_match("h?llo", "hallo"));
    assert!(!glob_match("h?llo", "hllo"));
    assert!(!glob_match("h?llo", "heello"));
}

#[test]
fn test_glob_match_combined() {
    assert!(glob_match("rt/*", "rt/rosout"));
    assert!(glob_match("rt/*", "rt/topic/nested"));
    assert!(glob_match("*/rosout", "rt/rosout"));
    assert!(glob_match("rt/ros?ut", "rt/rosout"));
}

#[test]
fn test_filter_level() {
    let filter = LogFilter::min_level(LogLevel::Warn);
    let debug_entry = LogEntry {
        level: LogLevel::Debug,
        message: "test".to_string(),
        participant_id: "test".to_string(),
        ..Default::default()
    };
    let warn_entry = LogEntry {
        level: LogLevel::Warn,
        message: "test".to_string(),
        participant_id: "test".to_string(),
        ..Default::default()
    };
    assert!(!filter.matches(&debug_entry));
    assert!(filter.matches(&warn_entry));
}

#[test]
fn test_log_entry_builder() {
    let entry = LogEntry::new(LogLevel::Error, "Something went wrong".to_string())
        .with_participant("01020304-0506-0708-090a-0b0c0d0e0f10".to_string())
        .with_topic("rt/rosout".to_string())
        .with_node("/my_node".to_string())
        .with_location("main.cpp".to_string(), 42, "main".to_string());
    assert_eq!(entry.level, LogLevel::Error);
    assert_eq!(entry.message, "Something went wrong");
    assert_eq!(entry.topic, Some("rt/rosout".to_string()));
    assert_eq!(entry.node_name, Some("/my_node".to_string()));
    assert_eq!(entry.line, Some(42));
}

#[test]
fn test_collector_process() {
    let config = LogConfig {
        format: OutputFormat::Text,
        output: OutputConfig::Stdout,
        filter: LogFilter::min_level(LogLevel::Warn),
        ..Default::default()
    };
    let formatter = create_formatter(config.format, "localhost".to_string());
    let mut collector = LogProcessor::new(config.filter, formatter);

    // Info is filtered out.
    let info_entry =
        LogEntry::new(LogLevel::Info, "Info message".to_string()).with_participant("test-participant".to_string());
    assert!(collector.formatter.accepts(&info_entry));
    assert!(collector.process(&info_entry, 1).is_none());
    assert_eq!(collector.stats.logs_filtered, 1);
    assert_eq!(collector.stats.logs_written, 0);

    // Error passes and is written.
    let error_entry =
        LogEntry::new(LogLevel::Error, "Error message".to_string()).with_participant("test-participant".to_string());
    let line = collector.process(&error_entry, 1);
    assert!(line.unwrap().contains("Error message"));
    collector.record_write(true);
    assert_eq!(collector.stats.logs_written, 1);
}

#[test]
fn test_stop_handle() {
    let running = Arc::new(AtomicBool::new(false));
    let handle = StopHandle::new(running.clone());
    assert!(!running.load(Ordering::SeqCst));
    handle.stop();
    assert!(!running.load(Ordering::SeqCst));
}

#[test]
fn test_text_formatter() {
    let formatter = TextFormatter::no_colors();
    let entry = sample_entry();
    let output = formatter.format(&entry);
    assert!(output.contains("2024-01-15"));
    assert!(output.contains("[INFO ]"));
    assert!(output.contains("Test message"));
    assert!(output.contains("rt/rosout"));
}

#[test]
fn test_json_formatter() {
    let formatter = JsonFormatter::compact();
    let entry = sample_entry();
    let output = formatter.format(&entry);
    assert!(output.contains("\"@timestamp\""));
    assert!(output.contains("\"level\":\"INFO\""));
    assert!(output.contains("\"message\":\"Test message\""));
    assert!(output.contains("\"topic\":\"rt/rosout\""));
}

#[test]
fn test_syslog_formatter() {
    let formatter = SyslogFormatter::with_facility(SyslogFacility::Local0, "localhost".to_string());
    let entry = sample_entry();
    let output = formatter.format(&entry, 4242);
    assert!(output.starts_with('<'));
    assert!(output.contains(">1 "));
    assert!(output.contains("[hdds"));
    assert!(output.contains("Test message"));
}

#[test]
fn test_syslog_pri_calculation() {
    let formatter = SyslogFormatter::with_facility(SyslogFacility::Local0, "localhost".to_string());
    // Local0 (16) * 8 + Info severity (6) = 134
    assert_eq!(formatter.pri(LogLevel::Info), 134);
    // Local0 (16) * 8 + Error severity (3) = 131
    assert_eq!(formatter.pri(LogLevel::Error), 131);
}

#[test]
fn test_parse_size() {
    assert_eq!(parse_size("100"), Some(100));
    assert_eq!(parse_size("10K"), Some(10 * 1024));
    assert_eq!(parse_size("10M"), Some(10 * 1024 * 1024));
    assert_eq!(parse_size("1G"), Some(1024 * 1024 * 1024));
    assert_eq!(parse_size("10m"), Some(10 * 1024 * 1024));
    assert_eq!(parse_size("invalid"), None);
}

#[test]
fn test_rotated_path() {
    assert_eq!(rotated_path("/var/log/hdds.log", 1), "/var/log/hdds.1.log");
    assert_eq!(rotated_path("/var/log/hdds.log", 5), "/var/log/hdds.5.log");
    assert_eq!(rotated_path("/var/log/hdds", 1), "/var/log/hdds.1");
}

// ---- further cases ----

#[test]
fn glob_exact_text_matches_itself() {
    for p in ["", "abc", "rt/rosout", "a.b"] {
        assert!(glob_match(p, p));
    }
}

#[test]
fn text_formatter_cuts_participant_to_eight_bytes() {
    let formatter = TextFormatter::no_colors();
    let out = formatter.format(&sample_entry());
    assert!(out.contains("[01020304]"));
    assert!(!out.contains("0506"));
}

#[test]
fn formatter_refuses_participant_cut_inside_a_character() {
    let f = create_formatter(OutputFormat::Text, "h".to_string());
    let mut e = sample_entry();
    e.participant_id = "abcdefgé".to_string(); // 'é' spans bytes 7 and 8
    assert!(!f.accepts(&e));
    e.participant_id = "abcdefghé".to_string();
    assert!(f.accepts(&e));
}

#[test]
fn parse_size_overflow_and_case() {
    assert_eq!(parse_size("1k"), Some(1024));
    assert_eq!(parse_size("18446744073709551615"), Some(u64::MAX));
    assert_eq!(parse_size("18446744073709551615K"), None);
    assert_eq!(parse_size(""), None);
}

#[test]
fn file_rotation_builder() {
    let r = FileRotation::with_max_size_mb(10).max_files(3).compressed();
    assert_eq!(r.max_size, 10 * 1024 * 1024);
    assert_eq!(r.max_files, 3);
    assert!(r.compress);
}

#[test]
fn log_level_codes_and_severity() {
    assert_eq!(LogLevel::Info.as_str(), "INFO");
    assert_eq!(LogLevel::Fatal.syslog_severity(), 2);
    assert_eq!(LogLevel::from_code(40), LogLevel::Error);
    assert_eq!(LogLevel::Warn.code(), 30);
}

#[test]
fn rotation_steps_shift_and_drop() {
    let exists = vec![false, true, false, true];
    let steps = rotation_steps(4, &exists);
    assert_eq!(
        steps,
        vec![RotationStep::Remove(3), RotationStep::Rename { from: 1, to: 2 }, RotationStep::RotateCurrent]
    );
    assert_eq!(rotation_steps(1, &vec![true]), vec![RotationStep::RotateCurrent]);
    let r = Some(FileRotation { max_size: 50, max_files: 3, compress: false });
    assert!(!needs_rotation(&r, 49));
    assert!(needs_rotation(&r, 50));
    assert!(!needs_rotation(&None, 1000));
    assert_eq!(size_after_write(10, 5), 16);
}

#[test]
fn level_parse_ignores_case_of_any_text() {
    assert_eq!(LogLevel::parse("wArNiNg"), Some(LogLevel::Warn));
    assert_eq!(LogLevel::parse("CRITICAL"), Some(LogLevel::Fatal));
    assert_eq!(LogLevel::parse("critical"), LogLevel::parse("CRITICAL"));
    assert_eq!(LogLevel::parse("d\u{e9}bug"), None);
    assert_eq!(LogLevel::parse("D\u{c9}BUG"), LogLevel::parse("d\u{e9}bug"));
}

#[test]
fn discovery_subscribes_new_matching_topics_once() {
    let discovered = vec![
        "rt/rosout".to_string(),
        "rt/chatter".to_string(),
        "rt/rosout_agg".to_string(),
        "rt/rosout".to_string(),
        "rt/rosout_old".to_string(),
    ];
    let subscribed = vec!["rt/rosout_old".to_string()];
    let picked = topics_to_subscribe("rt/rosout*", &discovered, &subscribed);
    assert_eq!(picked, vec!["rt/rosout".to_string(), "rt/rosout_agg".to_string()]);
    assert!(topics_to_subscribe("rt/rosout*", &vec![], &subscribed).is_empty());
    assert_eq!(
        topics_to_subscribe("rt/chatter", &discovered, &vec![]),
        vec!["rt/chatter".to_string()]
    );
}
