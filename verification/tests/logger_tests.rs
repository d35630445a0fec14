use proc_monitor::logger::{
    format_log_entry, format_log_line, render_log, LogLevel, LogSink,
};

#[test]
fn level_labels() {
    assert_eq!(LogLevel::Info.label(), "INFO");
    assert_eq!(LogLevel::Warning.label(), "WARNING");
    assert_eq!(LogLevel::Error.label(), "ERROR");
}

#[test]
fn entry_and_line_format() {
    let ts = "2024-01-02 03:04:05";
    assert_eq!(
        format_log_entry(ts, LogLevel::Warning, "careful"),
        "[2024-01-02 03:04:05] [WARNING] careful"
    );
    assert_eq!(
        format_log_line(ts, LogLevel::Info, "hello"),
        "[2024-01-02 03:04:05] [INFO] hello\n"
    );
}

#[test]
fn file_logging_writes_full_lines() {
    let r = render_log(true, true, LogLevel::Error, "T", "boom").unwrap();
    assert_eq!(r.sink, LogSink::File);
    assert_eq!(r.text, "[T] [ERROR] boom\n");
}

#[test]
fn file_logging_without_file_writes_nothing() {
    assert!(render_log(true, false, LogLevel::Info, "T", "m").is_none());
    assert!(render_log(true, false, LogLevel::Error, "T", "m").is_none());
}

#[test]
fn console_routing_by_level() {
    let r = render_log(false, true, LogLevel::Info, "T", "a").unwrap();
    assert_eq!((r.sink, r.text.as_str()), (LogSink::Stdout, "[T] [INFO] a"));
    let r = render_log(false, false, LogLevel::Warning, "T", "b").unwrap();
    assert_eq!((r.sink, r.text.as_str()), (LogSink::Stdout, "[T] [WARNING] b"));
    let r = render_log(false, false, LogLevel::Error, "T", "c").unwrap();
    assert_eq!((r.sink, r.text.as_str()), (LogSink::Stderr, "[T] [ERROR] c"));
}
