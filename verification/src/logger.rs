//! The log-line format and where a line goes.

use vstd::prelude::*;

verus! {

/// The severity of a log line.
#[derive(Debug, Clone, Copy, PartialEq, Eq, Structural)]
pub enum LogLevel {
    Info,
    Warning,
    Error,
}

/// The tag that a level shows in a log line.
pub open spec fn level_label(level: LogLevel) -> Seq<char> {
    match level {
        LogLevel::Info => "INFO"@,
        LogLevel::Warning => "WARNING"@,
        LogLevel::Error => "ERROR"@,
    }
}

impl LogLevel {
    /// The tag that this level shows in a log line.
    pub fn label(&self) -> (r: &'static str)
        ensures
            r@ == level_label(*self),
    {
        match self {
            LogLevel::Info => "INFO",
            LogLevel::Warning => "WARNING",
            LogLevel::Error => "ERROR",
        }
    }
}

/// A log entry without its line end: `[timestamp] [LEVEL] message`.
pub open spec fn log_entry(timestamp: Seq<char>, level: LogLevel, message: Seq<char>) -> Seq<char> {
    "["@ + timestamp + "] ["@ + level_label(level) + "] "@ + message
}

/// Formats a log entry without its line end: `[timestamp] [LEVEL] message`.
pub fn format_log_entry(timestamp: &str, level: LogLevel, message: &str) -> (r: String)
    ensures
        r@ == log_entry(timestamp@, level, message@),
        r@.len() == timestamp@.len() + level_label(level).len() + message@.len() + 6,
        r@.take(timestamp@.len() + 1int) == seq!['['] + timestamp@,
        r@.skip(r@.len() - message@.len()) == message@,
{
    proof {
        lemma_entry_shape(timestamp@, level, message@);
    }
    let mut line = String::from_str("[");
    line.append(timestamp);
    line.append("] [");
    line.append(level.label());
    line.append("] ");
    line.append(message);
    line
}

/// Formats a full log line, as written to the log file: the entry and a
/// line end.
pub fn format_log_line(timestamp: &str, level: LogLevel, message: &str) -> (r: String)
    ensures
        r@ == log_entry(timestamp@, level, message@) + "\n"@,
        r@.len() == timestamp@.len() + level_label(level).len() + message@.len() + 7,
        r@.last() == '\n',
        r@.drop_last().skip(r@.len() - 1 - message@.len()) == message@,
{
    proof {
        lemma_entry_shape(timestamp@, level, message@);
        lemma_line_shape(timestamp@, level, message@);
    }
    let mut line = format_log_entry(timestamp, level, message);
    line.append("\n");
    line
}

/// A log entry is `[`, the timestamp, `] [`, the level's tag, `] ` and the
/// whole message: it starts with the bracketed timestamp, ends with the
/// message, and is six characters longer than its three parts.
pub proof fn lemma_entry_shape(timestamp: Seq<char>, level: LogLevel, message: Seq<char>)
    ensures
        log_entry(timestamp, level, message).len() == timestamp.len() + level_label(level).len()
            + message.len() + 6,
        log_entry(timestamp, level, message).take(timestamp.len() + 1int) == seq!['['] + timestamp,
        log_entry(timestamp, level, message).skip(
            log_entry(timestamp, level, message).len() - message.len(),
        ) == message,
{
    reveal_strlit("[");
    reveal_strlit("] [");
    reveal_strlit("] ");
    let e = log_entry(timestamp, level, message);
    let head = "["@ + timestamp + "] ["@ + level_label(level) + "] "@;
    assert(e == head + message);
    assert(e.skip(head.len() as int) =~= message);
    assert(e.take(timestamp.len() + 1int) =~= seq!['['] + timestamp);
}

/// A log line is its entry and one line end.
pub proof fn lemma_line_shape(timestamp: Seq<char>, level: LogLevel, message: Seq<char>)
    ensures
        (log_entry(timestamp, level, message) + "\n"@).len() == log_entry(timestamp, level, message).len() + 1,
        (log_entry(timestamp, level, message) + "\n"@).last() == '\n',
        (log_entry(timestamp, level, message) + "\n"@).drop_last() == log_entry(timestamp, level, message),
{
    reveal_strlit("\n");
    let e = log_entry(timestamp, level, message);
    assert((e + "\n"@).drop_last() =~= e);
}

/// The tags are `INFO`, `WARNING` and `ERROR`.
pub proof fn lemma_level_tags()
    ensures
        level_label(LogLevel::Info) == "INFO"@,
        level_label(LogLevel::Warning) == "WARNING"@,
        level_label(LogLevel::Error) == "ERROR"@,
{
}

/// Each level shows its own tag.
pub proof fn lemma_labels_distinct(a: LogLevel, b: LogLevel)
    ensures
        level_label(a) == level_label(b) <==> a == b,
{
    reveal_strlit("INFO");
    reveal_strlit("WARNING");
    reveal_strlit("ERROR");
    if a != b {
        assert(level_label(a).len() != level_label(b).len());
    }
}

/// Where a log line is written.
#[derive(Debug, Clone, Copy, PartialEq, Eq, Structural)]
pub enum LogSink {
    /// Appended to the log file.
    File,
    /// Printed on standard output.
    Stdout,
    /// Printed on standard error.
    Stderr,
}

/// A log line and where it goes.
#[derive(Debug)]
pub struct LogRecord {
    pub sink: LogSink,
    pub text: String,
}

/// Where a line of the given level goes: to the file when logging to a file
/// (nowhere when the file could not be had); else errors to standard error
/// and the rest to standard output.
pub open spec fn sink_for(to_logging: bool, has_file: bool, level: LogLevel) -> Option<LogSink> {
    if to_logging {
        if has_file {
            Some(LogSink::File)
        } else {
            None
        }
    } else {
        match level {
            LogLevel::Error => Some(LogSink::Stderr),
            _ => Some(LogSink::Stdout),
        }
    }
}

/// In file mode every level goes to the file (or nowhere when the file could
/// not be opened), whatever the level; in console mode every line is shown,
/// errors on standard error and the other levels on standard output.
pub proof fn lemma_sink_by_mode(level: LogLevel)
    ensures
        sink_for(true, true, level) == Some(LogSink::File),
        sink_for(true, false, level) is None,
        sink_for(false, true, level) == sink_for(false, false, level),
        sink_for(false, true, level) is Some,
        sink_for(false, true, level) == Some(LogSink::Stderr) <==> level == LogLevel::Error,
        sink_for(false, true, level) == Some(LogSink::Stdout) <==> level != LogLevel::Error,
{
}

/// Renders one log line: the file gets the line with its line end, the
/// console the entry without it.
pub fn render_log(
    to_logging: bool,
    has_file: bool,
    level: LogLevel,
    timestamp: &str,
    message: &str,
) -> (r: Option<LogRecord>)
    ensures
        r is Some <==> sink_for(to_logging, has_file, level) is Some,
        r matches Some(rec) ==> {
            &&& Some(rec.sink) == sink_for(to_logging, has_file, level)
            &&& rec.sink == LogSink::File ==> rec.text@ == log_entry(timestamp@, level, message@)
                + "\n"@
            &&& rec.sink != LogSink::File ==> rec.text@ == log_entry(timestamp@, level, message@)
        },
        to_logging && has_file ==> (r matches Some(rec) && rec.sink == LogSink::File
            && rec.text@.last() == '\n' && rec.text@.drop_last().skip(
            rec.text@.len() - 1 - message@.len(),
        ) == message@),
        to_logging && !has_file ==> r is None,
        !to_logging ==> (r matches Some(rec) && (rec.sink == LogSink::Stderr <==> level
            == LogLevel::Error) && (rec.sink == LogSink::Stdout <==> level != LogLevel::Error)
            && rec.text@.skip(rec.text@.len() - message@.len()) == message@),
{
    proof {
        lemma_sink_by_mode(level);
        lemma_entry_shape(timestamp@, level, message@);
        lemma_line_shape(timestamp@, level, message@);
    }
    if to_logging {
        if has_file {
            Some(LogRecord { sink: LogSink::File, text: format_log_line(timestamp, level, message) })
        } else {
            None
        }
    } else {
        let text = format_log_entry(timestamp, level, message);
        match level {
            LogLevel::Error => Some(LogRecord { sink: LogSink::Stderr, text }),
            _ => Some(LogRecord { sink: LogSink::Stdout, text }),
        }
    }
}

} // verus!
