//! The translation side of the library: log records, job status, batching of
//! the texts sent to a translation service, the glossary, prompt building and
//! the Minecraft version table.
use vstd::prelude::*;

pub mod api;
pub mod batch_answers;
pub mod batch_run;
pub mod batching;
pub mod glossary;
pub mod job;
pub mod json_run;

verus! {

/// Severity of a log record.
#[derive(Clone, Copy, Debug, PartialEq, Eq, Structural)]
pub enum LogLevel {
    Info,
    Success,
    Warn,
    Error,
}

/// One styled piece of a log message: plain text, a directory or a file name.
pub struct LogSegment {
    pub kind: String,
    pub text: String,
}

impl View for LogSegment {
    type V = (Seq<char>, Seq<char>);

    open spec fn view(&self) -> (Seq<char>, Seq<char>) {
        (self.kind@, self.text@)
    }
}

/// A log record as the GUI shows it.
pub struct LogEntry {
    pub level: LogLevel,
    pub message: String,
    pub timestamp: i64,
    pub segments: Vec<LogSegment>,
}

} // verus!
