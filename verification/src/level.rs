//! The closed vocabulary of log levels and their fixed display labels.

use vstd::prelude::*;

verus! {

/// Severity of one log record. The vocabulary is closed: any other level
/// string fails the decode of the whole record.
#[derive(Clone, Copy, PartialEq, Eq, Structural, Debug)]
pub enum LogLevel {
    Debug,
    Info,
    Warn,
    Error,
    Panic,
    Fatal,
}

/// The fixed five-character label of a level, right-aligned so that all six
/// labels occupy equal width.
pub open spec fn spec_label(level: LogLevel) -> Seq<char> {
    match level {
        LogLevel::Debug => "DEBUG"@,
        LogLevel::Info => " INFO"@,
        LogLevel::Warn => " WARN"@,
        LogLevel::Error => "ERROR"@,
        LogLevel::Panic => "PANIC"@,
        LogLevel::Fatal => "FATAL"@,
    }
}

impl LogLevel {
    /// The level's display label as a string slice.
    pub fn label(self) -> (r: &'static str)
        ensures
            r@ == spec_label(self),
    {
        match self {
            LogLevel::Debug => "DEBUG",
            LogLevel::Info => " INFO",
            LogLevel::Warn => " WARN",
            LogLevel::Error => "ERROR",
            LogLevel::Panic => "PANIC",
            LogLevel::Fatal => "FATAL",
        }
    }
}

} // verus!
