//! The log event as the shipper sees it.

use vstd::prelude::*;

verus! {

/// Severity of a log event.
#[derive(Clone, Copy, Debug, PartialEq, Eq, Structural)]
pub enum LogLevel {
    Fatal,
    Error,
    Warning,
    Info,
}

/// The name under which a level travels on the wire.
pub open spec fn level_name(level: LogLevel) -> Seq<char> {
    match level {
        LogLevel::Fatal => "Fatal"@,
        LogLevel::Error => "Error"@,
        LogLevel::Warning => "Warning"@,
        LogLevel::Info => "Info"@,
    }
}

impl LogLevel {
    /// The level's wire name.
    pub fn to_string(&self) -> (name: &'static str)
        ensures
            name@ == level_name(*self),
    {
        match self {
            LogLevel::Fatal => "Fatal",
            LogLevel::Error => "Error",
            LogLevel::Warning => "Warning",
            LogLevel::Info => "Info",
        }
    }
}

/// One log event. It is never changed after it was made: the buffer and the
/// encoder only move it and read it.
#[derive(Clone, Debug, PartialEq, Eq)]
pub struct LogEvent {
    pub level: LogLevel,
    /// Microseconds since 1970-01-01T00:00:00 UTC.
    pub dt: i64,
    pub process: String,
    pub message: String,
    pub context: Option<String>,
}

/// What an event says, as mathematical values.
pub struct LogEventView {
    pub level: LogLevel,
    pub dt: int,
    pub process: Seq<char>,
    pub message: Seq<char>,
    pub context: Option<Seq<char>>,
}

impl View for LogEvent {
    type V = LogEventView;

    open spec fn view(&self) -> LogEventView {
        LogEventView {
            level: self.level,
            dt: self.dt as int,
            process: self.process@,
            message: self.message@,
            context: match self.context {
                Some(text) => Some(text@),
                None => None,
            },
        }
    }
}

} // verus!
