//! Severity levels of log messages.
use vstd::prelude::*;

verus! {

/// How severe a log message is, from least to most.
#[derive(Debug, Clone, Copy, PartialEq, Eq, Structural, PartialOrd, Ord, Hash)]
pub enum LogLevel {
    Debug,
    Info,
    Warning,
    Error,
}

impl LogLevel {
    /// The level's label as printed in a log line.
    pub fn as_str(&self) -> (r: &'static str)
        ensures
            r@ == match *self {
                LogLevel::Debug => "DEBUG"@,
                LogLevel::Info => "INFO"@,
                LogLevel::Warning => "WARNING"@,
                LogLevel::Error => "ERROR"@,
            },
    {
        match self {
            LogLevel::Debug => "DEBUG",
            LogLevel::Info => "INFO",
            LogLevel::Warning => "WARNING",
            LogLevel::Error => "ERROR",
        }
    }
}

} // verus!
