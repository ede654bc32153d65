use vstd::prelude::*;

verus! {

/// Severity class of a log line.
#[derive(Debug, Clone, Copy, PartialEq, Eq, Structural, Hash)]
pub enum LogLevel {
    Trace,
    Debug,
    Info,
    Warn,
    Error,
    Fatal,
    Unknown,
}

/// Ordering score of a level: higher is more severe; an unknown level
/// ranks with `Trace`.
pub open spec fn severity_of(l: LogLevel) -> u8 {
    match l {
        LogLevel::Trace => 0,
        LogLevel::Debug => 1,
        LogLevel::Info => 2,
        LogLevel::Warn => 3,
        LogLevel::Error => 4,
        LogLevel::Fatal => 5,
        LogLevel::Unknown => 0,
    }
}

impl LogLevel {
    /// Severity score for ordering (higher = more severe).
    pub fn severity(&self) -> (r: u8)
        ensures
            r == severity_of(*self),
    {
        match self {
            LogLevel::Trace => 0,
            LogLevel::Debug => 1,
            LogLevel::Info => 2,
            LogLevel::Warn => 3,
            LogLevel::Error => 4,
            LogLevel::Fatal => 5,
            LogLevel::Unknown => 0,
        }
    }
}

} // verus!
