//! Severity levels for the process log.
//!
//! Writing the log line itself is I/O and lives outside the library; the
//! level is plain data that callers attach to a message.

use vstd::prelude::*;

verus! {

/// Severity of one log message.
#[derive(Clone, Copy, Debug, PartialEq, Eq, Structural)]
pub enum LogLevel {
    Debug,
    Info,
    Warning,
    Danger,
}

/// The tag under which a message of the given level is reported.
pub open spec fn spec_level_tag(level: LogLevel) -> Seq<char> {
    match level {
        LogLevel::Debug => "DEBUG"@,
        LogLevel::Info => "INFO"@,
        LogLevel::Warning => "WARNING"@,
        LogLevel::Danger => "DANGER"@,
    }
}

impl LogLevel {
    /// The tag under which a message of this level is reported.
    pub fn tag(&self) -> (r: String)
        ensures
            r@ == spec_level_tag(*self),
    {
        match self {
            LogLevel::Debug => String::from_str("DEBUG"),
            LogLevel::Info => String::from_str("INFO"),
            LogLevel::Warning => String::from_str("WARNING"),
            LogLevel::Danger => String::from_str("DANGER"),
        }
    }
}

} // verus!
