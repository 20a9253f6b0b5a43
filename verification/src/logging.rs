//! The level at which the gateway logs.

use vstd::prelude::*;
use crate::text::{lowercase, str_eq, to_lowercase};

verus! {

/// A log level.
#[derive(Debug, Clone, Copy, PartialEq, Eq, Structural)]
pub enum LogLevel {
    Trace,
    Debug,
    Info,
    Warn,
    Error,
}

/// The level that a name in lower case stands for; a name that is none of
/// `trace`, `debug`, `info`, `warn` and `error` stands for `Info`.
pub open spec fn level_named(lowered: Seq<char>) -> LogLevel {
    if lowered == "trace"@ {
        LogLevel::Trace
    } else if lowered == "debug"@ {
        LogLevel::Debug
    } else if lowered == "warn"@ {
        LogLevel::Warn
    } else if lowered == "error"@ {
        LogLevel::Error
    } else {
        LogLevel::Info
    }
}

/// The level that `lowered`, a name in lower case, stands for.
pub fn level_from_name(lowered: &str) -> (level: LogLevel)
    ensures
        level == level_named(lowered@),
{
    if str_eq(lowered, "trace") {
        LogLevel::Trace
    } else if str_eq(lowered, "debug") {
        LogLevel::Debug
    } else if str_eq(lowered, "warn") {
        LogLevel::Warn
    } else if str_eq(lowered, "error") {
        LogLevel::Error
    } else {
        LogLevel::Info
    }
}

/// The level that the configured name stands for, in whatever case it is
/// written.
pub fn log_level(configured: &str) -> (level: LogLevel)
    ensures
        level == level_named(lowercase(configured@)),
{
    let lowered = to_lowercase(configured);
    level_from_name(lowered.as_str())
}

} // verus!
