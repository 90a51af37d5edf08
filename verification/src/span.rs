//! Selection of the engine's tracing span.
//!
//! The engine logs under one span whose level is the most verbose level the
//! surrounding process has enabled. Probing which levels are enabled, and
//! building the actual subscriber-side span, are the caller's concern: the
//! caller hands the probe results in as plain flags and receives the chosen
//! level back together with the span's name.

use vstd::prelude::*;
use vstd::string::*;

verus! {

/// A logging verbosity level, from most verbose to least.
#[derive(Clone, Copy, PartialEq, Eq, Structural, Debug)]
pub enum LogLevel {
    Trace,
    Debug,
    Info,
    Warn,
    Error,
}

/// Which levels the surrounding process has enabled for this component.
/// `Error` is always available and so carries no flag: it is the fallback.
#[derive(Clone, Copy, PartialEq, Eq, Structural, Debug)]
pub struct EnabledLevels {
    pub trace: bool,
    pub debug: bool,
    pub info: bool,
    pub warn: bool,
}

/// The most verbose level that is enabled, `Error` if none is.
pub open spec fn most_verbose_enabled(levels: EnabledLevels) -> LogLevel {
    if levels.trace {
        LogLevel::Trace
    } else if levels.debug {
        LogLevel::Debug
    } else if levels.info {
        LogLevel::Info
    } else if levels.warn {
        LogLevel::Warn
    } else {
        LogLevel::Error
    }
}

/// The engine's span: its name and the level chosen for it.
pub struct Span {
    pub name: String,
    pub level: LogLevel,
}

/// Creates the engine's span from its name: the span is pinned at the most
/// verbose level that the process has enabled, falling back to `Error`.
pub fn create_span(tcp_name: &str, levels: EnabledLevels) -> (r: Span)
    ensures
        r.name@ == tcp_name@,
        r.level == most_verbose_enabled(levels),
{
    let level = if levels.trace {
        LogLevel::Trace
    } else if levels.debug {
        LogLevel::Debug
    } else if levels.info {
        LogLevel::Info
    } else if levels.warn {
        LogLevel::Warn
    } else {
        LogLevel::Error
    };
    Span { name: String::from_str(tcp_name), level }
}

} // verus!
