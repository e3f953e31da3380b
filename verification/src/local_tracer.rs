//! Events for the tracing sink of the host. The tracer says at which
//! severity a message is emitted; handing the event to the sink is left to
//! the caller.

use vstd::prelude::*;
use crate::registry_logger::LogLevel;
use crate::text::owned;

verus! {

/// A message together with the severity it is emitted at.
#[derive(Debug)]
pub struct TraceEvent {
    pub level: LogLevel,
    pub message: String,
}

/// The tracer.
pub struct LocalTracer {}

impl LocalTracer {
    /// `message` as a debug event.
    pub fn debug(message: &str) -> (r: TraceEvent)
        ensures
            r.level == LogLevel::Debug,
            r.message@ == message@,
    {
        TraceEvent { level: LogLevel::Debug, message: owned(message) }
    }

    /// `message` as an info event.
    pub fn info(message: &str) -> (r: TraceEvent)
        ensures
            r.level == LogLevel::Info,
            r.message@ == message@,
    {
        TraceEvent { level: LogLevel::Info, message: owned(message) }
    }

    /// `message` as a warning.
    pub fn warn(message: &str) -> (r: TraceEvent)
        ensures
            r.level == LogLevel::Warn,
            r.message@ == message@,
    {
        TraceEvent { level: LogLevel::Warn, message: owned(message) }
    }

    /// `message` as a trace event.
    pub fn trace(message: &str) -> (r: TraceEvent)
        ensures
            r.level == LogLevel::Trace,
            r.message@ == message@,
    {
        TraceEvent { level: LogLevel::Trace, message: owned(message) }
    }

    /// `message` as an error.
    pub fn error(message: &str) -> (r: TraceEvent)
        ensures
            r.level == LogLevel::Error,
            r.message@ == message@,
    {
        TraceEvent { level: LogLevel::Error, message: owned(message) }
    }
}

} // verus!
