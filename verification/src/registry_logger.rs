//! The leveled logger of the schema registry poller. The logger decides
//! whether a message is shown and how its line reads; printing the line is
//! left to the caller.

use vstd::prelude::*;
use crate::text::{eq_ignore_ascii_case, prefixed};

verus! {

/// A log level. A logger set to a level shows that level and every level
/// that comes before it in this order.
#[derive(Clone, Copy, PartialEq, Eq, Debug, Structural)]
pub enum LogLevel {
    Error,
    Warn,
    Info,
    Debug,
    Trace,
}

/// The position of a level in the order of levels.
pub open spec fn level_rank(level: LogLevel) -> int {
    match level {
        LogLevel::Error => 0,
        LogLevel::Warn => 1,
        LogLevel::Info => 2,
        LogLevel::Debug => 3,
        LogLevel::Trace => 4,
    }
}

/// The level at a position in the order of levels.
pub open spec fn level_at(u: int) -> Option<LogLevel> {
    if u == 0 {
        Some(LogLevel::Error)
    } else if u == 1 {
        Some(LogLevel::Warn)
    } else if u == 2 {
        Some(LogLevel::Info)
    } else if u == 3 {
        Some(LogLevel::Debug)
    } else if u == 4 {
        Some(LogLevel::Trace)
    } else {
        None
    }
}

/// The name of a level.
pub open spec fn level_name(level: LogLevel) -> Seq<char> {
    match level {
        LogLevel::Error => "ERROR"@,
        LogLevel::Warn => "WARN"@,
        LogLevel::Info => "INFO"@,
        LogLevel::Debug => "DEBUG"@,
        LogLevel::Trace => "TRACE"@,
    }
}

/// The first level whose name matches `s` without regard to ASCII case.
pub open spec fn parse_level(s: Seq<char>) -> Option<LogLevel> {
    if crate::text::same_ignoring_ascii_case("ERROR"@, s) {
        Some(LogLevel::Error)
    } else if crate::text::same_ignoring_ascii_case("WARN"@, s) {
        Some(LogLevel::Warn)
    } else if crate::text::same_ignoring_ascii_case("INFO"@, s) {
        Some(LogLevel::Info)
    } else if crate::text::same_ignoring_ascii_case("DEBUG"@, s) {
        Some(LogLevel::Debug)
    } else if crate::text::same_ignoring_ascii_case("TRACE"@, s) {
        Some(LogLevel::Trace)
    } else {
        None
    }
}

/// The label that starts a printed line of a level.
pub open spec fn level_label(level: LogLevel) -> Seq<char> {
    match level {
        LogLevel::Error => "ERROR: "@,
        LogLevel::Warn => "WARNING: "@,
        LogLevel::Info => "INFO: "@,
        LogLevel::Debug => "DEBUG: "@,
        LogLevel::Trace => "TRACE: "@,
    }
}

impl LogLevel {
    /// The level at position `u`, if there is one.
    pub fn from_usize(u: usize) -> (r: Option<LogLevel>)
        ensures
            r == level_at(u as int),
    {
        match u {
            0 => Some(LogLevel::Error),
            1 => Some(LogLevel::Warn),
            2 => Some(LogLevel::Info),
            3 => Some(LogLevel::Debug),
            4 => Some(LogLevel::Trace),
            _ => None,
        }
    }

    /// The position of this level.
    pub fn rank(&self) -> (r: usize)
        ensures
            r == level_rank(*self),
            level_at(r as int) == Some(*self),
    {
        match self {
            LogLevel::Error => 0,
            LogLevel::Warn => 1,
            LogLevel::Info => 2,
            LogLevel::Debug => 3,
            LogLevel::Trace => 4,
        }
    }

    /// The level that `s` names, without regard to ASCII case.
    pub fn parse(s: &str) -> (r: Option<LogLevel>)
        ensures
            r == parse_level(s@),
    {
        if eq_ignore_ascii_case("ERROR", s) {
            Some(LogLevel::Error)
        } else if eq_ignore_ascii_case("WARN", s) {
            Some(LogLevel::Warn)
        } else if eq_ignore_ascii_case("INFO", s) {
            Some(LogLevel::Info)
        } else if eq_ignore_ascii_case("DEBUG", s) {
            Some(LogLevel::Debug)
        } else if eq_ignore_ascii_case("TRACE", s) {
            Some(LogLevel::Trace)
        } else {
            None
        }
    }

    /// The level that `s` names. `s` must name a level.
    pub fn from_str(s: &str) -> (r: LogLevel)
        requires
            parse_level(s@) is Some,
        ensures
            parse_level(s@) == Some(r),
    {
        match LogLevel::parse(s) {
            Some(level) => level,
            None => LogLevel::Info,
        }
    }

    /// The name of this level.
    pub fn as_str(&self) -> (r: &'static str)
        ensures
            r@ == level_name(*self),
    {
        match self {
            LogLevel::Error => "ERROR",
            LogLevel::Warn => "WARN",
            LogLevel::Info => "INFO",
            LogLevel::Debug => "DEBUG",
            LogLevel::Trace => "TRACE",
        }
    }
}

/// A logger that shows the messages of its level and of the levels before it.
#[derive(Clone, Debug)]
pub struct Logger {
    pub max_level: LogLevel,
}

/// The line that a logger of level `max_level` shows for `message` at
/// `level`, if it shows one.
pub open spec fn shown(max_level: LogLevel, level: LogLevel, message: Seq<char>) -> Option<Seq<char>> {
    if level_rank(max_level) >= level_rank(level) {
        Some(level_label(level) + message)
    } else {
        None
    }
}

/// The view of an optional owned line.
pub open spec fn line_view(line: Option<String>) -> Option<Seq<char>> {
    match line {
        Some(s) => Some(s@),
        None => None,
    }
}

impl Logger {
    /// A logger of the level that `setting` names, or of the level `INFO`
    /// where there is no setting. The setting must name a level.
    pub fn new(setting: Option<&str>) -> (r: Logger)
        requires
            setting matches Some(s) ==> parse_level(s@) is Some,
        ensures
            match setting {
                Some(s) => parse_level(s@) == Some(r.max_level),
                None => r.max_level == LogLevel::Info,
            },
    {
        match setting {
            Some(s) => Logger { max_level: LogLevel::from_str(s) },
            None => Logger { max_level: LogLevel::Info },
        }
    }

    /// As `new`, but `None` where the setting names no level.
    pub fn try_new(setting: Option<&str>) -> (r: Option<Logger>)
        ensures
            match setting {
                Some(s) => match r {
                    Some(logger) => parse_level(s@) == Some(logger.max_level),
                    None => parse_level(s@) is None,
                },
                None => r matches Some(logger) && logger.max_level == LogLevel::Info,
            },
    {
        match setting {
            Some(s) => match LogLevel::parse(s) {
                Some(level) => Some(Logger { max_level: level }),
                None => None,
            },
            None => Some(Logger { max_level: LogLevel::Info }),
        }
    }

    /// Whether a message of `level` is shown.
    pub fn should_log(&self, level: LogLevel) -> (r: bool)
        ensures
            r == (level_rank(self.max_level) >= level_rank(level)),
    {
        self.max_level.rank() >= level.rank()
    }

    /// The line for `message` at `level`, if it is shown.
    pub fn line(&self, level: LogLevel, message: &str) -> (r: Option<String>)
        ensures
            line_view(r) == shown(self.max_level, level, message@),
    {
        if self.should_log(level) {
            let label = match level {
                LogLevel::Error => "ERROR: ",
                LogLevel::Warn => "WARNING: ",
                LogLevel::Info => "INFO: ",
                LogLevel::Debug => "DEBUG: ",
                LogLevel::Trace => "TRACE: ",
            };
            Some(prefixed(label, message))
        } else {
            None
        }
    }

    /// The line `TRACE: message`, if trace messages are shown.
    pub fn trace(&self, message: &str) -> (r: Option<String>)
        ensures
            line_view(r) == shown(self.max_level, LogLevel::Trace, message@),
    {
        self.line(LogLevel::Trace, message)
    }

    /// The line `DEBUG: message`, if debug messages are shown.
    pub fn debug(&self, message: &str) -> (r: Option<String>)
        ensures
            line_view(r) == shown(self.max_level, LogLevel::Debug, message@),
    {
        self.line(LogLevel::Debug, message)
    }

    /// The line `INFO: message`, if info messages are shown.
    pub fn info(&self, message: &str) -> (r: Option<String>)
        ensures
            line_view(r) == shown(self.max_level, LogLevel::Info, message@),
    {
        self.line(LogLevel::Info, message)
    }

    /// The line `WARNING: message`, if warnings are shown.
    pub fn warn(&self, message: &str) -> (r: Option<String>)
        ensures
            line_view(r) == shown(self.max_level, LogLevel::Warn, message@),
    {
        self.line(LogLevel::Warn, message)
    }

    /// The line `ERROR: message`; errors are shown at every level.
    pub fn error(&self, message: &str) -> (r: Option<String>)
        ensures
            line_view(r) == shown(self.max_level, LogLevel::Error, message@),
            r is Some,
    {
        self.line(LogLevel::Error, message)
    }
}

} // verus!
