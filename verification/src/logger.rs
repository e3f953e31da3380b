//! The plain logger of the router plugin, whose levels are given by name.
//! A level shows its own messages and those of every level listed before it.

use vstd::prelude::*;
use crate::text::{prefixed, same_text};

verus! {

/// The position of the level named `level`, if it names one. The levels
/// are `trace`, `error`, `warn`, `info` and `debug`, in this order.
pub open spec fn level_score(level: Seq<char>) -> Option<int> {
    if level == "trace"@ {
        Some(0int)
    } else if level == "error"@ {
        Some(1int)
    } else if level == "warn"@ {
        Some(2int)
    } else if level == "info"@ {
        Some(3int)
    } else if level == "debug"@ {
        Some(4int)
    } else {
        None
    }
}

/// Whether messages of `level` are shown when the logger is set to `current`.
pub open spec fn shows(current: Seq<char>, level: Seq<char>) -> bool {
    level_score(current)->0 >= level_score(level)->0
}

/// The line shown for `message` at `level`, if one is shown.
pub open spec fn shown_line(current: Seq<char>, level: Seq<char>, label: Seq<char>, message: Seq<char>) -> Option<
    Seq<char>,
> {
    if shows(current, level) {
        Some(label + message)
    } else {
        None
    }
}

/// The view of an optional owned line.
pub open spec fn line_view(line: Option<String>) -> Option<Seq<char>> {
    match line {
        Some(s) => Some(s@),
        None => None,
    }
}

/// The logger. It holds no state: the level in force is handed to each call.
pub struct Logger {}

impl Logger {
    /// The position of the level named `log_level`, if it names one.
    pub fn try_log_level_score(log_level: &str) -> (r: Option<usize>)
        ensures
            match r {
                Some(score) => level_score(log_level@) == Some(score as int),
                None => level_score(log_level@) is None,
            },
    {
        if same_text(log_level, "trace") {
            Some(0)
        } else if same_text(log_level, "error") {
            Some(1)
        } else if same_text(log_level, "warn") {
            Some(2)
        } else if same_text(log_level, "info") {
            Some(3)
        } else if same_text(log_level, "debug") {
            Some(4)
        } else {
            None
        }
    }

    /// The position of the level named `log_level`, which must name a level.
    pub fn find_log_level_score(log_level: &str) -> (r: usize)
        requires
            level_score(log_level@) is Some,
        ensures
            level_score(log_level@) == Some(r as int),
    {
        match Logger::try_log_level_score(log_level) {
            Some(score) => score,
            None => 0,
        }
    }

    /// Whether messages of `level` are shown when the logger is set to
    /// `current`. Both must name a level.
    pub fn should_log(current: &str, level: &str) -> (r: bool)
        requires
            level_score(current@) is Some,
            level_score(level@) is Some,
        ensures
            r == shows(current@, level@),
    {
        Logger::find_log_level_score(current) >= Logger::find_log_level_score(level)
    }

    /// The line `DEBUG: message`, if the level `current` shows it.
    pub fn debug(current: &str, message: &str) -> (r: Option<String>)
        requires
            level_score(current@) is Some,
        ensures
            line_view(r) == shown_line(current@, "debug"@, "DEBUG: "@, message@),
    {
        if Logger::should_log(current, "debug") {
            Some(prefixed("DEBUG: ", message))
        } else {
            None
        }
    }

    /// The line `INFO: message`, if the level `current` shows it.
    pub fn info(current: &str, message: &str) -> (r: Option<String>)
        requires
            level_score(current@) is Some,
        ensures
            line_view(r) == shown_line(current@, "info"@, "INFO: "@, message@),
    {
        if Logger::should_log(current, "info") {
            Some(prefixed("INFO: ", message))
        } else {
            None
        }
    }

    /// The line `WARNING: message`, if the level `current` shows it.
    pub fn warn(current: &str, message: &str) -> (r: Option<String>)
        requires
            level_score(current@) is Some,
        ensures
            line_view(r) == shown_line(current@, "warn"@, "WARNING: "@, message@),
    {
        if Logger::should_log(current, "warn") {
            Some(prefixed("WARNING: ", message))
        } else {
            None
        }
    }

    /// The line `TRACE: message`; every level shows it.
    pub fn trace(current: &str, message: &str) -> (r: Option<String>)
        requires
            level_score(current@) is Some,
        ensures
            line_view(r) == shown_line(current@, "trace"@, "TRACE: "@, message@),
    {
        if Logger::should_log(current, "trace") {
            Some(prefixed("TRACE: ", message))
        } else {
            None
        }
    }

    /// The line `ERROR: message`, if the level `current` shows it.
    pub fn error(current: &str, message: &str) -> (r: Option<String>)
        requires
            level_score(current@) is Some,
        ensures
            line_view(r) == shown_line(current@, "error"@, "ERROR: "@, message@),
    {
        if Logger::should_log(current, "error") {
            Some(prefixed("ERROR: ", message))
        } else {
            None
        }
    }
}

} // verus!
