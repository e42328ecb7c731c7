//! A capturing logger: it filters messages by severity and keeps the
//! accepted lines in order. A driver renders the kept lines to its own
//! sink with its own timestamps.

use vstd::prelude::*;

verus! {

/// Log severities, most severe first.
#[derive(Clone, Copy, Debug, PartialEq, Eq, Structural)]
pub enum Level {
    Error,
    Warn,
    Info,
    Debug,
    Trace,
}

/// The rank of a severity; smaller is more severe.
pub open spec fn severity(l: Level) -> nat {
    match l {
        Level::Error => 1,
        Level::Warn => 2,
        Level::Info => 3,
        Level::Debug => 4,
        Level::Trace => 5,
    }
}

/// A level-filtering logger that keeps accepted lines in order.
pub struct Logger {
    pub max_level: Level,
    pub lines: Vec<String>,
}

/// A logger filtering at `max_level`, with nothing logged yet.
pub fn init(max_level: Level) -> (lg: Logger)
    ensures
        lg.max_level == max_level,
        lg.lines@.len() == 0,
{
    Logger { max_level, lines: Vec::new() }
}

impl Logger {
    /// Whether a message at `level` is kept: at most as severe as the
    /// configured maximum, and never more verbose than `Info`.
    pub open spec fn enabled_spec(&self, level: Level) -> bool {
        severity(level) <= severity(self.max_level) && severity(level) <= severity(Level::Info)
    }

    fn rank(level: Level) -> (r: u8)
        ensures
            r as nat == severity(level),
    {
        match level {
            Level::Error => 1,
            Level::Warn => 2,
            Level::Info => 3,
            Level::Debug => 4,
            Level::Trace => 5,
        }
    }

    /// Whether a message at `level` would be kept.
    pub fn enabled(&self, level: Level) -> (r: bool)
        ensures
            r == self.enabled_spec(level),
    {
        Self::rank(level) <= Self::rank(self.max_level) && Self::rank(level) <= 3
    }

    /// Keeps `message` if its level passes the filter; otherwise the
    /// logger is unchanged.
    pub fn log(&mut self, level: Level, message: String)
        ensures
            final(self).max_level == old(self).max_level,
            old(self).enabled_spec(level) ==> final(self).lines@ == old(self).lines@.push(
                message,
            ),
            !old(self).enabled_spec(level) ==> *final(self) == *old(self),
    {
        if self.enabled(level) {
            self.lines.push(message);
        }
    }
}

} // verus!
