//! Level-gated logging policy: a logger value carries the minimum level
//! and decides which messages are emitted; the emission itself is left
//! to the caller.

use vstd::prelude::*;

verus! {

/// Message severity, most severe first.
#[derive(Clone, Copy, Debug, PartialEq, Eq, Structural)]
pub enum LogLevel {
    Error,
    Warn,
    Info,
    Debug,
}

/// The verbosity rank of a level: higher ranks are chattier.
pub open spec fn level_rank(l: LogLevel) -> int {
    match l {
        LogLevel::Error => 0,
        LogLevel::Warn => 1,
        LogLevel::Info => 2,
        LogLevel::Debug => 3,
    }
}

/// An explicitly passed logging capability, in place of process-wide
/// mutable state.
#[derive(Clone, Copy, Debug, PartialEq, Eq, Structural)]
pub struct Logger {
    pub min_level: LogLevel,
}

impl Logger {
    /// Whether a message at `level` is emitted: it is exactly when its
    /// rank does not exceed the configured minimum level's rank.
    pub fn should_log(&self, level: LogLevel) -> (r: bool)
        ensures
            r == (level_rank(level) <= level_rank(self.min_level)),
    {
        let lr: u8 = match level {
            LogLevel::Error => 0,
            LogLevel::Warn => 1,
            LogLevel::Info => 2,
            LogLevel::Debug => 3,
        };
        let mr: u8 = match self.min_level {
            LogLevel::Error => 0,
            LogLevel::Warn => 1,
            LogLevel::Info => 2,
            LogLevel::Debug => 3,
        };
        lr <= mr
    }
}

/// Builds the logger gating at `min_level`.
pub fn logger_init(min_level: LogLevel) -> (r: Logger)
    ensures
        r.min_level == min_level,
{
    Logger { min_level }
}

} // verus!
