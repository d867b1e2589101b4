//! Level filtering for the log files: each file takes a band of levels.

use vstd::prelude::*;

verus! {

/// A log level or level bound, from the most to the least severe, with `Off`
/// below them all.
#[derive(Debug, Clone, Copy, PartialEq, Eq, Structural)]
pub enum LogLevel {
    Off,
    Error,
    Warn,
    Info,
    Debug,
    Trace,
}

/// The position of a level in the order `Off < Error < Warn < Info < Debug < Trace`.
pub open spec fn rank(l: LogLevel) -> int {
    match l {
        LogLevel::Off => 0,
        LogLevel::Error => 1,
        LogLevel::Warn => 2,
        LogLevel::Info => 3,
        LogLevel::Debug => 4,
        LogLevel::Trace => 5,
    }
}

fn rank_of(l: LogLevel) -> (r: u8)
    ensures
        r == rank(l),
{
    match l {
        LogLevel::Off => 0,
        LogLevel::Error => 1,
        LogLevel::Warn => 2,
        LogLevel::Info => 3,
        LogLevel::Debug => 4,
        LogLevel::Trace => 5,
    }
}

/// Accepts the records whose level lies between two bounds, inclusive; the
/// bounds may be given in either order.
#[derive(Debug, Clone, Copy, PartialEq, Eq, Structural)]
pub struct PassThroughFilter {
    level_range_start: LogLevel,
    level_range_end: LogLevel,
}

impl PassThroughFilter {
    pub closed spec fn start(&self) -> LogLevel {
        self.level_range_start
    }

    pub closed spec fn end(&self) -> LogLevel {
        self.level_range_end
    }

    pub fn new(level_range_start: LogLevel, level_range_end: LogLevel) -> (r: PassThroughFilter)
        ensures
            r.start() == level_range_start,
            r.end() == level_range_end,
    {
        PassThroughFilter { level_range_start, level_range_end }
    }

    /// Whether a record at `level` passes: its level is between the two bounds.
    pub fn accepts(&self, level: LogLevel) -> (r: bool)
        ensures
            r == ((rank(self.start()) <= rank(level) && rank(level) <= rank(self.end())) || (
            rank(self.end()) <= rank(level) && rank(level) <= rank(self.start()))),
    {
        let l = rank_of(level);
        let s = rank_of(self.level_range_start);
        let e = rank_of(self.level_range_end);
        (s <= l && l <= e) || (e <= l && l <= s)
    }
}

} // verus!
