//! The record filter and line format of a minimal process-wide logger.

use vstd::prelude::*;
use vstd::string::StringExecFns;

verus! {

/// The severity of a record, most severe first.
#[derive(Clone, Copy, Debug, PartialEq, Eq, Structural)]
pub enum Level {
    Error,
    Warn,
    Info,
    Debug,
    Trace,
}

/// The least severe level a logger accepts, or none at all.
#[derive(Clone, Copy, Debug, PartialEq, Eq, Structural)]
pub enum LevelFilter {
    Off,
    Error,
    Warn,
    Info,
    Debug,
    Trace,
}

/// The rank of a level: 1 for `Error` up to 5 for `Trace`.
pub open spec fn level_rank(l: Level) -> int {
    match l {
        Level::Error => 1,
        Level::Warn => 2,
        Level::Info => 3,
        Level::Debug => 4,
        Level::Trace => 5,
    }
}

/// The rank of a filter: 0 for `Off` up to 5 for `Trace`.
pub open spec fn filter_rank(f: LevelFilter) -> int {
    match f {
        LevelFilter::Off => 0,
        LevelFilter::Error => 1,
        LevelFilter::Warn => 2,
        LevelFilter::Info => 3,
        LevelFilter::Debug => 4,
        LevelFilter::Trace => 5,
    }
}

/// The name of a level in a log line.
pub open spec fn level_name_v(l: Level) -> Seq<char> {
    match l {
        Level::Error => "ERROR"@,
        Level::Warn => "WARN"@,
        Level::Info => "INFO"@,
        Level::Debug => "DEBUG"@,
        Level::Trace => "TRACE"@,
    }
}

/// The line written for a record: `<LEVEL> - <message>`.
pub open spec fn log_line_v(l: Level, msg: Seq<char>) -> Seq<char> {
    level_name_v(l) + " - "@ + msg
}

/// The name of a level in a log line.
pub fn level_name(l: Level) -> (r: &'static str)
    ensures
        r@ == level_name_v(l),
{
    match l {
        Level::Error => "ERROR",
        Level::Warn => "WARN",
        Level::Info => "INFO",
        Level::Debug => "DEBUG",
        Level::Trace => "TRACE",
    }
}

/// The line written for a record: `<LEVEL> - <message>`.
pub fn format_line(l: Level, msg: &str) -> (r: String)
    ensures
        r@ == log_line_v(l, msg@),
{
    let mut s = level_name(l).to_owned();
    s.append(" - ");
    s.append(msg);
    s
}

/// A logger that accepts records down to a minimum severity.
#[derive(Clone, Copy, Debug)]
pub struct SimpleLogger {
    pub max_level: LevelFilter,
}

impl SimpleLogger {
    /// A logger that accepts records of `max_level` and more severe ones.
    pub fn new(max_level: LevelFilter) -> (r: Self)
        ensures
            r.max_level == max_level,
    {
        SimpleLogger { max_level }
    }

    /// Whether a record of `level` is written.
    pub fn enabled(&self, level: Level) -> (r: bool)
        ensures
            r == (level_rank(level) <= filter_rank(self.max_level)),
    {
        let rank: u8 = match level {
            Level::Error => 1,
            Level::Warn => 2,
            Level::Info => 3,
            Level::Debug => 4,
            Level::Trace => 5,
        };
        let max: u8 = match self.max_level {
            LevelFilter::Off => 0,
            LevelFilter::Error => 1,
            LevelFilter::Warn => 2,
            LevelFilter::Info => 3,
            LevelFilter::Debug => 4,
            LevelFilter::Trace => 5,
        };
        rank <= max
    }

    /// The line to write for a record, or `None` when it is filtered out.
    pub fn log(&self, level: Level, msg: &str) -> (r: Option<String>)
        ensures
            r is Some <==> level_rank(level) <= filter_rank(self.max_level),
            r is Some ==> r->Some_0@ == log_line_v(level, msg@),
    {
        if self.enabled(level) {
            Some(format_line(level, msg))
        } else {
            None
        }
    }
}

impl Default for SimpleLogger {
    /// The default logger writes errors only.
    fn default() -> (r: Self)
        ensures
            r.max_level == LevelFilter::Error,
    {
        SimpleLogger { max_level: LevelFilter::Error }
    }
}

} // verus!
