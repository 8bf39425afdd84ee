//! Working hours between two calendar dates, grouped by year, month and
//! week-aligned reporting period, with weekends and public holidays left out.

pub mod args;
pub mod calendar;
pub mod holidays;
pub mod hours_model;
pub mod hours_tree;
pub mod labels;
pub mod naive_date;
pub mod period;
pub mod workhours;

use vstd::prelude::*;

verus! {

/// How much of what happens is logged, from the least to the most.
#[derive(Clone, Copy, Debug, PartialEq, Eq, Structural)]
pub enum LogLevel {
    Error,
    Warn,
    Info,
    Debug,
    Trace,
}

/// The log level for a verbosity: 1 is errors only, 2 adds warnings, 3 adds
/// information, 4 adds debugging, and every other number logs everything.
pub open spec fn log_level_of(verbose: u8) -> LogLevel {
    if verbose == 1 {
        LogLevel::Error
    } else if verbose == 2 {
        LogLevel::Warn
    } else if verbose == 3 {
        LogLevel::Info
    } else if verbose == 4 {
        LogLevel::Debug
    } else {
        LogLevel::Trace
    }
}

/// The log level for a verbosity.
pub fn get_log_level(verbose: u8) -> (r: LogLevel)
    ensures
        r == log_level_of(verbose),
{
    match verbose {
        1 => LogLevel::Error,
        2 => LogLevel::Warn,
        3 => LogLevel::Info,
        4 => LogLevel::Debug,
        _ => LogLevel::Trace,
    }
}

} // verus!
