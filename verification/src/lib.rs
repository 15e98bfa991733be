//! Adapters that turn the output of benchmark harnesses into one form of
//! results: for each benchmark, by name, its metrics in nanoseconds.

use vstd::prelude::*;

pub mod backup;
pub mod branch;
pub mod criterion;
pub mod decimal;
pub mod error;
pub mod jmh;
pub mod metric;
pub mod metrics;
pub mod names;
pub mod number;
pub mod perf;
pub mod project;
pub mod report;
pub mod results;
pub mod string_map;
pub mod text;
pub mod units;

verus! {

/// What is handed to an adapter with its input.
#[derive(Clone, Copy, Debug, PartialEq, Eq, Structural)]
pub struct Settings {
    /// Whether a failure that the harness reports is passed over, in place
    /// of ending the whole run.
    pub allow_failure: bool,
}

impl Default for Settings {
    fn default() -> (settings: Settings)
        ensures
            !settings.allow_failure,
    {
        Settings { allow_failure: false }
    }
}

} // verus!
