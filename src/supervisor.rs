use vstd::prelude::*;

verus! {

/// Capacity of each channel between the primary, consensus and the output pipeline.
pub const CHANNEL_CAPACITY: usize = 1_000;

/// Capacity of the command channel of a store actor.
pub const STORE_CHANNEL_CAPACITY: usize = 100;

/// The log filter for a count of `-v` flags.
pub open spec fn log_level_of(verbosity: u64) -> Seq<char> {
    if verbosity == 0 {
        "error"@
    } else if verbosity == 1 {
        "warn"@
    } else if verbosity == 2 {
        "info"@
    } else if verbosity == 3 {
        "debug"@
    } else {
        "trace"@
    }
}

/// Maps the number of `-v` flags to a log filter: none gives `error`, then
/// `warn`, `info`, `debug`, and `trace` from four on.
pub fn log_level(verbosity: u64) -> (r: &'static str)
    ensures
        r@ == log_level_of(verbosity),
{
    if verbosity == 0 {
        "error"
    } else if verbosity == 1 {
        "warn"
    } else if verbosity == 2 {
        "info"
    } else if verbosity == 3 {
        "debug"
    } else {
        "trace"
    }
}

} // verus!
