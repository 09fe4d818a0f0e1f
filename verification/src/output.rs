//! How command output is rendered.

use vstd::prelude::*;

verus! {

/// How command output should be rendered.
#[derive(Debug, Clone, Copy, PartialEq, Eq, Structural)]
pub enum OutputMode {
    /// Human-readable text (the default).
    Text,
    /// Machine-readable JSON, for CI consumption.
    Json,
}

impl Default for OutputMode {
    fn default() -> (r: Self)
        ensures
            r == OutputMode::Text,
    {
        OutputMode::Text
    }
}

/// The default log filter for a verbosity level: `0` gives `warn`, `1`
/// gives `info`, more gives `debug`.
pub open spec fn level_for(verbose: u8) -> Seq<char> {
    if verbose == 0 {
        "warn"@
    } else if verbose == 1 {
        "info"@
    } else {
        "debug"@
    }
}

/// The default log level for a verbosity count.
pub fn default_level(verbose: u8) -> (r: &'static str)
    ensures
        r@ == level_for(verbose),
{
    match verbose {
        0 => "warn",
        1 => "info",
        _ => "debug",
    }
}

} // verus!
