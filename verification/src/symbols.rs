//! Single-width status glyphs used across command output.
//!
//! All constants are single-width and free of emoji presentation so that they
//! line up in fixed-width and tabular output.

use vstd::prelude::*;

verus! {

/// Success marker.
pub const OK: &'static str = "\u{2713}";

/// Failure marker.
pub const ERR: &'static str = "\u{2717}";

/// Informational bullet.
pub const BULLET: &'static str = "\u{2022}";

/// State-transition marker.
pub const TRANSITION: &'static str = "\u{2192}";

} // verus!
