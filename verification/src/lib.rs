//! A verified core for a `head`-style utility.
//!
//! Given one or more fully buffered inputs, the library selects a prefix of
//! each — the first N lines or the first N bytes, where a negative N means
//! "all but the last |N|" — and renders the selected content together with
//! optional `==> name <==` headers. Count arguments may carry a multiplier
//! suffix (`b`, `kB`, `K`, `MB`, `M`, `GB`, `G`).

use vstd::prelude::*;

pub mod config;
pub mod count;
pub mod render;
pub mod select;
pub mod units;

verus! {

/// The ways a request can fail before or during prefix selection.
#[derive(Debug, Clone, Copy, PartialEq, Eq, Structural)]
pub enum HeadError {
    /// The leading signed-digit run of a count argument is not a valid
    /// integer, or the scaled count does not fit in a 64-bit integer.
    InvalidCount,
    /// The count argument carries a suffix that names no known multiplier.
    UnrecognizedMultiplier,
    /// A negative count asks to drop more units than the input holds.
    Underflow,
}

/// The diagnostic line each error is reported with.
pub open spec fn spec_error_message(e: HeadError) -> Seq<char> {
    match e {
        HeadError::InvalidCount => "invalid number of bytes or lines"@,
        HeadError::UnrecognizedMultiplier => "invalid multiplier suffix"@,
        HeadError::Underflow => "negative count exceeds the number of units in the input"@,
    }
}

impl HeadError {
    /// Renders the error as a diagnostic line.
    pub fn message(&self) -> (r: String)
        ensures
            r@ == spec_error_message(*self),
    {
        match self {
            HeadError::InvalidCount => "invalid number of bytes or lines".to_owned(),
            HeadError::UnrecognizedMultiplier => "invalid multiplier suffix".to_owned(),
            HeadError::Underflow => "negative count exceeds the number of units in the input".to_owned(),
        }
    }
}

} // verus!
