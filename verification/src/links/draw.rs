//! Draws of a chance: the outcome of one random draw, which only a draw can
//! make.

use vstd::prelude::*;

verus! {

/// The outcome of one draw of a chance: whether the event drawn for
/// happens. Its field is private, so a value comes only from `random_ratio`.
pub struct Draw {
    happens: bool,
}

impl Draw {
    /// Whether the event drawn for happens.
    pub closed spec fn happened(&self) -> bool {
        self.happens
    }

    /// Whether the event drawn for happens.
    pub fn happens(&self) -> (r: bool)
        ensures
            r == self.happened(),
    {
        self.happens
    }
}

/// Calls `rand::random_ratio(numerator, denominator)`, which gives
/// `true` with the chance `numerator / denominator`, and keeps the outcome
/// as a draw; the contract claims only what rand documents of every
/// outcome: `false` for a numerator of 0, and `true` where the numerator
/// equals the denominator. rand panics for a zero denominator or a numerator
/// above it, which `requires` leaves out.
#[verifier::external_body]
pub(crate) fn random_ratio(numerator: u32, denominator: u32) -> (r: Draw)
    requires
        0 < denominator,
        numerator <= denominator,
    ensures
        numerator == 0 ==> !r.happened(),
        numerator == denominator ==> r.happened(),
{
    Draw { happens: rand::random_ratio(numerator, denominator) }
}

} // verus!
