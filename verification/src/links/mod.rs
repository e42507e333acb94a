pub mod draw;
pub mod envelope;
pub mod monitoring;
pub mod spec;

use crate::links::envelope::Envelope;
use vstd::prelude::*;

verus! {

/// What a link reports to the layer above it.
#[derive(Debug)]
pub enum Event {
    /// The envelope has arrived at its receiver.
    Delivered(Envelope),
}

} // verus!
