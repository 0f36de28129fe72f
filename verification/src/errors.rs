//! The ways a drag-and-drop operation can fail.
//!
//! None of these is fatal: a failed drop leaves the list exactly as it was,
//! and the list stays interactive afterwards.

use vstd::prelude::*;

verus! {

/// Why a drop did not reorder the list.
#[derive(Clone, Copy, Debug, PartialEq, Eq, Structural)]
pub enum DragError {
    /// An identity key did not match the `item-<id>` derivation pattern.
    MalformedKey,
    /// The transfer channel carried no payload, so no drag was in flight.
    NoActiveSession,
    /// The dragged key matched no current element of the list.
    DraggedElementNotFound,
}

} // verus!
