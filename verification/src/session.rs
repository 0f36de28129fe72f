//! The drag session tracker.
//!
//! One drag gesture carries the dragged element's identity key across the
//! drag-start to drop sequence in a transfer channel, not in component state.
//! The channel is an explicit value handed through the event call chain, so
//! a session is scoped to exactly one gesture.

use vstd::prelude::*;

verus! {

use crate::errors::DragError;
use crate::identity::key_chars;
use crate::identity::key_of;

/// The carrier for a drag gesture's payload: at most one identity key,
/// stored under the reserved item-id slot.
///
/// Its payload is opaque to everything but [`begin_drag`] and
/// [`resolve_dragged_key`]; a foreign drag source may hand in any string.
pub struct TransferChannel {
    payload: Option<String>,
}

impl View for TransferChannel {
    type V = Option<Seq<char>>;

    closed spec fn view(&self) -> Option<Seq<char>> {
        match self.payload {
            Some(s) => Some(s@),
            None => None,
        }
    }
}

impl TransferChannel {
    /// A channel with no payload: no drag in flight.
    pub fn new() -> (c: TransferChannel)
        ensures
            c@ == Option::<Seq<char>>::None,
    {
        TransferChannel { payload: None }
    }

    /// A channel already carrying an arbitrary payload, as a drop arriving
    /// from a foreign drag source would.
    pub fn carrying(payload: String) -> (c: TransferChannel)
        ensures
            c@ == Some(payload@),
    {
        TransferChannel { payload: Some(payload) }
    }
}

/// Starts a drag session: derives the source element's identity key and
/// writes it into the channel, replacing any stale payload.
///
/// Mutates only the channel, never the list.
pub fn begin_drag(channel: &mut TransferChannel, source_id: i64)
    ensures
        final(channel)@ == Some(key_chars(source_id as int)),
{
    channel.payload = Some(key_of(source_id));
}

/// Reads the stored key back out on drop.
///
/// Fails with [`DragError::NoActiveSession`] exactly when the channel
/// carries no payload (for example, a drop from a foreign drag source);
/// callers treat that as a recoverable no-op, not a crash.
pub fn resolve_dragged_key(channel: &TransferChannel) -> (r: Result<String, DragError>)
    ensures
        match (channel@, r) {
            (Option::None, Err(e)) => e == DragError::NoActiveSession,
            (Option::Some(key), Ok(s)) => s@ == key,
            _ => false,
        },
{
    match &channel.payload {
        None => Err(DragError::NoActiveSession),
        Some(s) => Ok(s.clone()),
    }
}

} // verus!
