//! The messages that the coordinator routes between workers.

use vstd::prelude::*;

verus! {

/// A message for the workers of a coordinator.
pub enum Message<T> {
    /// Nothing to route.
    Empty,
    /// `data` for every worker but the one that routes it.
    Broadcast { sender_id: u64, data: T },
    /// `data` for the worker `receiver_id`.
    Oneshot { sender_id: u64, receiver_id: u64, data: T },
}

} // verus!
