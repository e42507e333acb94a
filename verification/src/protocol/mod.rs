pub mod paxos;

use crate::coordination::messages::Message;
use vstd::prelude::*;

verus! {

/// The behaviour of a worker: the reply it gives to each message.
pub trait Protocol<T: Clone>: Sized {
    /// A worker in its initial state.
    fn new() -> Self;

    /// The reply to `command`.
    fn act(&self, command: Message<T>) -> Message<T>;
}

} // verus!
