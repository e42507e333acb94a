//! The commands that a thread manager hands to its threads.

use std::sync::Arc;
use vstd::prelude::*;

verus! {

/// A command for the threads of a thread manager.
#[derive(Debug)]
pub enum ThreadCommand {
    /// Ends the process.
    EXIT,
    /// Data from a sender, to be reported.
    DATA(u64, String),
    /// A command for every thread.
    BROADCAST(Arc<ThreadCommand>),
    /// A command for one thread.
    SEND(u64, Arc<ThreadCommand>),
    /// Stops the given thread.
    KILL(u64),
}

} // verus!
