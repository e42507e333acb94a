//! The Paxos participant: a worker that records every command it receives
//! and answers none.

use crate::coordination::coordinator::{answers, routes, routes_all};
use crate::coordination::messages::Message;
use crate::protocol::Protocol;
use vstd::prelude::*;

verus! {

/// The commands that Paxos participants exchange.
#[derive(Clone, Debug)]
pub enum PaxosCommand {
    Prepare { proposal: u64 },
    AckPrepare { proposal: u64 },
    Accept { proposal: u64, data: String },
    AckAccept { proposal: u64, data: String },
    Learn { proposal: u64, data: String },
}

/// The part that a participant plays.
pub enum PaxosRole {
    Proposer,
    Acceptor,
    Learner,
}

/// A Paxos participant.
pub struct Paxos {
    role: PaxosRole,
    logical_clock: u64,
    last_proposal: u64,
    acceptors_count: u64,
    value: Option<String>,
}

impl Paxos {
    /// Whether the participant is in its initial state: a proposer with its
    /// clock, its last proposal and its count of acceptors at zero, and no
    /// value.
    pub closed spec fn is_initial(&self) -> bool {
        &&& self.role is Proposer
        &&& self.logical_clock == 0
        &&& self.last_proposal == 0
        &&& self.acceptors_count == 0
        &&& self.value is None
    }

    /// What the participant records of `command`: its sender and its data,
    /// for a broadcast or a one-shot message; nothing for an empty one.
    pub fn logged(command: &Message<PaxosCommand>) -> (r: Option<(u64, &PaxosCommand)>)
        ensures
            match command {
                Message::Empty => r is None,
                Message::Broadcast { sender_id, data } => r matches Some((s, d)) && s == sender_id && *d == data,
                Message::Oneshot { sender_id, data, .. } => r matches Some((s, d)) && s == sender_id && *d == data,
            },
    {
        match command {
            Message::Empty => None,
            Message::Broadcast { sender_id, data } => Some((*sender_id, data)),
            Message::Oneshot { sender_id, receiver_id: _, data } => Some((*sender_id, data)),
        }
    }
}

impl Protocol<PaxosCommand> for Paxos {
    fn new() -> (r: Self)
        ensures
            r.is_initial(),
    {
        Paxos {
            role: PaxosRole::Proposer,
            logical_clock: 0,
            last_proposal: 0,
            acceptors_count: 0,
            value: None,
        }
    }

    fn act(&self, command: Message<PaxosCommand>) -> (r: Message<PaxosCommand>)
        ensures
            r is Empty,
    {
        match command {
            Message::Empty => Message::Empty,
            Message::Broadcast { sender_id: _, data: _ } => Message::Empty,
            Message::Oneshot { sender_id: _, receiver_id: _, data: _ } => Message::Empty,
        }
    }
}

proof fn lemma_constant_trace(trace: Seq<Map<u64, Seq<Message<PaxosCommand>>>>, n: int)
    requires
        0 <= n < trace.len(),
        forall|i: int| 0 <= i < n ==> #[trigger] trace[i + 1] == trace[i],
    ensures
        trace[n] == trace[0],
    decreases n,
{
    if n > 0 {
        lemma_constant_trace(trace, n - 1);
        assert(trace[(n - 1) + 1] == trace[n - 1]);
    }
}

/// A Paxos worker's turn changes no queue: it answers every message with an
/// empty reply, and routing empty replies leaves all queues as they were.
pub proof fn lemma_paxos_turn_routes_nothing(
    protocol: &Paxos,
    id: u64,
    events: Seq<Message<PaxosCommand>>,
    replies: Seq<Message<PaxosCommand>>,
    trace: Seq<Map<u64, Seq<Message<PaxosCommand>>>>,
)
    requires
        answers(protocol, events, replies),
        routes_all(trace, replies, id),
    ensures
        forall|i: int| 0 <= i < replies.len() ==> (#[trigger] replies[i]) is Empty,
        trace.last() == trace[0],
{
    assert forall|i: int| 0 <= i < replies.len() implies (#[trigger] replies[i]) is Empty by {
        assert(call_ensures(Paxos::act, (protocol, events[i]), replies[i]));
    }
    assert forall|i: int| 0 <= i < replies.len() implies #[trigger] trace[i + 1] == trace[i] by {
        assert(routes(trace[i], replies[i], id, trace[i + 1]));
        assert(replies[i] is Empty);
    }
    lemma_constant_trace(trace, replies.len() as int);
}

} // verus!
