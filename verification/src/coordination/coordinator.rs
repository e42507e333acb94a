//! The routing of messages between worker threads: each worker has a queue of
//! messages, and a routed message is queued for its receivers, which are
//! then woken.

use crate::coordination::messages::Message;
use crate::protocol::Protocol;
use crate::queues::{QueueTable, lemma_take_one_more};
use std::collections::VecDeque;
use vstd::prelude::*;

verus! {

/// Whether `m` is the copy of broadcast `data` that `sender` routes to
/// `receiver`.
pub open spec fn is_broadcast_copy<T: Clone>(m: Message<T>, sender: u64, receiver: u64, data: T) -> bool {
    m matches Message::Oneshot { sender_id, receiver_id, data: d } && sender_id == sender
        && receiver_id == receiver && cloned(data, d)
}

/// Whether `after` is `before` with a copy of broadcast `data`, routed by
/// `sender`, queued for every worker but `sender`.
pub open spec fn broadcast_to<T: Clone>(
    before: Map<u64, Seq<Message<T>>>,
    sender: u64,
    data: T,
    after: Map<u64, Seq<Message<T>>>,
) -> bool {
    &&& after.dom() == before.dom()
    &&& forall|id: u64|
        #![trigger after[id]]
        before.dom().contains(id) ==> if id == sender {
            after[id] == before[id]
        } else {
            &&& after[id].len() == before[id].len() + 1
            &&& after[id].drop_last() == before[id]
            &&& is_broadcast_copy(after[id].last(), sender, id, data)
        }
}

/// Whether `after` is `before` with `message`, sent by `current`, routed: an
/// empty message changes nothing, a one-shot message is queued for its
/// receiver, and a broadcast is queued as a one-shot copy from `current` for
/// every worker with a queue but `current`.
pub open spec fn routes<T: Clone>(
    before: Map<u64, Seq<Message<T>>>,
    message: Message<T>,
    current: u64,
    after: Map<u64, Seq<Message<T>>>,
) -> bool {
    match message {
        Message::Empty => after == before,
        Message::Oneshot { receiver_id, .. } => after == before.insert(
            receiver_id,
            before[receiver_id].push(message),
        ),
        Message::Broadcast { data, .. } => broadcast_to(before, current, data, after),
    }
}

/// The workers that routing `message` wakes, given the registered workers
/// `pool`: none for an empty message, the receiver of a one-shot message, and
/// every registered worker for a broadcast.
pub open spec fn woken_by<T>(message: Message<T>, pool: Seq<u64>) -> Seq<u64> {
    match message {
        Message::Empty => Seq::empty(),
        Message::Oneshot { receiver_id, .. } => seq![receiver_id],
        Message::Broadcast { .. } => pool,
    }
}

/// Whether routing `replies` in turn, each sent by `current`, takes the
/// queues from `trace[0]` through each state of `trace`.
pub open spec fn routes_all<T: Clone>(
    trace: Seq<Map<u64, Seq<Message<T>>>>,
    replies: Seq<Message<T>>,
    current: u64,
) -> bool {
    &&& trace.len() == replies.len() + 1
    &&& forall|i: int| 0 <= i < replies.len() ==> routes(trace[i], #[trigger] replies[i], current, trace[i + 1])
}

/// The messages waiting for `id` in `queues`.
pub open spec fn pending_events<T>(queues: Map<u64, Seq<Message<T>>>, id: u64) -> Seq<Message<T>> {
    if queues.dom().contains(id) {
        queues[id]
    } else {
        Seq::empty()
    }
}

/// Whether each of `replies` is what `protocol` answers to the message of
/// `events` at the same index.
pub open spec fn answers<T: Clone, P: Protocol<T>>(protocol: &P, events: Seq<Message<T>>, replies: Seq<Message<T>>) -> bool {
    forall|i: int| 0 <= i < replies.len() ==> i < events.len() && call_ensures(P::act, (protocol, events[i]), #[trigger] replies[i])
}

/// Whether a turn of the worker `id` with `protocol`, from the queues
/// `before` and the registered workers `pool`, stopped as `cause` says with
/// the queues `after` and the workers `woken` to wake: the `replies` to the
/// first messages were routed through `trace`, and the reply to the next one,
/// `bad`, could not be.
pub open spec fn turn_stopped<T: Clone, P: Protocol<T>>(
    protocol: &P,
    id: u64,
    before: Map<u64, Seq<Message<T>>>,
    pool: Seq<u64>,
    woken: Seq<u64>,
    cause: Unroutable,
    after: Map<u64, Seq<Message<T>>>,
    replies: Seq<Message<T>>,
    trace: Seq<Map<u64, Seq<Message<T>>>>,
    bad: Message<T>,
) -> bool {
    let events = pending_events(before, id);
    let last = trace.last();
    &&& replies.len() < events.len()
    &&& answers(protocol, events, replies)
    &&& call_ensures(P::act, (protocol, events[replies.len() as int]), bad)
    &&& trace[0] == before.remove(id)
    &&& routes_all(trace, replies, id)
    &&& woken == replies.map_values(|m: Message<T>| woken_by(m, pool)).flatten()
    &&& match cause {
        Unroutable::NoQueue(x) => {
            &&& bad matches Message::Oneshot { receiver_id, .. } && receiver_id == x
            &&& !last.dom().contains(x)
            &&& after == last
        },
        Unroutable::Unregistered(x) => {
            &&& bad matches Message::Oneshot { receiver_id, .. } && receiver_id == x
            &&& last.dom().contains(x)
            &&& !pool.contains(x)
            &&& after == last.insert(x, last[x].push(bad))
        },
    }
}

/// Why a worker's turn stopped: the receiver of a one-shot reply has no
/// queue, or has one but is not registered.
pub enum Unroutable {
    NoQueue(u64),
    Unregistered(u64),
}

/// A worker's turn that stopped: the workers to wake for the replies routed
/// before it stopped, and why it stopped.
pub struct TurnError {
    pub woken: Vec<u64>,
    pub cause: Unroutable,
}

/// Routing creates and removes no queues: after routing a message whose
/// receiver, for a one-shot message, has a queue, the same workers have
/// queues, and each queue has grown by at most one message.
pub proof fn lemma_routes_keeps_queues<T: Clone>(
    before: Map<u64, Seq<Message<T>>>,
    message: Message<T>,
    current: u64,
    after: Map<u64, Seq<Message<T>>>,
)
    requires
        routes(before, message, current, after),
        message matches Message::Oneshot { receiver_id, .. } ==> before.dom().contains(receiver_id),
    ensures
        after.dom() == before.dom(),
        forall|id: u64| #[trigger] before.dom().contains(id) ==> before[id].len() <= after[id].len() <= before[id].len() + 1,
        forall|id: u64| #[trigger] before.dom().contains(id) ==> after[id].take(before[id].len() as int) == before[id],
{
    match message {
        Message::Empty => {},
        Message::Oneshot { receiver_id, .. } => {
            assert(after.dom() =~= before.dom());
            assert forall|id: u64| #[trigger] before.dom().contains(id) implies after[id].take(before[id].len() as int) == before[id] by {
                assert(after[id].take(before[id].len() as int) =~= before[id]);
            }
        },
        Message::Broadcast { .. } => {
            assert forall|id: u64| #[trigger] before.dom().contains(id) implies after[id].take(before[id].len() as int) == before[id] by {
                if id != current {
                    assert(after[id].take(before[id].len() as int) =~= after[id].drop_last());
                } else {
                    assert(after[id].take(before[id].len() as int) =~= before[id]);
                }
            }
        },
    }
}

/// A broadcast reaches every worker with a queue but its sender, whatever
/// that worker's queue already holds: each such queue keeps all it held and
/// gains exactly one message, the copy, so the messages queued grow by one
/// for each worker but the sender; the sender's queue is left as it was.
pub proof fn lemma_broadcast_reaches_every_other_worker<T: Clone>(
    before: Map<u64, Seq<Message<T>>>,
    sender: u64,
    data: T,
    after: Map<u64, Seq<Message<T>>>,
    id: u64,
)
    requires
        broadcast_to(before, sender, data, after),
        before.dom().contains(id),
    ensures
        after.dom().contains(id),
        id != sender ==> after[id].len() == before[id].len() + 1,
        id != sender ==> after[id].take(before[id].len() as int) == before[id],
        id != sender ==> is_broadcast_copy(after[id][before[id].len() as int], sender, id, data),
        id == sender ==> after[id] == before[id],
{
    if id != sender {
        assert(after[id].take(before[id].len() as int) =~= after[id].drop_last());
    }
}

/// A one-shot message and then a broadcast, both routed by `current`: the
/// receiver of the one-shot message, if it is not `current`, ends with the
/// one-shot message and then the broadcast copy behind what it held.
pub proof fn lemma_oneshot_then_broadcast<T: Clone>(
    before: Map<u64, Seq<Message<T>>>,
    oneshot: Message<T>,
    data: T,
    sender_id: u64,
    current: u64,
    mid: Map<u64, Seq<Message<T>>>,
    after: Map<u64, Seq<Message<T>>>,
)
    requires
        oneshot matches Message::Oneshot { receiver_id, .. } && before.dom().contains(receiver_id)
            && receiver_id != current,
        routes(before, oneshot, current, mid),
        routes(mid, Message::Broadcast { sender_id, data }, current, after),
    ensures
        oneshot matches Message::Oneshot { receiver_id, .. } && {
            &&& after[receiver_id].len() == before[receiver_id].len() + 2
            &&& after[receiver_id].take(before[receiver_id].len() as int) == before[receiver_id]
            &&& after[receiver_id][before[receiver_id].len() as int] == oneshot
            &&& is_broadcast_copy(after[receiver_id].last(), current, receiver_id, data)
        },
{
    if let Message::Oneshot { receiver_id, .. } = oneshot {
        let r = receiver_id;
        assert(mid[r] == before[r].push(oneshot));
        assert(mid.dom().contains(r));
        lemma_broadcast_reaches_every_other_worker(mid, current, data, after, r);
        assert(after[r].take(before[r].len() as int) =~= before[r]) by {
            assert(after[r].take(mid[r].len() as int) == mid[r]);
            assert forall|k: int| 0 <= k < before[r].len() implies after[r][k] == before[r][k] by {
                assert(after[r].take(mid[r].len() as int)[k] == mid[r][k]);
            }
        }
        assert(after[r].take(mid[r].len() as int)[before[r].len() as int] == mid[r][before[r].len() as int]);
    }
}

/// Routes messages between workers: the registered workers, and a queue of
/// messages for each worker that has one.
pub struct Coordinator<T> {
    pool: Vec<u64>,
    execution_queue: QueueTable<Message<T>>,
}

impl<T: Clone> Coordinator<T> {
    /// The queues, by worker.
    pub closed spec fn queues(&self) -> Map<u64, Seq<Message<T>>> {
        self.execution_queue@
    }

    /// The registered workers, in the order of registration.
    pub closed spec fn pool_view(&self) -> Seq<u64> {
        self.pool@
    }

    /// The coordinator's invariant: each worker is registered once.
    pub closed spec fn wf(&self) -> bool {
        self.pool@.no_duplicates()
    }

    /// A coordinator without workers.
    pub fn new() -> (r: Self)
        ensures
            r.wf(),
            r.queues() == Map::<u64, Seq<Message<T>>>::empty(),
            r.pool_view() == Seq::<u64>::empty(),
    {
        Coordinator { pool: Vec::new(), execution_queue: QueueTable::new() }
    }

    /// Registers the worker `id`.
    pub fn register(&mut self, id: u64)
        requires
            old(self).wf(),
        ensures
            final(self).wf(),
            final(self).queues() == old(self).queues(),
            old(self).pool_view().contains(id) ==> final(self).pool_view() == old(self).pool_view(),
            !old(self).pool_view().contains(id) ==> final(self).pool_view() == old(self).pool_view().push(id),
    {
        if self.is_registered(id) {
            return;
        }
        let ghost old_pool = self.pool@;
        self.pool.push(id);
        proof {
            assert forall|a: int, b: int| 0 <= a < self.pool@.len() && 0 <= b < self.pool@.len() && a != b implies self.pool@[a] != self.pool@[b] by {
                if a < old_pool.len() && b < old_pool.len() {
                    assert(old_pool[a] != old_pool[b]);
                }
            }
        }
    }

    /// Whether `id` has a queue.
    pub fn has_queue(&self, id: u64) -> (r: bool)
        requires
            self.wf(),
        ensures
            r == self.queues().dom().contains(id),
    {
        self.execution_queue.contains(id)
    }

    /// Whether `id` is registered.
    pub fn is_registered(&self, id: u64) -> (r: bool)
        ensures
            r == self.pool_view().contains(id),
    {
        let mut i: usize = 0;
        while i < self.pool.len()
            invariant
                i <= self.pool@.len(),
                forall|j: int| 0 <= j < i ==> self.pool@[j] != id,
            decreases self.pool.len() - i,
        {
            if self.pool[i] == id {
                return true;
            }
            i = i + 1;
        }
        false
    }

    /// A copy of the registered workers.
    fn pool_copy(&self) -> (r: Vec<u64>)
        ensures
            r@ == self.pool_view(),
    {
        let mut r: Vec<u64> = Vec::new();
        let mut i: usize = 0;
        while i < self.pool.len()
            invariant
                i <= self.pool@.len(),
                r@ == self.pool@.take(i as int),
            decreases self.pool.len() - i,
        {
            r.push(self.pool[i]);
            assert(self.pool@.take(i + 1) =~= self.pool@.take(i as int).push(self.pool@[i as int]));
            i = i + 1;
        }
        assert(self.pool@.take(i as int) =~= self.pool@);
        r
    }

    /// Queues a copy of broadcast `data`, routed by `current`, for every
    /// worker with a queue but `current`.
    fn broadcast(&mut self, data: T, current: u64)
        requires
            old(self).wf(),
        ensures
            final(self).wf(),
            final(self).pool_view() == old(self).pool_view(),
            broadcast_to(old(self).queues(), current, data, final(self).queues()),
    {
        let ghost before = self.execution_queue@;
        let ids = self.execution_queue.id_list();
        let mut k: usize = 0;
        while k < ids.len()
            invariant
                self.wf(),
                self.pool@ == old(self).pool@,
                before == old(self).queues(),
                k <= ids@.len(),
                ids@.no_duplicates(),
                forall|id: u64| #[trigger] before.dom().contains(id) <==> ids@.contains(id),
                self.execution_queue@.dom() == before.dom(),
                forall|id: u64|
                    #![trigger self.execution_queue@[id]]
                    before.dom().contains(id) ==> if id != current && ids@.take(k as int).contains(id) {
                        &&& self.execution_queue@[id].len() == before[id].len() + 1
                        &&& self.execution_queue@[id].drop_last() == before[id]
                        &&& is_broadcast_copy(self.execution_queue@[id].last(), current, id, data)
                    } else {
                        self.execution_queue@[id] == before[id]
                    },
            decreases ids.len() - k,
        {
            let id = ids[k];
            proof {
                assert(before.dom().contains(id));
                lemma_take_one_more(ids@, k as int);
            }
            if id != current {
                let copy = data.clone();
                let ghost prior = self.execution_queue@[id];
                self.execution_queue.push(id, Message::Oneshot { sender_id: current, receiver_id: id, data: copy });
                assert(self.execution_queue@[id].drop_last() =~= prior);
            }
            k = k + 1;
        }
        proof {
            assert(ids@.take(k as int) =~= ids@);
        }
    }

    /// Routes `message`, which `current` sends: a one-shot message is queued
    /// for its receiver, and a broadcast is queued, as a one-shot copy from
    /// `current`, for every worker with a queue but `current`. Returns the
    /// workers to wake: the receiver of a one-shot message, every registered
    /// worker for a broadcast, and none for an empty message.
    pub fn send(&mut self, message: Message<T>, current: u64) -> (r: Vec<u64>)
        requires
            old(self).wf(),
            message matches Message::Oneshot { receiver_id, .. } ==> old(self).queues().dom().contains(receiver_id)
                && old(self).pool_view().contains(receiver_id),
        ensures
            final(self).wf(),
            final(self).pool_view() == old(self).pool_view(),
            routes(old(self).queues(), message, current, final(self).queues()),
            r@ == woken_by(message, old(self).pool_view()),
    {
        let ghost m = message;
        match message {
            Message::Empty => Vec::new(),
            Message::Oneshot { sender_id, receiver_id, data } => {
                self.execution_queue.push(receiver_id, Message::Oneshot { sender_id, receiver_id, data });
                let mut r: Vec<u64> = Vec::new();
                r.push(receiver_id);
                r
            },
            Message::Broadcast { sender_id: _, data } => {
                self.broadcast(data, current);
                self.pool_copy()
            },
        }
    }

    /// Takes the queue of `id` out of the coordinator: its messages, or none
    /// where it has no queue.
    pub fn take_queue(&mut self, id: u64) -> (r: VecDeque<Message<T>>)
        requires
            old(self).wf(),
        ensures
            final(self).wf(),
            final(self).pool_view() == old(self).pool_view(),
            final(self).queues() == old(self).queues().remove(id),
            r@ == if old(self).queues().dom().contains(id) {
                old(self).queues()[id]
            } else {
                Seq::<Message<T>>::empty()
            },
    {
        self.execution_queue.take(id)
    }

    /// Gives `id` the queue `events`, replacing any queue it has.
    pub fn return_queue(&mut self, id: u64, events: VecDeque<Message<T>>)
        requires
            old(self).wf(),
        ensures
            final(self).wf(),
            final(self).pool_view() == old(self).pool_view(),
            final(self).queues() == old(self).queues().insert(id, events@),
    {
        self.execution_queue.put(id, events);
    }

    /// One turn of the worker `id`: its queue is taken out, each message in it
    /// is handed in turn to `protocol` and the reply routed as `send` routes
    /// it, sent by `id`, and the worker then gets its queue back, empty.
    /// Returns the workers to wake, those that routing each reply wakes in
    /// turn. A one-shot reply whose receiver has no queue stops the turn
    /// before it is queued; one whose receiver has a queue but is not
    /// registered stops it after it is queued. Either way the worker's queue
    /// stays out, and the error holds the workers to wake for the replies
    /// routed before.
    pub fn run_worker<P: Protocol<T>>(&mut self, protocol: &P, id: u64) -> (r: Result<Vec<u64>, TurnError>)
        requires
            old(self).wf(),
        ensures
            final(self).wf(),
            final(self).pool_view() == old(self).pool_view(),
            r matches Ok(woken) ==> exists|replies: Seq<Message<T>>, trace: Seq<Map<u64, Seq<Message<T>>>>|
                {
                    &&& replies.len() == pending_events(old(self).queues(), id).len()
                    &&& answers(protocol, pending_events(old(self).queues(), id), replies)
                    &&& trace[0] == old(self).queues().remove(id)
                    &&& routes_all(trace, replies, id)
                    &&& final(self).queues() == trace.last().insert(id, Seq::<Message<T>>::empty())
                    &&& woken@ == replies.map_values(|m: Message<T>| woken_by(m, old(self).pool_view())).flatten()
                },
            r matches Ok(woken) ==> forall|k: int| 0 <= k < woken@.len() ==> old(self).pool_view().contains(#[trigger] woken@[k]),
            r matches Err(e) ==> exists|replies: Seq<Message<T>>, trace: Seq<Map<u64, Seq<Message<T>>>>, bad: Message<T>|
                #[trigger] turn_stopped(protocol, id, old(self).queues(), old(self).pool_view(), e.woken@, e.cause, final(self).queues(), replies, trace, bad),
    {
        let mut events = self.take_queue(id);
        let mut wake: Vec<u64> = Vec::new();
        let ghost pool = old(self).pool_view();
        let ghost all = pending_events(old(self).queues(), id);
        let ghost mut replies: Seq<Message<T>> = Seq::empty();
        let ghost mut trace: Seq<Map<u64, Seq<Message<T>>>> = seq![self.queues()];
        let ghost mut wakes: Seq<Seq<u64>> = Seq::empty();
        assert(wakes.flatten() =~= wake@);
        assert(events@ =~= all.skip(0));
        while events.len() > 0
            invariant
                self.wf(),
                self.pool_view() == pool,
                pool == old(self).pool_view(),
                all == pending_events(old(self).queues(), id),
                !self.queues().dom().contains(id),
                replies.len() <= all.len(),
                events@ == all.skip(replies.len() as int),
                answers(protocol, all, replies),
                trace[0] == old(self).queues().remove(id),
                routes_all(trace, replies, id),
                self.queues() == trace.last(),
                wakes.len() == replies.len(),
                forall|i: int| 0 <= i < replies.len() ==> #[trigger] wakes[i] == woken_by(replies[i], pool),
                wake@ == wakes.flatten(),
                forall|k: int| 0 <= k < wake@.len() ==> pool.contains(#[trigger] wake@[k]),
            decreases events@.len(),
        {
            let ghost before_pop = events@;
            match events.pop_front() {
                None => {},
                Some(event) => {
                    assert(event == all[replies.len() as int]);
                    assert(events@ =~= all.skip(replies.len() as int + 1));
                    let reply = protocol.act(event);
                    let ghost sent = reply;
                    proof {
                        assert(replies.map_values(|m: Message<T>| woken_by(m, pool)) =~= wakes);
                    }
                    match &reply {
                        Message::Oneshot { receiver_id, .. } => {
                            let receiver = *receiver_id;
                            if !self.execution_queue.contains(receiver) {
                                let e = TurnError { woken: wake, cause: Unroutable::NoQueue(receiver) };
                                assert(turn_stopped(protocol, id, old(self).queues(), pool, e.woken@, e.cause, self.queues(), replies, trace, sent));
                                return Err(e);
                            }
                            if !self.is_registered(receiver) {
                                self.execution_queue.push(receiver, reply);
                                let e = TurnError { woken: wake, cause: Unroutable::Unregistered(receiver) };
                                assert(turn_stopped(protocol, id, old(self).queues(), pool, e.woken@, e.cause, self.queues(), replies, trace, sent));
                                return Err(e);
                            }
                        },
                        _ => {},
                    }
                    let ghost old_wakes = wakes;
                    let woken = self.send(reply, id);
                    proof {
                        trace = trace.push(self.queues());
                        replies = replies.push(sent);
                        wakes = wakes.push(woken@);
                        assert forall|i: int| 0 <= i < replies.len() implies routes(trace[i], #[trigger] replies[i], id, trace[i + 1]) by {
                            if i < replies.len() - 1 {
                                assert(trace[i] == trace.drop_last()[i]);
                            }
                        }
                        assert forall|i: int| 0 <= i < replies.len() implies i < all.len() && call_ensures(P::act, (protocol, all[i]), #[trigger] replies[i]) by {
                            if i < replies.len() - 1 {
                                assert(replies[i] == replies.drop_last()[i]);
                            }
                        }
                    }
                    let ghost before_wake = wake@;
                    let mut k: usize = 0;
                    while k < woken.len()
                        invariant
                            k <= woken@.len(),
                            wake@ == before_wake + woken@.take(k as int),
                            forall|j: int| 0 <= j < woken@.len() ==> pool.contains(#[trigger] woken@[j]),
                            forall|j: int| 0 <= j < before_wake.len() ==> pool.contains(#[trigger] before_wake[j]),
                        decreases woken.len() - k,
                    {
                        wake.push(woken[k]);
                        assert(woken@.take(k + 1) =~= woken@.take(k as int).push(woken@[k as int]));
                        assert(before_wake + woken@.take(k + 1) =~= (before_wake + woken@.take(k as int)).push(woken@[k as int]));
                        k = k + 1;
                    }
                    proof {
                        assert(woken@.take(k as int) =~= woken@);
                        old_wakes.lemma_flatten_push(woken@);
                        assert forall|j: int| 0 <= j < wake@.len() implies pool.contains(#[trigger] wake@[j]) by {
                            if j < before_wake.len() {
                                assert(wake@[j] == before_wake[j]);
                            } else {
                                assert(wake@[j] == woken@[j - before_wake.len()]);
                            }
                        }
                    }
                },
            }
        }
        self.return_queue(id, events);
        proof {
            assert(events@ =~= Seq::<Message<T>>::empty());
            assert(replies.map_values(|m: Message<T>| woken_by(m, pool)) =~= wakes);
        }
        Ok(wake)
    }
}

} // verus!
