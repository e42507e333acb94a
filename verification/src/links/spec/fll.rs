//! The fair-loss link: each envelope handed to it is queued, and in turn
//! either delivered into its receiver's inbox or lost, with a fixed chance.

use crate::links::draw::{Draw, random_ratio};
use crate::links::envelope::{Envelope, EnvelopeView, envelope_views};
use crate::links::monitoring::{Monitoring, count_delivered, mark_delivered, record_sent, traced};
use std::collections::VecDeque;
use vstd::prelude::*;

verus! {

/// The view of an optional envelope.
pub open spec fn envelope_option_view(o: Option<Envelope>) -> Option<EnvelopeView> {
    match o {
        Some(e) => Some(e@),
        None => None,
    }
}

/// The messages that one participant has received from one sender.
struct Inbox {
    receiver: usize,
    sender: usize,
    messages: Vec<String>,
}

/// The views of a sequence of messages.
pub open spec fn message_views(ms: Seq<String>) -> Seq<Seq<char>> {
    ms.map_values(|m: String| m@)
}

/// Whether `ps` holds an inbox of `receiver` for `sender`.
spec fn has_inbox(ps: Seq<Inbox>, receiver: usize, sender: usize) -> bool {
    exists|i: int| 0 <= i < ps.len() && (#[trigger] ps[i]).receiver == receiver && ps[i].sender == sender
}

/// The messages that `receiver` has received from `sender` according to `ps`.
spec fn inbox_of(ps: Seq<Inbox>, receiver: usize, sender: usize) -> Seq<Seq<char>> {
    if has_inbox(ps, receiver, sender) {
        let i = choose|i: int| 0 <= i < ps.len() && (#[trigger] ps[i]).receiver == receiver && ps[i].sender == sender;
        message_views(ps[i].messages@)
    } else {
        seq![]
    }
}

/// Whether no two inboxes of `ps` belong to the same receiver and sender.
spec fn unique_inboxes(ps: Seq<Inbox>) -> bool {
    forall|i: int, j: int|
        0 <= i < j < ps.len() ==> !((#[trigger] ps[i]).receiver == (#[trigger] ps[j]).receiver
            && ps[i].sender == ps[j].sender)
}

proof fn lemma_inbox_at(ps: Seq<Inbox>, i: int)
    requires
        unique_inboxes(ps),
        0 <= i < ps.len(),
    ensures
        inbox_of(ps, ps[i].receiver, ps[i].sender) == message_views(ps[i].messages@),
{
    let r = ps[i].receiver;
    let s = ps[i].sender;
    assert(has_inbox(ps, r, s));
    let k = choose|k: int| 0 <= k < ps.len() && (#[trigger] ps[k]).receiver == r && ps[k].sender == s;
    if k < i {
        assert(!(ps[k].receiver == ps[i].receiver && ps[k].sender == ps[i].sender));
    } else if k > i {
        assert(!(ps[i].receiver == ps[k].receiver && ps[i].sender == ps[k].sender));
    }
}

/// The state of a fair-loss link: the envelopes waiting to be delivered,
/// each participant's inboxes, the record of what was sent and what arrived,
/// the chance that a delivery is lost, as a numerator and a denominator,
/// and the draw of that chance that decides the next delivery.
pub struct FairLossLink {
    participants: Vec<Inbox>,
    queue: VecDeque<Envelope>,
    monitoring: Monitoring,
    loss_numerator: u32,
    loss_denominator: u32,
    next_draw: Draw,
}

impl FairLossLink {
    /// The envelopes waiting to be delivered, the next first.
    pub closed spec fn queue_view(&self) -> Seq<EnvelopeView> {
        envelope_views(self.queue@)
    }

    /// The messages that `receiver` has received from `sender`.
    pub closed spec fn inbox(&self, receiver: usize, sender: usize) -> Seq<Seq<char>> {
        inbox_of(self.participants@, receiver, sender)
    }

    /// The record of what was sent and what arrived.
    pub closed spec fn trace(&self) -> Seq<(EnvelopeView, bool)> {
        self.monitoring@
    }

    /// The chance that a delivery is lost: `(numerator, denominator)`.
    pub closed spec fn loss_chance(&self) -> (u32, u32) {
        (self.loss_numerator, self.loss_denominator)
    }

    /// Whether the next delivery is lost: the outcome of the draw of the
    /// link's chance that was made for it, before any envelope is known.
    pub closed spec fn next_lost(&self) -> bool {
        self.next_draw.happened()
    }

    /// Whether `after` is this link with `e` queued for delivery and traced
    /// as sent.
    pub open spec fn sent_to(&self, e: EnvelopeView, after: &Self) -> bool {
        &&& after.queue_view() == self.queue_view().push(e)
        &&& after.trace() == record_sent(self.trace(), e)
        &&& after.loss_chance() == self.loss_chance()
        &&& after.next_lost() == self.next_lost()
        &&& forall|receiver: usize, sender: usize| #[trigger] after.inbox(receiver, sender) == self.inbox(receiver, sender)
    }

    /// Whether `after` is this link with `e` delivered (where `delivered`)
    /// or lost: a delivered envelope's message is added to the inbox of its
    /// receiver for its sender and the envelope is traced as arrived; a lost
    /// one changes nothing.
    pub open spec fn delivered_to(&self, e: EnvelopeView, delivered: bool, after: &Self) -> bool {
        &&& after.queue_view() == self.queue_view()
        &&& after.loss_chance() == self.loss_chance()
        &&& after.trace() == if delivered {
            mark_delivered(self.trace(), e)
        } else {
            self.trace()
        }
        &&& forall|receiver: usize, sender: usize| #[trigger] after.inbox(receiver, sender) == if delivered && receiver == e.receiver && sender == e.sender {
            self.inbox(receiver, sender).push(e.message)
        } else {
            self.inbox(receiver, sender)
        }
    }

    /// Whether `after` is this link after `deliver` of `e`, with `r` telling
    /// whether `e` was delivered: the fate drawn before the call decides,
    /// whatever the envelope, and a fresh draw decides the next delivery.
    pub open spec fn delivers(&self, e: EnvelopeView, r: bool, after: &Self) -> bool {
        &&& r == !self.next_lost()
        &&& self.delivered_to(e, r, after)
    }

    /// Whether `after` is this link with its next waiting envelope, if any,
    /// taken from the queue and delivered or lost; `r` is the envelope where
    /// it was delivered. With no chance of loss a waiting envelope is always
    /// delivered, and with a certain loss never.
    pub open spec fn took_next(&self, r: Option<EnvelopeView>, after: &Self) -> bool {
        &&& after.loss_chance() == self.loss_chance()
        &&& self.queue_view().len() > 0 && self.loss_chance().0 == 0 ==> r is Some
        &&& self.loss_chance().0 == self.loss_chance().1 ==> r is None
        &&& self.queue_view().len() > 0 ==> (r is Some <==> !self.next_lost())
        &&& if self.queue_view().len() == 0 {
            &&& r is None
            &&& after.next_lost() == self.next_lost()
            &&& after.queue_view() == self.queue_view()
            &&& after.trace() == self.trace()
            &&& forall|receiver: usize, sender: usize| #[trigger] after.inbox(receiver, sender) == self.inbox(receiver, sender)
        } else {
            let e = self.queue_view()[0];
            &&& after.queue_view() == self.queue_view().drop_first()
            &&& r is None || r == Some(e)
            &&& after.trace() == if r is Some {
                mark_delivered(self.trace(), e)
            } else {
                self.trace()
            }
            &&& forall|receiver: usize, sender: usize| #[trigger] after.inbox(receiver, sender) == if r is Some && receiver == e.receiver && sender == e.sender {
                self.inbox(receiver, sender).push(e.message)
            } else {
                self.inbox(receiver, sender)
            }
        }
    }

    /// The link's invariant: the record traces each envelope once, every
    /// waiting envelope is traced, each receiver has one inbox per sender,
    /// and every message in an inbox was sent in an envelope that is traced.
    pub closed spec fn wf(&self) -> bool {
        &&& 0 < self.loss_denominator
        &&& self.loss_numerator <= self.loss_denominator
        &&& self.loss_numerator == 0 ==> !self.next_draw.happened()
        &&& self.loss_numerator == self.loss_denominator ==> self.next_draw.happened()
        &&& self.monitoring.wf()
        &&& forall|k: int| 0 <= k < self.queue@.len() ==> traced(self.monitoring@, #[trigger] self.queue@[k]@)
        &&& unique_inboxes(self.participants@)
        &&& forall|i: int, k: int|
            0 <= i < self.participants@.len() && 0 <= k < self.participants@[i].messages@.len()
                ==> traced(
                self.monitoring@,
                EnvelopeView {
                    sender: self.participants@[i].sender,
                    receiver: self.participants@[i].receiver,
                    message: (#[trigger] self.participants@[i].messages@[k])@,
                },
            )
    }

    /// A link over which nothing was sent, which loses a delivery with a
    /// chance of 45 in 100.
    pub fn new() -> (r: Self)
        ensures
            r.wf(),
            r.loss_chance() == (45u32, 100u32),
            r.queue_view() == Seq::<EnvelopeView>::empty(),
            r.trace() == Seq::<(EnvelopeView, bool)>::empty(),
            forall|receiver: usize, sender: usize| #[trigger] r.inbox(receiver, sender) == Seq::<Seq<char>>::empty(),
    {
        let r = FairLossLink {
            participants: Vec::new(),
            queue: VecDeque::new(),
            monitoring: Monitoring::new(),
            loss_numerator: 45,
            loss_denominator: 100,
            next_draw: random_ratio(45, 100),
        };
        assert(r.queue_view() =~= Seq::<EnvelopeView>::empty());
        r
    }

    /// Queues `envelope` for delivery and traces it as sent.
    pub fn send(&mut self, envelope: Envelope)
        requires
            old(self).wf(),
        ensures
            final(self).wf(),
            old(self).sent_to(envelope@, &*final(self)),
    {
        let ghost old_mon = self.monitoring@;
        let ghost old_queue = self.queue@;
        self.queue.push_back(envelope.clone());
        self.monitoring.record_send(envelope);
        assert(self.queue_view() =~= envelope_views(old_queue).push(envelope@));
        proof {
            assert forall|e: EnvelopeView| traced(old_mon, e) implies traced(self.monitoring@, e) by {
                let i = choose|i: int| 0 <= i < old_mon.len() && (#[trigger] old_mon[i]).0 == e;
                assert(self.monitoring@[i].0 == e);
            }
            assert(traced(self.monitoring@, envelope@)) by {
                if traced(old_mon, envelope@) {
                } else {
                    assert(self.monitoring@[old_mon.len() as int].0 == envelope@);
                }
            }
            assert forall|k: int| 0 <= k < self.queue@.len() implies traced(self.monitoring@, #[trigger] self.queue@[k]@) by {
                if k < old_queue.len() {
                    assert(self.queue@[k] == old_queue[k]);
                }
            }
        }
    }

    /// Delivers `envelope` unless `lost`: its message is added to the inbox
    /// of its receiver for its sender, and it is traced as arrived. A
    /// delivered envelope must have been sent (traced).
    pub fn deliver_unless_lost(&mut self, envelope: Envelope, lost: bool)
        requires
            old(self).wf(),
            !lost ==> traced(old(self).trace(), envelope@),
        ensures
            final(self).wf(),
            old(self).delivered_to(envelope@, !lost, &*final(self)),
            final(self).next_lost() == old(self).next_lost(),
    {
        if lost {
            return;
        }
        let ghost old_ps = self.participants@;
        let ghost old_mon = self.monitoring@;
        let ghost e = envelope@;
        let mut i: usize = 0;
        while i < self.participants.len() && !(self.participants[i].receiver == envelope.receiver
            && self.participants[i].sender == envelope.sender)
            invariant
                self.participants@ == old_ps,
                e == envelope@,
                i <= old_ps.len(),
                forall|j: int| 0 <= j < i ==> !((#[trigger] old_ps[j]).receiver == e.receiver && old_ps[j].sender == e.sender),
            decreases self.participants.len() - i,
        {
            i = i + 1;
        }
        let found = i < self.participants.len();
        let message = envelope.message.clone();
        if found {
            self.participants[i].messages.push(message);
        } else {
            let mut messages: Vec<String> = Vec::new();
            messages.push(message);
            self.participants.push(Inbox { receiver: envelope.receiver, sender: envelope.sender, messages });
        }
        self.monitoring.record_deliver(envelope);
        proof {
            let ps = self.participants@;
            let mon = self.monitoring@;
            assert forall|x: EnvelopeView| traced(old_mon, x) implies traced(mon, x) by {
                let j = choose|j: int| 0 <= j < old_mon.len() && (#[trigger] old_mon[j]).0 == x;
                assert(mon[j].0 == x);
            }
            assert(unique_inboxes(ps)) by {
                assert forall|a: int, b: int| 0 <= a < b < ps.len() implies !((#[trigger] ps[a]).receiver == (#[trigger] ps[b]).receiver
                    && ps[a].sender == ps[b].sender) by {
                    if b < old_ps.len() {
                        assert(ps[a].receiver == old_ps[a].receiver && ps[a].sender == old_ps[a].sender);
                        assert(ps[b].receiver == old_ps[b].receiver && ps[b].sender == old_ps[b].sender);
                    } else {
                        assert(old_ps[a].receiver == ps[a].receiver && old_ps[a].sender == ps[a].sender);
                    }
                }
            }
            assert forall|receiver: usize, sender: usize| #[trigger] inbox_of(ps, receiver, sender) == if receiver == e.receiver && sender == e.sender {
                inbox_of(old_ps, receiver, sender).push(e.message)
            } else {
                inbox_of(old_ps, receiver, sender)
            } by {
                if has_inbox(ps, receiver, sender) {
                    let k = choose|k: int| 0 <= k < ps.len() && (#[trigger] ps[k]).receiver == receiver && ps[k].sender == sender;
                    lemma_inbox_at(ps, k);
                    if k < old_ps.len() {
                        lemma_inbox_at(old_ps, k);
                        if receiver == e.receiver && sender == e.sender {
                            assert(message_views(ps[k].messages@) =~= message_views(old_ps[k].messages@).push(e.message));
                        }
                    } else {
                        assert(!has_inbox(old_ps, receiver, sender));
                        assert(message_views(ps[k].messages@) =~= seq![e.message]);
                    }
                } else {
                    if has_inbox(old_ps, receiver, sender) {
                        let k = choose|k: int| 0 <= k < old_ps.len() && (#[trigger] old_ps[k]).receiver == receiver && old_ps[k].sender == sender;
                        assert(ps[k].receiver == receiver && ps[k].sender == sender);
                    }
                    if receiver == e.receiver && sender == e.sender {
                        if found {
                            assert(ps[i as int].receiver == receiver);
                        } else {
                            assert(ps[old_ps.len() as int].receiver == receiver);
                        }
                    }
                }
            }
        }
    }

    /// Delivers `envelope`, or loses it with the link's chance of loss;
    /// returns whether it was delivered. An envelope that can be delivered
    /// must have been sent (traced).
    pub fn deliver(&mut self, envelope: Envelope) -> (r: bool)
        requires
            old(self).wf(),
            old(self).loss_chance().0 < old(self).loss_chance().1 ==> traced(old(self).trace(), envelope@),
        ensures
            final(self).wf(),
            old(self).delivers(envelope@, r, &*final(self)),
            old(self).delivered_to(envelope@, r, &*final(self)),
            r == !old(self).next_lost(),
            old(self).loss_chance().0 == 0 ==> r,
            old(self).loss_chance().0 == old(self).loss_chance().1 ==> !r,
    {
        let lost = self.next_draw.happens();
        self.next_draw = random_ratio(self.loss_numerator, self.loss_denominator);
        self.deliver_unless_lost(envelope, lost);
        !lost
    }

    /// Takes the next waiting envelope, if any, and delivers it or loses it;
    /// returns the envelope if it was delivered.
    pub fn deliver_next(&mut self) -> (r: Option<Envelope>)
        requires
            old(self).wf(),
        ensures
            final(self).wf(),
            old(self).took_next(envelope_option_view(r), &*final(self)),
    {
        let ghost old_queue = self.queue@;
        match self.queue.pop_front() {
            None => None,
            Some(envelope) => {
                assert(traced(self.monitoring@, old_queue[0]@));
                assert(self.queue_view() =~= envelope_views(old_queue).drop_first());
                proof {
                    assert forall|k: int| 0 <= k < self.queue@.len() implies traced(self.monitoring@, #[trigger] self.queue@[k]@) by {
                        assert(self.queue@[k] == old_queue[k + 1]);
                    }
                }
                let copy = envelope.clone();
                if self.deliver(envelope) {
                    Some(copy)
                } else {
                    None
                }
            },
        }
    }

    /// The number of envelopes that have arrived.
    pub fn delivered_count(&self) -> (r: usize)
        requires
            self.wf(),
        ensures
            r == count_delivered(self.trace()),
    {
        self.monitoring.delivered_count()
    }
}

/// Whether a delivery is lost does not depend on the envelope: from one
/// state of a link, any two envelopes meet the same fate, the one drawn
/// before the call; where that draw keeps the delivery, every envelope,
/// whatever its sender, receiver or message, arrives in its receiver's inbox;
/// and where the link cannot lose, every envelope is delivered.
pub proof fn lemma_loss_ignores_envelope(
    link: &FairLossLink,
    e1: EnvelopeView,
    r1: bool,
    after1: &FairLossLink,
    e2: EnvelopeView,
    r2: bool,
    after2: &FairLossLink,
)
    requires
        link.wf(),
        link.delivers(e1, r1, after1),
        link.delivers(e2, r2, after2),
    ensures
        r1 == r2,
        !link.next_lost() ==> r1 && after1.inbox(e1.receiver, e1.sender) == link.inbox(e1.receiver, e1.sender).push(e1.message),
        !link.next_lost() ==> after1.trace() == mark_delivered(link.trace(), e1),
        link.loss_chance().0 == 0 ==> r1 && r2,
        link.loss_chance().0 == link.loss_chance().1 ==> !r1 && !r2,
{
    assert(after1.inbox(e1.receiver, e1.sender) == if r1 && e1.receiver == e1.receiver && e1.sender == e1.sender {
        link.inbox(e1.receiver, e1.sender).push(e1.message)
    } else {
        link.inbox(e1.receiver, e1.sender)
    });
}

/// Every envelope waiting in a fair-loss link is traced as sent.
pub proof fn lemma_waiting_traced(link: &FairLossLink)
    requires
        link.wf(),
    ensures
        forall|k: int| 0 <= k < link.queue_view().len() ==> traced(link.trace(), #[trigger] link.queue_view()[k]),
{
    assert forall|k: int| 0 <= k < link.queue_view().len() implies traced(link.trace(), #[trigger] link.queue_view()[k]) by {
        assert(link.queue_view()[k] == link.queue@[k]@);
    }
}

/// A fair-loss link creates no messages: every message in an inbox was sent
/// by that sender to that receiver in an envelope that the link traces.
pub proof fn lemma_no_creation(link: &FairLossLink, receiver: usize, sender: usize, k: int)
    requires
        link.wf(),
        0 <= k < link.inbox(receiver, sender).len(),
    ensures
        traced(
            link.trace(),
            EnvelopeView { sender, receiver, message: link.inbox(receiver, sender)[k] },
        ),
{
    let ps = link.participants@;
    let i = choose|i: int| 0 <= i < ps.len() && (#[trigger] ps[i]).receiver == receiver && ps[i].sender == sender;
    assert(ps[i].messages@[k]@ == link.inbox(receiver, sender)[k]);
}

} // verus!
