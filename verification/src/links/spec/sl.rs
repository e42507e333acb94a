//! The stubborn link: every envelope handed to it is handed to a fair-loss
//! link again and again, in turn with the others.

use crate::links::envelope::{Envelope, EnvelopeView, envelope_views};
use crate::links::monitoring::count_delivered;
use crate::links::spec::fll::{FairLossLink, envelope_option_view};
use std::collections::VecDeque;
use vstd::prelude::*;

verus! {

/// `s` with its first element moved to its end.
pub open spec fn rotated<A>(s: Seq<A>) -> Seq<A> {
    if s.len() == 0 {
        s
    } else {
        s.drop_first().push(s[0])
    }
}

/// `s` rotated `n` times.
pub open spec fn rotated_times<A>(s: Seq<A>, n: nat) -> Seq<A>
    decreases n,
{
    if n == 0 {
        s
    } else {
        rotated(rotated_times(s, (n - 1) as nat))
    }
}

/// The state of a stubborn link: the fair-loss link below it and the
/// envelopes that it keeps handing to that link.
pub struct StubbornLink {
    fll: FairLossLink,
    retransmit: VecDeque<Envelope>,
}

impl StubbornLink {
    /// The fair-loss link below this link.
    pub closed spec fn fair_loss(&self) -> FairLossLink {
        self.fll
    }

    /// The envelopes that this link keeps handing on, the next first.
    pub closed spec fn retransmit_view(&self) -> Seq<EnvelopeView> {
        envelope_views(self.retransmit@)
    }

    /// The link's invariant: that of the fair-loss link below it.
    pub open spec fn wf(&self) -> bool {
        self.fair_loss().wf()
    }

    /// A link over which nothing was sent.
    pub fn new() -> (r: Self)
        ensures
            r.wf(),
            r.retransmit_view() == Seq::<EnvelopeView>::empty(),
            r.fair_loss().queue_view() == Seq::<EnvelopeView>::empty(),
            r.fair_loss().trace() == Seq::<(EnvelopeView, bool)>::empty(),
            r.fair_loss().loss_chance() == (45u32, 100u32),
            forall|receiver: usize, sender: usize| #[trigger] r.fair_loss().inbox(receiver, sender) == Seq::<Seq<char>>::empty(),
    {
        let r = StubbornLink { fll: FairLossLink::new(), retransmit: VecDeque::new() };
        assert(r.retransmit_view() =~= Seq::<EnvelopeView>::empty());
        r
    }

    /// Hands `envelope` to the fair-loss link and keeps it for handing on
    /// again.
    pub fn send(&mut self, envelope: Envelope)
        requires
            old(self).wf(),
        ensures
            final(self).wf(),
            old(self).fair_loss().sent_to(envelope@, &final(self).fair_loss()),
            final(self).retransmit_view() == old(self).retransmit_view().push(envelope@),
    {
        let ghost old_retransmit = self.retransmit@;
        self.fll.send(envelope.clone());
        self.retransmit.push_back(envelope);
        assert(self.retransmit_view() =~= envelope_views(old_retransmit).push(envelope@));
    }

    /// Hands the next kept envelope, if any, to the fair-loss link again and
    /// moves it behind the others.
    pub fn retransmit_next(&mut self)
        requires
            old(self).wf(),
        ensures
            final(self).wf(),
            final(self).retransmit_view() == rotated(old(self).retransmit_view()),
            old(self).retransmit_view().len() == 0 ==> final(self).fair_loss() == old(self).fair_loss(),
            old(self).retransmit_view().len() > 0 ==> old(self).fair_loss().sent_to(
                old(self).retransmit_view()[0],
                &final(self).fair_loss(),
            ),
    {
        let ghost old_retransmit = self.retransmit@;
        match self.retransmit.pop_front() {
            None => {
                assert(self.retransmit_view() =~= rotated(envelope_views(old_retransmit)));
            },
            Some(envelope) => {
                self.fll.send(envelope.clone());
                self.retransmit.push_back(envelope);
                assert(self.retransmit_view() =~= rotated(envelope_views(old_retransmit)));
            },
        }
    }

    /// Lets the fair-loss link deliver or lose its next waiting envelope;
    /// returns the envelope if it was delivered.
    pub fn deliver_next(&mut self) -> (r: Option<Envelope>)
        requires
            old(self).wf(),
        ensures
            final(self).wf(),
            old(self).fair_loss().took_next(envelope_option_view(r), &final(self).fair_loss()),
            final(self).retransmit_view() == old(self).retransmit_view(),
    {
        self.fll.deliver_next()
    }

    /// The number of envelopes that the fair-loss link has delivered.
    pub fn delivered_count(&self) -> (r: usize)
        requires
            self.wf(),
        ensures
            r == count_delivered(self.fair_loss().trace()),
    {
        self.fll.delivered_count()
    }
}

/// Rotating a sequence moves its elements and keeps them all.
pub proof fn lemma_rotated_keeps(s: Seq<EnvelopeView>)
    ensures
        rotated(s).len() == s.len(),
        rotated(s).to_multiset() == s.to_multiset(),
{
    if s.len() > 0 {
        vstd::seq_lib::lemma_seq_union_to_multiset_commutative(s.drop_first(), seq![s[0]]);
        assert(s =~= seq![s[0]] + s.drop_first());
        assert(rotated(s) =~= s.drop_first() + seq![s[0]]);
    }
}

/// A stubborn link hands every kept envelope on in turn: after `k`
/// retransmissions, fewer than the number kept, the next one handed on is
/// the `k`-th kept.
pub proof fn lemma_each_in_turn(s: Seq<EnvelopeView>, k: nat)
    requires
        k < s.len(),
    ensures
        rotated_times(s, k)[0] == s[k as int],
        rotated_times(s, k) == s.skip(k as int) + s.take(k as int),
    decreases k,
{
    if k == 0 {
        assert(s.skip(0) + s.take(0) =~= s);
    } else {
        lemma_each_in_turn(s, (k - 1) as nat);
        let p = rotated_times(s, (k - 1) as nat);
        assert(rotated(p) =~= s.skip(k as int) + s.take(k as int));
    }
}

} // verus!
