//! The perfect link: a stubborn link whose arrivals are handed up once each.

use crate::links::envelope::{Envelope, EnvelopeSet, EnvelopeView};
use crate::links::monitoring::{lemma_arrivals_kept, lemma_mark_traces, traced_delivered};
use crate::links::spec::fll::{envelope_option_view, lemma_waiting_traced};
use crate::links::spec::sl::{StubbornLink, rotated};
use vstd::prelude::*;

verus! {

/// The envelopes that a link hands up when `arrivals` arrive in turn and the
/// envelopes in `seen` have been handed up before: each arrival not handed
/// up yet, in the order of arrival.
pub open spec fn forwarded(seen: Set<EnvelopeView>, arrivals: Seq<EnvelopeView>) -> Seq<EnvelopeView>
    decreases arrivals.len(),
{
    if arrivals.len() == 0 {
        seq![]
    } else {
        let e = arrivals[0];
        let rest = forwarded(seen.insert(e), arrivals.drop_first());
        if seen.contains(e) {
            rest
        } else {
            seq![e] + rest
        }
    }
}

/// What one arrival does: the envelope is handed up where it was not seen,
/// and is seen afterwards.
pub open spec fn forward_step(seen: Set<EnvelopeView>, e: EnvelopeView) -> Option<EnvelopeView> {
    if seen.contains(e) {
        None
    } else {
        Some(e)
    }
}

/// An arrival is handed up exactly when that same envelope was not handed up
/// before, whatever other envelopes (of the same sender, receiver or message)
/// were: the step hands up the envelope itself or nothing, agrees with the
/// run of a single arrival, and what an arrival does is not changed by an
/// earlier arrival of a different envelope.
pub proof fn lemma_forward_step_hands_up_unseen(seen: Set<EnvelopeView>, e: EnvelopeView, earlier: EnvelopeView)
    ensures
        !seen.contains(e) ==> forward_step(seen, e) == Some(e),
        seen.contains(e) ==> forward_step(seen, e) is None,
        forward_step(seen, e) is Some ==> forwarded(seen, seq![e]) == seq![e],
        forward_step(seen, e) is None ==> forwarded(seen, seq![e]) == Seq::<EnvelopeView>::empty(),
        earlier != e ==> forward_step(seen.insert(earlier), e) == forward_step(seen, e),
        forward_step(seen.insert(e), e) is None,
{
    let one = seq![e];
    assert(one.drop_first() =~= Seq::<EnvelopeView>::empty());
    assert(forwarded(seen.insert(e), one.drop_first()) =~= Seq::<EnvelopeView>::empty());
    if !seen.contains(e) {
        assert(seq![e] + Seq::<EnvelopeView>::empty() =~= seq![e]);
    }
}

/// Exactly-once delivery: whatever arrives, and however often, every envelope
/// is handed up at most once, only envelopes that arrived are handed up, and
/// every envelope that arrived and was not handed up before is handed up.
pub proof fn lemma_exactly_once(seen: Set<EnvelopeView>, arrivals: Seq<EnvelopeView>)
    ensures
        forwarded(seen, arrivals).no_duplicates(),
        forall|e: EnvelopeView| #[trigger] forwarded(seen, arrivals).contains(e) <==> (
        arrivals.contains(e) && !seen.contains(e)),
    decreases arrivals.len(),
{
    if arrivals.len() > 0 {
        let e = arrivals[0];
        let rest = arrivals.drop_first();
        lemma_exactly_once(seen.insert(e), rest);
        let out = forwarded(seen.insert(e), rest);
        assert forall|x: EnvelopeView| #[trigger] forwarded(seen, arrivals).contains(x) <==> (arrivals.contains(x)
            && !seen.contains(x)) by {
            if arrivals.contains(x) && !seen.contains(x) {
                if x != e {
                    let k = choose|k: int| 0 <= k < arrivals.len() && arrivals[k] == x;
                    assert(rest[k - 1] == x);
                    assert(out.contains(x));
                    if !seen.contains(e) {
                        let m = choose|m: int| 0 <= m < out.len() && out[m] == x;
                        assert((seq![e] + out)[m + 1] == x);
                    }
                } else {
                    assert((seq![e] + out)[0] == x);
                }
            }
            if forwarded(seen, arrivals).contains(x) {
                if !seen.contains(e) {
                    let k = choose|k: int| 0 <= k < (seq![e] + out).len() && (seq![e] + out)[k] == x;
                    if k > 0 {
                        assert(out[k - 1] == x);
                    } else {
                        assert(arrivals[0] == x);
                    }
                }
                if out.contains(x) {
                    let k = choose|k: int| 0 <= k < rest.len() && rest[k] == x;
                    assert(arrivals[k + 1] == x);
                }
            }
        }
        if !seen.contains(e) {
            assert(!out.contains(e));
            assert forall|i: int, j: int| 0 <= i < (seq![e] + out).len() && 0 <= j < (seq![e] + out).len() && i != j implies (seq![e] + out)[i] != (seq![e] + out)[j] by {
                if i > 0 && j > 0 {
                    assert(out[i - 1] != out[j - 1]);
                } else if i == 0 {
                    assert(out.contains(out[j - 1]));
                } else {
                    assert(out.contains(out[i - 1]));
                }
            }
        }
    }
}

/// The state of a perfect link: the stubborn link below it and the
/// envelopes already handed up.
pub struct PerfectLink {
    sl: StubbornLink,
    delivered: EnvelopeSet,
}

impl PerfectLink {
    /// The stubborn link below this link.
    pub closed spec fn stubborn(&self) -> StubbornLink {
        self.sl
    }

    /// The envelopes already handed up.
    pub closed spec fn delivered_view(&self) -> Set<EnvelopeView> {
        self.delivered@
    }

    /// The link's invariant: that of the stubborn link below, and every
    /// envelope handed up has arrived over the fair-loss link at the bottom.
    pub closed spec fn wf(&self) -> bool {
        &&& self.sl.wf()
        &&& self.delivered.wf()
        &&& forall|e: EnvelopeView| #[trigger] self.delivered@.contains(e) ==> traced_delivered(self.sl.fair_loss().trace(), e)
    }

    /// A perfect link creates no messages: every envelope it has handed up
    /// was sent over it and arrived over the fair-loss link at the bottom.
    pub proof fn lemma_handed_up_arrived(&self, e: EnvelopeView)
        requires
            self.wf(),
            self.delivered_view().contains(e),
        ensures
            traced_delivered(self.stubborn().fair_loss().trace(), e),
    {
    }

    /// A link over which nothing was sent and nothing handed up.
    pub fn new() -> (r: Self)
        ensures
            r.wf(),
            r.delivered_view() == Set::<EnvelopeView>::empty(),
            r.stubborn().retransmit_view() == Seq::<EnvelopeView>::empty(),
            r.stubborn().fair_loss().queue_view() == Seq::<EnvelopeView>::empty(),
            r.stubborn().fair_loss().trace() == Seq::<(EnvelopeView, bool)>::empty(),
            r.stubborn().fair_loss().loss_chance() == (45u32, 100u32),
            forall|receiver: usize, sender: usize| #[trigger] r.stubborn().fair_loss().inbox(receiver, sender) == Seq::<Seq<char>>::empty(),
    {
        PerfectLink { sl: StubbornLink::new(), delivered: EnvelopeSet::new() }
    }

    /// Sends `envelope` over the stubborn link.
    pub fn send(&mut self, envelope: Envelope)
        requires
            old(self).wf(),
        ensures
            final(self).wf(),
            final(self).delivered_view() == old(self).delivered_view(),
            old(self).stubborn().fair_loss().sent_to(envelope@, &final(self).stubborn().fair_loss()),
            final(self).stubborn().retransmit_view() == old(self).stubborn().retransmit_view().push(envelope@),
    {
        let ghost before = self.sl.fair_loss().trace();
        let ghost e = envelope@;
        self.sl.send(envelope);
        proof {
            assert forall|x: EnvelopeView| #[trigger] self.delivered@.contains(x) implies traced_delivered(self.sl.fair_loss().trace(), x) by {
                lemma_arrivals_kept(before, e, x);
            }
        }
    }

    /// Lets the stubborn link hand its next kept envelope on again.
    pub fn retransmit_next(&mut self)
        requires
            old(self).wf(),
        ensures
            final(self).wf(),
            final(self).delivered_view() == old(self).delivered_view(),
            final(self).stubborn().retransmit_view() == rotated(old(self).stubborn().retransmit_view()),
            old(self).stubborn().retransmit_view().len() == 0 ==> final(self).stubborn().fair_loss() == old(self).stubborn().fair_loss(),
            old(self).stubborn().retransmit_view().len() > 0 ==> old(self).stubborn().fair_loss().sent_to(
                old(self).stubborn().retransmit_view()[0],
                &final(self).stubborn().fair_loss(),
            ),
    {
        let ghost before = self.sl.fair_loss().trace();
        let ghost kept = self.sl.retransmit_view();
        self.sl.retransmit_next();
        proof {
            if kept.len() > 0 {
                assert forall|x: EnvelopeView| #[trigger] self.delivered@.contains(x) implies traced_delivered(self.sl.fair_loss().trace(), x) by {
                    lemma_arrivals_kept(before, kept[0], x);
                }
            }
        }
    }

    /// Lets the fair-loss link at the bottom deliver or lose its next waiting
    /// envelope; returns the envelope if it arrived.
    pub fn deliver_next(&mut self) -> (r: Option<Envelope>)
        requires
            old(self).wf(),
        ensures
            final(self).wf(),
            final(self).delivered_view() == old(self).delivered_view(),
            old(self).stubborn().fair_loss().took_next(envelope_option_view(r), &final(self).stubborn().fair_loss()),
            final(self).stubborn().retransmit_view() == old(self).stubborn().retransmit_view(),
            r matches Some(e) ==> traced_delivered(final(self).stubborn().fair_loss().trace(), e@),
    {
        let ghost fll0 = self.sl.fair_loss();
        proof {
            lemma_waiting_traced(&fll0);
        }
        let r = self.sl.deliver_next();
        proof {
            if fll0.queue_view().len() > 0 && r is Some {
                let e = fll0.queue_view()[0];
                assert forall|x: EnvelopeView| #[trigger] self.delivered@.contains(x) implies traced_delivered(self.sl.fair_loss().trace(), x) by {
                    lemma_arrivals_kept(fll0.trace(), e, x);
                }
                lemma_mark_traces(fll0.trace(), e, e);
            }
        }
        r
    }

    /// Takes an arrival from the stubborn link: returns the envelope to hand
    /// up where it was not handed up before, and nothing where it was. The
    /// envelope must have arrived over the fair-loss link at the bottom, as
    /// those that `deliver_next` returns have.
    pub fn on_delivered(&mut self, envelope: Envelope) -> (r: Option<Envelope>)
        requires
            old(self).wf(),
            traced_delivered(old(self).stubborn().fair_loss().trace(), envelope@),
        ensures
            final(self).wf(),
            envelope_option_view(r) == forward_step(old(self).delivered_view(), envelope@),
            r is Some <==> !old(self).delivered_view().contains(envelope@),
            r matches Some(x) ==> x@ == envelope@,
            final(self).delivered_view() == old(self).delivered_view().insert(envelope@),
            final(self).stubborn() == old(self).stubborn(),
    {
        let copy = envelope.clone();
        if self.delivered.insert(envelope) {
            Some(copy)
        } else {
            None
        }
    }
}

} // verus!
