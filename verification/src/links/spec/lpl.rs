//! The logged perfect link: a perfect link that keeps the set of envelopes it
//! has handed up in a log, so that a restart hands none of them up again.

use crate::links::envelope::{Envelope, EnvelopeSet, EnvelopeView, envelope_views};
use crate::links::spec::fll::envelope_option_view;
use crate::links::spec::pl::forward_step;
use crate::links::spec::sl::{StubbornLink, rotated};
use vstd::prelude::*;

verus! {

/// The state of a logged perfect link: the stubborn link below it and the
/// envelopes already handed up, which the log holds.
pub struct LoggedPerfectLink {
    sl: StubbornLink,
    delivered: EnvelopeSet,
}

impl LoggedPerfectLink {
    /// The stubborn link below this link.
    pub closed spec fn stubborn(&self) -> StubbornLink {
        self.sl
    }

    /// The envelopes already handed up.
    pub closed spec fn delivered_view(&self) -> Set<EnvelopeView> {
        self.delivered@
    }

    /// The link's invariant.
    pub closed spec fn wf(&self) -> bool {
        self.sl.wf() && self.delivered.wf()
    }

    /// A link over which nothing was sent and nothing handed up.
    pub fn new() -> (r: Self)
        ensures
            r.wf(),
            r.delivered_view() == Set::<EnvelopeView>::empty(),
            r.stubborn().retransmit_view() == Seq::<EnvelopeView>::empty(),
            r.stubborn().fair_loss().queue_view() == Seq::<EnvelopeView>::empty(),
            r.stubborn().fair_loss().trace() == Seq::<(EnvelopeView, bool)>::empty(),
            r.stubborn().fair_loss().loss_chance() == (45u32, 100u32),
            forall|receiver: usize, sender: usize| #[trigger] r.stubborn().fair_loss().inbox(receiver, sender) == Seq::<Seq<char>>::empty(),
    {
        LoggedPerfectLink { sl: StubbornLink::new(), delivered: EnvelopeSet::new() }
    }

    /// Sends `envelope` over the stubborn link.
    pub fn send(&mut self, envelope: Envelope)
        requires
            old(self).wf(),
        ensures
            final(self).wf(),
            final(self).delivered_view() == old(self).delivered_view(),
            old(self).stubborn().fair_loss().sent_to(envelope@, &final(self).stubborn().fair_loss()),
            final(self).stubborn().retransmit_view() == old(self).stubborn().retransmit_view().push(envelope@),
    {
        self.sl.send(envelope);
    }

    /// Lets the stubborn link hand its next kept envelope on again.
    pub fn retransmit_next(&mut self)
        requires
            old(self).wf(),
        ensures
            final(self).wf(),
            final(self).delivered_view() == old(self).delivered_view(),
            final(self).stubborn().retransmit_view() == rotated(old(self).stubborn().retransmit_view()),
            old(self).stubborn().retransmit_view().len() == 0 ==> final(self).stubborn().fair_loss() == old(self).stubborn().fair_loss(),
            old(self).stubborn().retransmit_view().len() > 0 ==> old(self).stubborn().fair_loss().sent_to(
                old(self).stubborn().retransmit_view()[0],
                &final(self).stubborn().fair_loss(),
            ),
    {
        self.sl.retransmit_next();
    }

    /// Lets the fair-loss link at the bottom deliver or lose its next waiting
    /// envelope; returns the envelope if it arrived.
    pub fn deliver_next(&mut self) -> (r: Option<Envelope>)
        requires
            old(self).wf(),
        ensures
            final(self).wf(),
            final(self).delivered_view() == old(self).delivered_view(),
            old(self).stubborn().fair_loss().took_next(envelope_option_view(r), &final(self).stubborn().fair_loss()),
            final(self).stubborn().retransmit_view() == old(self).stubborn().retransmit_view(),
    {
        self.sl.deliver_next()
    }

    /// Takes an arrival from the stubborn link: returns the envelope where it
    /// was not handed up before (the log is then to be saved and the envelope
    /// handed up), and nothing where it was.
    pub fn on_delivered(&mut self, envelope: Envelope) -> (r: Option<Envelope>)
        requires
            old(self).wf(),
        ensures
            final(self).wf(),
            envelope_option_view(r) == forward_step(old(self).delivered_view(), envelope@),
            r is Some <==> !old(self).delivered_view().contains(envelope@),
            r matches Some(x) ==> x@ == envelope@,
            final(self).delivered_view() == old(self).delivered_view().insert(envelope@),
            final(self).stubborn() == old(self).stubborn(),
    {
        let copy = envelope.clone();
        if self.delivered.insert(envelope) {
            Some(copy)
        } else {
            None
        }
    }

    /// The envelopes already handed up, each once: what the log holds.
    pub fn delivered_envelopes(&self) -> (r: Vec<Envelope>)
        requires
            self.wf(),
        ensures
            envelope_views(r@).to_set() == self.delivered_view(),
            envelope_views(r@).no_duplicates(),
    {
        self.delivered.to_vec()
    }

    /// Replaces the envelopes already handed up by those that a log holds.
    pub fn restore(&mut self, saved: Vec<Envelope>)
        requires
            old(self).wf(),
        ensures
            final(self).wf(),
            final(self).delivered_view() == envelope_views(saved@).to_set(),
            final(self).stubborn() == old(self).stubborn(),
    {
        let mut set = EnvelopeSet::new();
        let mut i: usize = 0;
        while i < saved.len()
            invariant
                i <= saved@.len(),
                set.wf(),
                set@ == envelope_views(saved@.take(i as int)).to_set(),
            decreases saved.len() - i,
        {
            let ghost before = set@;
            set.insert(saved[i].clone());
            proof {
                let s = envelope_views(saved@.take(i + 1));
                let t = envelope_views(saved@.take(i as int));
                assert(s =~= t.push(saved@[i as int]@));
                assert(s.to_set() =~= t.to_set().insert(saved@[i as int]@)) by {
                    assert forall|x: EnvelopeView| s.contains(x) implies t.to_set().insert(saved@[i as int]@).contains(x) by {
                        let k = choose|k: int| 0 <= k < s.len() && s[k] == x;
                        if k < t.len() {
                            assert(t[k] == x);
                        }
                    }
                    assert forall|x: EnvelopeView| t.contains(x) implies s.contains(x) by {
                        let k = choose|k: int| 0 <= k < t.len() && t[k] == x;
                        assert(s[k] == x);
                    }
                    assert(s[i as int] == saved@[i as int]@);
                }
            }
            i = i + 1;
        }
        assert(saved@.take(i as int) =~= saved@);
        self.delivered = set;
    }
}

/// What the log gives back is what was written: a link restored from the
/// envelopes that another link reports as handed up (`delivered_envelopes`)
/// has handed up exactly the same envelopes (`restore`).
pub proof fn lemma_log_round_trip(
    written: LoggedPerfectLink,
    log: Seq<Envelope>,
    restored: LoggedPerfectLink,
)
    requires
        envelope_views(log).to_set() == written.delivered_view(),
        restored.delivered_view() == envelope_views(log).to_set(),
    ensures
        restored.delivered_view() == written.delivered_view(),
        forall|e: EnvelopeView| #[trigger] written.delivered_view().contains(e) ==> forward_step(restored.delivered_view(), e) is None,
{
}

/// A restart from the log hands up none of the logged envelopes again:
/// once a link is restored from a log that holds `e`, an arrival of `e` is
/// not handed up.
pub proof fn lemma_restart_hands_up_none_again(log: Seq<EnvelopeView>, e: EnvelopeView)
    requires
        log.contains(e),
    ensures
        forward_step(log.to_set(), e) is None,
{
}

} // verus!
