//! A record of which envelopes were sent over a link and which arrived.

use crate::links::envelope::{Envelope, EnvelopeView};
use vstd::prelude::*;

verus! {

/// The view of a record: each traced envelope with whether it arrived.
pub open spec fn trace_views(s: Seq<(Envelope, bool)>) -> Seq<(EnvelopeView, bool)> {
    s.map_values(|p: (Envelope, bool)| (p.0@, p.1))
}

/// Whether `e` is traced in `s`.
pub open spec fn traced(s: Seq<(EnvelopeView, bool)>, e: EnvelopeView) -> bool {
    exists|i: int| 0 <= i < s.len() && (#[trigger] s[i]).0 == e
}

/// Whether `e` is traced in `s` as arrived.
pub open spec fn traced_delivered(s: Seq<(EnvelopeView, bool)>, e: EnvelopeView) -> bool {
    exists|i: int| 0 <= i < s.len() && #[trigger] s[i] == (e, true)
}

/// Whether no envelope is traced twice in `s`.
pub open spec fn distinct_keys(s: Seq<(EnvelopeView, bool)>) -> bool {
    forall|i: int, j: int| 0 <= i < j < s.len() ==> (#[trigger] s[i]).0 != (#[trigger] s[j]).0
}

/// The number of envelopes traced in `s` as arrived.
pub open spec fn count_delivered(s: Seq<(EnvelopeView, bool)>) -> nat
    decreases s.len(),
{
    if s.len() == 0 {
        0
    } else {
        count_delivered(s.drop_last()) + if s.last().1 {
            1nat
        } else {
            0nat
        }
    }
}

/// `s` after `e` is sent: traced as not arrived where it was not traced.
pub open spec fn record_sent(s: Seq<(EnvelopeView, bool)>, e: EnvelopeView) -> Seq<(EnvelopeView, bool)> {
    if traced(s, e) {
        s
    } else {
        s.push((e, false))
    }
}

/// `s` with the envelope `e` marked as arrived.
pub open spec fn mark_delivered(s: Seq<(EnvelopeView, bool)>, e: EnvelopeView) -> Seq<
    (EnvelopeView, bool),
> {
    s.map_values(
        |p: (EnvelopeView, bool)|
            if p.0 == e {
                (e, true)
            } else {
                p
            },
    )
}

proof fn lemma_count_push(s: Seq<(EnvelopeView, bool)>, p: (EnvelopeView, bool))
    ensures
        count_delivered(s.push(p)) == count_delivered(s) + if p.1 {
            1nat
        } else {
            0nat
        },
{
    assert(s.push(p).drop_last() =~= s);
}

/// Marking an envelope that is traced once raises the count by one where it
/// had not arrived, and keeps it where it had.
pub proof fn lemma_count_mark(s: Seq<(EnvelopeView, bool)>, e: EnvelopeView, k: int)
    requires
        distinct_keys(s),
        0 <= k < s.len(),
        s[k].0 == e,
    ensures
        count_delivered(mark_delivered(s, e)) == count_delivered(s) + if s[k].1 {
            0nat
        } else {
            1nat
        },
    decreases s.len(),
{
    let t = mark_delivered(s, e);
    assert(t.drop_last() =~= mark_delivered(s.drop_last(), e));
    if k == s.len() - 1 {
        assert(mark_delivered(s.drop_last(), e) =~= s.drop_last()) by {
            assert forall|i: int| 0 <= i < s.drop_last().len() implies s.drop_last()[i].0 != e by {
                assert(s[i].0 != s[k].0);
            }
        }
    } else {
        assert(s.last().0 != e) by {
            assert(s[k].0 != s[s.len() - 1].0);
        }
        lemma_count_mark(s.drop_last(), e, k);
    }
}

/// Sending again changes nothing: a record traces each envelope once, and a
/// resend neither adds it nor resets its arrival.
pub proof fn lemma_resend_changes_nothing(s: Seq<(EnvelopeView, bool)>, e: EnvelopeView)
    ensures
        traced(record_sent(s, e), e),
        record_sent(record_sent(s, e), e) == record_sent(s, e),
        record_sent(mark_delivered(record_sent(s, e), e), e) == mark_delivered(record_sent(s, e), e),
{
    let t = record_sent(s, e);
    if !traced(s, e) {
        assert(t[s.len() as int].0 == e);
    }
    let k = choose|k: int| 0 <= k < t.len() && (#[trigger] t[k]).0 == e;
    assert(mark_delivered(t, e)[k].0 == e);
}

/// A sent envelope that is marked as arrived is traced as arrived, and
/// marking keeps what is traced.
pub proof fn lemma_mark_traces(s: Seq<(EnvelopeView, bool)>, e: EnvelopeView, x: EnvelopeView)
    requires
        traced(s, e),
    ensures
        traced_delivered(mark_delivered(s, e), e),
        traced(mark_delivered(s, e), x) == traced(s, x),
{
    let k = choose|k: int| 0 <= k < s.len() && (#[trigger] s[k]).0 == e;
    assert(mark_delivered(s, e)[k] == (e, true));
    if traced(s, x) {
        let j = choose|j: int| 0 <= j < s.len() && (#[trigger] s[j]).0 == x;
        assert(mark_delivered(s, e)[j].0 == x);
    }
    if traced(mark_delivered(s, e), x) {
        let j = choose|j: int| 0 <= j < s.len() && (#[trigger] mark_delivered(s, e)[j]).0 == x;
        assert(s[j].0 == x);
    }
}

/// What is traced as arrived stays so: sending an envelope or marking one as
/// arrived keeps every arrival.
pub proof fn lemma_arrivals_kept(s: Seq<(EnvelopeView, bool)>, e: EnvelopeView, x: EnvelopeView)
    requires
        traced_delivered(s, x),
    ensures
        traced_delivered(record_sent(s, e), x),
        traced_delivered(mark_delivered(s, e), x),
{
    let j = choose|j: int| 0 <= j < s.len() && #[trigger] s[j] == (x, true);
    assert(record_sent(s, e)[j] == (x, true));
    assert(mark_delivered(s, e)[j] == (x, true));
}

/// The count of arrived envelopes never exceeds the number traced.
pub proof fn lemma_count_bounded(s: Seq<(EnvelopeView, bool)>)
    ensures
        count_delivered(s) <= s.len(),
    decreases s.len(),
{
    if s.len() > 0 {
        lemma_count_bounded(s.drop_last());
    }
}

/// The record of a link: for each envelope sent, whether it has arrived.
pub struct Monitoring {
    traces: Vec<(Envelope, bool)>,
}

impl View for Monitoring {
    type V = Seq<(EnvelopeView, bool)>;

    closed spec fn view(&self) -> Seq<(EnvelopeView, bool)> {
        trace_views(self.traces@)
    }
}

impl Default for Monitoring {
    fn default() -> (r: Self)
        ensures
            r.wf(),
            r@ == Seq::<(EnvelopeView, bool)>::empty(),
    {
        Monitoring::new()
    }
}

impl Monitoring {
    /// The record's invariant: each envelope is traced at most once.
    pub open spec fn wf(&self) -> bool {
        distinct_keys(self@)
    }

    /// A record in which nothing is traced.
    pub fn new() -> (r: Self)
        ensures
            r.wf(),
            r@ == Seq::<(EnvelopeView, bool)>::empty(),
    {
        let r = Monitoring { traces: Vec::new() };
        assert(r@ =~= Seq::<(EnvelopeView, bool)>::empty());
        r
    }

    /// The index at which `envelope` is traced.
    fn position(&self, envelope: &Envelope) -> (r: Option<usize>)
        ensures
            match r {
                Some(i) => i < self@.len() && self@[i as int].0 == envelope@,
                None => !traced(self@, envelope@),
            },
    {
        let mut i: usize = 0;
        while i < self.traces.len()
            invariant
                i <= self.traces@.len(),
                forall|j: int| 0 <= j < i ==> self@[j].0 != envelope@,
            decreases self.traces.len() - i,
        {
            if self.traces[i].0 == *envelope {
                return Some(i);
            }
            i = i + 1;
        }
        None
    }

    /// Traces `envelope` as sent and not arrived, unless it is traced already.
    pub fn record_send(&mut self, envelope: Envelope)
        requires
            old(self).wf(),
        ensures
            final(self).wf(),
            final(self)@ == record_sent(old(self)@, envelope@),
    {
        match self.position(&envelope) {
            Some(_) => {},
            None => {
                let ghost old_view = self@;
                let ghost e = envelope@;
                self.traces.push((envelope, false));
                assert(self@ =~= old_view.push((e, false)));
                assert forall|i: int, j: int| 0 <= i < j < self@.len() implies (
                #[trigger] self@[i]).0 != (#[trigger] self@[j]).0 by {
                    if j == old_view.len() {
                        if self@[i].0 == e {
                            assert(old_view[i].0 == e);
                        }
                    }
                }
            },
        }
    }

    /// Marks `envelope`, which must be traced, as arrived.
    pub fn record_deliver(&mut self, envelope: Envelope)
        requires
            old(self).wf(),
            traced(old(self)@, envelope@),
        ensures
            final(self).wf(),
            final(self)@ == mark_delivered(old(self)@, envelope@),
    {
        let ghost old_view = self@;
        match self.position(&envelope) {
            Some(i) => {
                let ghost e = envelope@;
                self.traces.set(i, (envelope, true));
                assert forall|j: int| 0 <= j < old_view.len() && j != i implies old_view[j].0
                    != e by {
                    if j < i {
                        assert(old_view[j].0 != old_view[i as int].0);
                    } else {
                        assert(old_view[i as int].0 != old_view[j].0);
                    }
                }
                assert(self@ =~= mark_delivered(old_view, e));
            },
            None => {},
        }
    }

    /// The number of envelopes that have arrived.
    pub fn delivered_count(&self) -> (r: usize)
        ensures
            r == count_delivered(self@),
    {
        let mut count: usize = 0;
        let mut i: usize = 0;
        while i < self.traces.len()
            invariant
                i <= self.traces@.len(),
                count == count_delivered(self@.take(i as int)),
                count <= i,
            decreases self.traces.len() - i,
        {
            proof {
                assert(self@.take(i + 1) =~= self@.take(i as int).push(self@[i as int]));
                lemma_count_push(self@.take(i as int), self@[i as int]);
            }
            if self.traces[i].1 {
                count = count + 1;
            }
            i = i + 1;
        }
        assert(self@.take(i as int) =~= self@);
        count
    }
}

} // verus!
