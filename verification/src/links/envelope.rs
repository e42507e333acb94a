//! Messages between participants, and sets of them.

use vstd::prelude::*;

verus! {

/// A message from one participant to another.
#[derive(Debug)]
pub struct Envelope {
    pub sender: usize,
    pub receiver: usize,
    pub message: String,
}

/// The mathematical value of an envelope.
pub struct EnvelopeView {
    pub sender: usize,
    pub receiver: usize,
    pub message: Seq<char>,
}

impl View for Envelope {
    type V = EnvelopeView;

    open spec fn view(&self) -> EnvelopeView {
        EnvelopeView { sender: self.sender, receiver: self.receiver, message: self.message@ }
    }
}

impl Envelope {
    /// The envelope that carries `message` from `sender` to `receiver`.
    pub fn new(sender: usize, receiver: usize, message: String) -> (r: Self)
        ensures
            r.sender == sender,
            r.receiver == receiver,
            r.message@ == message@,
    {
        Envelope { sender, receiver, message }
    }
}

impl Clone for Envelope {
    fn clone(&self) -> (r: Self)
        ensures
            r@ == self@,
    {
        Envelope { sender: self.sender, receiver: self.receiver, message: self.message.clone() }
    }
}

impl PartialEq for Envelope {
    fn eq(&self, other: &Self) -> (r: bool) {
        self.sender == other.sender && self.receiver == other.receiver && self.message
            == other.message
    }
}

impl vstd::std_specs::cmp::PartialEqSpecImpl for Envelope {
    open spec fn obeys_eq_spec() -> bool {
        true
    }

    open spec fn eq_spec(&self, other: &Self) -> bool {
        self@ == other@
    }
}

impl Eq for Envelope {

}

/// The views of a sequence of envelopes.
pub open spec fn envelope_views(s: Seq<Envelope>) -> Seq<EnvelopeView> {
    s.map_values(|e: Envelope| e@)
}

/// A set of envelopes, compared by value.
pub struct EnvelopeSet {
    items: Vec<Envelope>,
}

impl View for EnvelopeSet {
    type V = Set<EnvelopeView>;

    closed spec fn view(&self) -> Set<EnvelopeView> {
        envelope_views(self.items@).to_set()
    }
}

impl EnvelopeSet {
    /// The set's invariant: no envelope is held twice.
    pub closed spec fn wf(&self) -> bool {
        envelope_views(self.items@).no_duplicates()
    }

    /// The empty set.
    pub fn new() -> (r: Self)
        ensures
            r.wf(),
            r@ == Set::<EnvelopeView>::empty(),
    {
        let r = EnvelopeSet { items: Vec::new() };
        assert(envelope_views(r.items@) =~= Seq::<EnvelopeView>::empty());
        r
    }

    /// Whether `envelope` is in the set.
    pub fn contains(&self, envelope: &Envelope) -> (r: bool)
        ensures
            r == self@.contains(envelope@),
    {
        let mut i: usize = 0;
        while i < self.items.len()
            invariant
                i <= self.items@.len(),
                forall|j: int| 0 <= j < i ==> self.items@[j]@ != envelope@,
            decreases self.items.len() - i,
        {
            if self.items[i] == *envelope {
                assert(envelope_views(self.items@)[i as int] == envelope@);
                return true;
            }
            i = i + 1;
        }
        assert(!envelope_views(self.items@).contains(envelope@));
        false
    }

    /// Adds `envelope`; returns whether it was not yet in the set.
    pub fn insert(&mut self, envelope: Envelope) -> (r: bool)
        requires
            old(self).wf(),
        ensures
            final(self).wf(),
            r == !old(self)@.contains(envelope@),
            final(self)@ == old(self)@.insert(envelope@),
    {
        if self.contains(&envelope) {
            assert(self@.insert(envelope@) =~= self@);
            false
        } else {
            let ghost old_items = envelope_views(self.items@);
            self.items.push(envelope);
            assert(envelope_views(self.items@) =~= old_items.push(envelope@));
            assert(old_items.push(envelope@).to_set() =~= old_items.to_set().insert(envelope@)) by {
                assert forall|x: EnvelopeView| old_items.push(envelope@).contains(x) implies old_items.to_set().insert(envelope@).contains(x) by {
                    let k = choose|k: int| 0 <= k < old_items.push(envelope@).len() && old_items.push(envelope@)[k] == x;
                    if k < old_items.len() {
                        assert(old_items[k] == x);
                    }
                }
                assert forall|x: EnvelopeView| old_items.contains(x) implies old_items.push(envelope@).contains(x) by {
                    let k = choose|k: int| 0 <= k < old_items.len() && old_items[k] == x;
                    assert(old_items.push(envelope@)[k] == x);
                }
                assert(old_items.push(envelope@)[old_items.len() as int] == envelope@);
            }
            true
        }
    }

    /// The set's envelopes, each once.
    pub fn to_vec(&self) -> (r: Vec<Envelope>)
        requires
            self.wf(),
        ensures
            envelope_views(r@).to_set() == self@,
            envelope_views(r@).no_duplicates(),
    {
        let mut r: Vec<Envelope> = Vec::new();
        let mut i: usize = 0;
        while i < self.items.len()
            invariant
                i <= self.items@.len(),
                envelope_views(r@) == envelope_views(self.items@).take(i as int),
            decreases self.items.len() - i,
        {
            r.push(self.items[i].clone());
            assert(envelope_views(self.items@).take(i + 1) =~= envelope_views(self.items@).take(i as int).push(self.items@[i as int]@));
            assert(envelope_views(r@) =~= envelope_views(self.items@).take(i as int).push(self.items@[i as int]@));
            i = i + 1;
        }
        assert(envelope_views(self.items@).take(i as int) =~= envelope_views(self.items@));
        r
    }
}

} // verus!
