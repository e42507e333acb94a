//! A table of message queues, one per worker.

use std::collections::{HashMap, VecDeque};
use vstd::prelude::*;
use vstd::std_specs::hash::spec_keys_iter;
use vstd::std_specs::iter::IteratorSpec;

verus! {

broadcast use vstd::std_specs::hash::group_hash_axioms;

/// Taking one more element of a sequence without duplicates adds exactly
/// that element, which was not among those taken before.
pub proof fn lemma_take_one_more(ids: Seq<u64>, k: int)
    requires
        ids.no_duplicates(),
        0 <= k < ids.len(),
    ensures
        !ids.take(k).contains(ids[k]),
        forall|x: u64| #[trigger] ids.take(k + 1).contains(x) <==> (ids.take(k).contains(x) || x == ids[k]),
{
    let t0 = ids.take(k);
    let t1 = ids.take(k + 1);
    if t0.contains(ids[k]) {
        let j = choose|j: int| 0 <= j < t0.len() && t0[j] == ids[k];
        assert(ids[j] == ids[k]);
    }
    assert forall|x: u64| #[trigger] t1.contains(x) <==> (t0.contains(x) || x == ids[k]) by {
        if t1.contains(x) {
            let j = choose|j: int| 0 <= j < t1.len() && t1[j] == x;
            if j < k {
                assert(t0[j] == x);
            }
        }
        if t0.contains(x) {
            let j = choose|j: int| 0 <= j < t0.len() && t0[j] == x;
            assert(t1[j] == x);
        }
        if x == ids[k] {
            assert(t1[k] == x);
        }
    }
}

/// A queue of messages for each worker that has one.
pub struct QueueTable<M> {
    queues: HashMap<u64, VecDeque<M>>,
}

impl<M> View for QueueTable<M> {
    type V = Map<u64, Seq<M>>;

    closed spec fn view(&self) -> Map<u64, Seq<M>> {
        self.queues@.map_values(|q: VecDeque<M>| q@)
    }
}

impl<M> QueueTable<M> {
    /// A table without queues.
    pub fn new() -> (r: Self)
        ensures
            r@ == Map::<u64, Seq<M>>::empty(),
    {
        let r = QueueTable { queues: HashMap::new() };
        assert(r@ =~= Map::<u64, Seq<M>>::empty());
        r
    }

    /// Whether `id` has a queue.
    pub fn contains(&self, id: u64) -> (r: bool)
        ensures
            r == self@.dom().contains(id),
    {
        self.queues.contains_key(&id)
    }

    /// The workers with a queue, each once, in the order the table walks them.
    pub fn id_list(&self) -> (r: Vec<u64>)
        ensures
            r@.no_duplicates(),
            forall|id: u64| #[trigger] r@.contains(id) <==> self@.dom().contains(id),
    {
        let mut r: Vec<u64> = Vec::new();
        for id in it: self.queues.keys()
            invariant
                r@ == it.history().unref(),
                it.seq() == spec_keys_iter(&self.queues).remaining(),
        {
            r.push(*id);
        }
        assert(r@ =~= spec_keys_iter(&self.queues).remaining().unref());
        r
    }

    /// Appends `m` to the queue of `id`, which must have one.
    pub fn push(&mut self, id: u64, m: M)
        requires
            old(self)@.dom().contains(id),
        ensures
            final(self)@ == old(self)@.insert(id, old(self)@[id].push(m)),
    {
        match self.queues.remove(&id) {
            Some(mut q) => {
                q.push_back(m);
                self.queues.insert(id, q);
            },
            None => {},
        }
        assert(self@ =~= old(self)@.insert(id, old(self)@[id].push(m)));
    }

    /// Takes the first message of the queue of `id`, which must have one.
    pub fn pop(&mut self, id: u64) -> (r: Option<M>)
        requires
            old(self)@.dom().contains(id),
        ensures
            old(self)@[id].len() == 0 ==> r is None && final(self)@ == old(self)@,
            old(self)@[id].len() > 0 ==> r == Some(old(self)@[id][0]) && final(self)@ == old(self)@.insert(
                id,
                old(self)@[id].drop_first(),
            ),
    {
        match self.queues.remove(&id) {
            Some(mut q) => {
                let r = q.pop_front();
                self.queues.insert(id, q);
                proof {
                    if r is None {
                        assert(self@ =~= old(self)@);
                    } else {
                        assert(self@ =~= old(self)@.insert(id, old(self)@[id].drop_first()));
                    }
                }
                r
            },
            None => None,
        }
    }

    /// Takes the queue of `id` out of the table: its messages, or none where
    /// it has no queue.
    pub fn take(&mut self, id: u64) -> (r: VecDeque<M>)
        ensures
            final(self)@ == old(self)@.remove(id),
            r@ == if old(self)@.dom().contains(id) {
                old(self)@[id]
            } else {
                Seq::<M>::empty()
            },
    {
        let r = match self.queues.remove(&id) {
            Some(q) => q,
            None => VecDeque::new(),
        };
        assert(self@ =~= old(self)@.remove(id));
        r
    }

    /// Gives `id` the queue `events`, replacing any queue it has.
    pub fn put(&mut self, id: u64, events: VecDeque<M>)
        ensures
            final(self)@ == old(self)@.insert(id, events@),
    {
        let ghost ev = events@;
        self.queues.insert(id, events);
        assert(self@ =~= old(self)@.insert(id, ev));
    }
}

} // verus!
