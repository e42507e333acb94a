//! The routing of commands to threads: each thread has a queue of commands,
//! which it works through when woken.

use crate::models::thread_command::ThreadCommand;
use crate::queues::{QueueTable, lemma_take_one_more};
use std::sync::Arc;
use vstd::prelude::*;

verus! {

/// Calls `Arc::clone`, which std documents as making another pointer to the
/// same allocation; the contract claims that the result is the same command.
#[verifier::external_body]
fn share(command: &Arc<ThreadCommand>) -> (r: Arc<ThreadCommand>)
    ensures
        r == *command,
{
    Arc::clone(command)
}

/// What the thread manager does with a command it is asked to send.
pub enum Dispatch {
    /// The command was queued; the threads listed are to be woken.
    Wake(Vec<u64>),
    /// The command cannot be sent; it is handed back.
    Unsupported(ThreadCommand),
}

/// What a thread does with a command from its queue.
#[derive(Debug)]
pub enum WorkerAction {
    /// End the process.
    Exit,
    /// Report data from a sender.
    Report { sender: u64, data: String },
    /// Stop, as asked to.
    Killed,
    /// Stop on a command that a thread does not carry out.
    Unknown,
}

/// Routes commands to threads: the spawned threads, and a queue of commands
/// for each thread that has one.
pub struct ThreadManager {
    threads: Vec<u64>,
    data_store: QueueTable<Arc<ThreadCommand>>,
}

impl ThreadManager {
    /// The queues, by thread.
    pub closed spec fn queues(&self) -> Map<u64, Seq<Arc<ThreadCommand>>> {
        self.data_store@
    }

    /// The spawned threads.
    pub closed spec fn threads_view(&self) -> Seq<u64> {
        self.threads@
    }

    /// The manager's invariant: each thread is listed once.
    pub closed spec fn wf(&self) -> bool {
        self.threads@.no_duplicates()
    }

    /// A manager without threads.
    pub fn new() -> (r: Self)
        ensures
            r.wf(),
            r.queues() == Map::<u64, Seq<Arc<ThreadCommand>>>::empty(),
            r.threads_view() == Seq::<u64>::empty(),
    {
        ThreadManager { threads: Vec::new(), data_store: QueueTable::new() }
    }

    /// Whether `id` has a queue.
    pub fn has_queue(&self, id: u64) -> (r: bool)
        requires
            self.wf(),
        ensures
            r == self.queues().dom().contains(id),
    {
        self.data_store.contains(id)
    }

    /// The threads with a queue, each once.
    pub fn queue_ids(&self) -> (r: Vec<u64>)
        requires
            self.wf(),
        ensures
            r@.no_duplicates(),
            forall|id: u64| #[trigger] r@.contains(id) <==> self.queues().dom().contains(id),
    {
        self.data_store.id_list()
    }

    /// Whether `id` is a spawned thread.
    pub fn has_thread(&self, id: u64) -> (r: bool)
        ensures
            r == self.threads_view().contains(id),
    {
        let mut i: usize = 0;
        while i < self.threads.len()
            invariant
                i <= self.threads@.len(),
                forall|j: int| 0 <= j < i ==> self.threads@[j] != id,
            decreases self.threads.len() - i,
        {
            if self.threads[i] == id {
                return true;
            }
            i = i + 1;
        }
        false
    }

    /// Lists the thread `id` as spawned.
    pub fn add_thread(&mut self, id: u64)
        requires
            old(self).wf(),
        ensures
            final(self).wf(),
            final(self).queues() == old(self).queues(),
            old(self).threads_view().contains(id) ==> final(self).threads_view() == old(self).threads_view(),
            !old(self).threads_view().contains(id) ==> final(self).threads_view() == old(self).threads_view().push(id),
    {
        if self.has_thread(id) {
            return;
        }
        let ghost old_threads = self.threads@;
        self.threads.push(id);
        proof {
            assert forall|a: int, b: int| 0 <= a < self.threads@.len() && 0 <= b < self.threads@.len() && a != b implies self.threads@[a] != self.threads@[b] by {
                if a < old_threads.len() && b < old_threads.len() {
                    assert(old_threads[a] != old_threads[b]);
                }
            }
        }
    }

    /// Sends `event`: a broadcast queues its command for every thread with a
    /// queue and wakes them all; a kill queues a kill command for its thread
    /// and wakes it; a command for one thread is queued for it if it has a
    /// queue, and wakes none; any other command is handed back.
    pub fn send(&mut self, event: ThreadCommand) -> (r: Dispatch)
        requires
            old(self).wf(),
            event matches ThreadCommand::BROADCAST(_) ==> forall|id: u64| #[trigger] old(self).queues().dom().contains(id) ==> old(self).threads_view().contains(id),
            event matches ThreadCommand::KILL(id) ==> old(self).queues().dom().contains(id) && old(self).threads_view().contains(id),
        ensures
            final(self).wf(),
            final(self).threads_view() == old(self).threads_view(),
            match event {
                ThreadCommand::BROADCAST(command) => {
                    &&& final(self).queues().dom() == old(self).queues().dom()
                    &&& forall|id: u64| #[trigger] old(self).queues().dom().contains(id) ==> final(self).queues()[id] == old(self).queues()[id].push(command)
                    &&& r matches Dispatch::Wake(woken) && woken@.no_duplicates()
                        && forall|id: u64| #[trigger] woken@.contains(id) <==> old(self).queues().dom().contains(id)
                },
                ThreadCommand::KILL(id) => {
                    &&& final(self).queues().dom() == old(self).queues().dom()
                    &&& forall|x: u64| #[trigger] old(self).queues().dom().contains(x) && x != id ==> final(self).queues()[x] == old(self).queues()[x]
                    &&& final(self).queues()[id].drop_last() == old(self).queues()[id]
                    &&& final(self).queues()[id].len() == old(self).queues()[id].len() + 1
                    &&& *final(self).queues()[id].last() == ThreadCommand::KILL(id)
                    &&& r matches Dispatch::Wake(woken) && woken@ == seq![id]
                },
                ThreadCommand::SEND(receiver, command) => {
                    &&& final(self).queues() == if old(self).queues().dom().contains(receiver) {
                        old(self).queues().insert(receiver, old(self).queues()[receiver].push(command))
                    } else {
                        old(self).queues()
                    }
                    &&& r matches Dispatch::Wake(woken) && woken@ == Seq::<u64>::empty()
                },
                _ => final(self).queues() == old(self).queues() && r == Dispatch::Unsupported(event),
            },
    {
        match event {
            ThreadCommand::BROADCAST(command) => {
                let ghost before = self.data_store@;
                let ids = self.data_store.id_list();
                let mut k: usize = 0;
                while k < ids.len()
                    invariant
                        self.wf(),
                        self.threads@ == old(self).threads@,
                        before == old(self).queues(),
                        k <= ids@.len(),
                        ids@.no_duplicates(),
                        forall|id: u64| #[trigger] before.dom().contains(id) <==> ids@.contains(id),
                        self.data_store@.dom() == before.dom(),
                        forall|id: u64|
                            #![trigger self.data_store@[id]]
                            before.dom().contains(id) ==> if ids@.take(k as int).contains(id) {
                                self.data_store@[id] == before[id].push(command)
                            } else {
                                self.data_store@[id] == before[id]
                            },
                    decreases ids.len() - k,
                {
                    let id = ids[k];
                    proof {
                        assert(before.dom().contains(id));
                        lemma_take_one_more(ids@, k as int);
                    }
                    self.data_store.push(id, share(&command));
                    k = k + 1;
                }
                proof {
                    assert(ids@.take(k as int) =~= ids@);
                }
                Dispatch::Wake(ids)
            },
            ThreadCommand::KILL(thread_id) => {
                let ghost before = self.data_store@[thread_id];
                self.data_store.push(thread_id, Arc::new(ThreadCommand::KILL(thread_id)));
                assert(self.data_store@[thread_id].drop_last() =~= before);
                let mut woken: Vec<u64> = Vec::new();
                woken.push(thread_id);
                Dispatch::Wake(woken)
            },
            ThreadCommand::SEND(receiver, command) => {
                if self.data_store.contains(receiver) {
                    self.data_store.push(receiver, share(&command));
                }
                Dispatch::Wake(Vec::new())
            },
            other => Dispatch::Unsupported(other),
        }
    }

    /// The next command for the thread `id`, taken from its queue; the thread
    /// gets an empty queue where it has none.
    pub fn next_command(&mut self, id: u64) -> (r: Option<Arc<ThreadCommand>>)
        requires
            old(self).wf(),
        ensures
            final(self).wf(),
            final(self).threads_view() == old(self).threads_view(),
            old(self).queues().dom().contains(id) && old(self).queues()[id].len() > 0 ==> {
                &&& r == Some(old(self).queues()[id][0])
                &&& final(self).queues() == old(self).queues().insert(id, old(self).queues()[id].drop_first())
            },
            !(old(self).queues().dom().contains(id) && old(self).queues()[id].len() > 0) ==> {
                &&& r is None
                &&& final(self).queues() == old(self).queues().insert(id, Seq::<Arc<ThreadCommand>>::empty())
            },
    {
        if !self.data_store.contains(id) {
            self.data_store.put(id, std::collections::VecDeque::new());
        }
        let ghost mid = self.data_store@;
        let r = self.data_store.pop(id);
        proof {
            if !(old(self).queues().dom().contains(id) && old(self).queues()[id].len() > 0) {
                if old(self).queues().dom().contains(id) {
                    assert(old(self).queues()[id] =~= Seq::<Arc<ThreadCommand>>::empty());
                }
                assert(old(self).queues().insert(id, Seq::<Arc<ThreadCommand>>::empty()) =~= mid);
            }
        }
        r
    }

    /// What a thread does with `command`: ends the process on an exit,
    /// reports data, stops on a kill, and stops on anything else.
    pub fn worker_action(command: &ThreadCommand) -> (r: WorkerAction)
        ensures
            match command {
                ThreadCommand::EXIT => r is Exit,
                ThreadCommand::DATA(sender, data) => r matches WorkerAction::Report { sender: s, data: d } && s == sender && d@ == data@,
                ThreadCommand::KILL(_) => r is Killed,
                _ => r is Unknown,
            },
    {
        match command {
            ThreadCommand::EXIT => WorkerAction::Exit,
            ThreadCommand::DATA(sender, data) => WorkerAction::Report { sender: *sender, data: data.clone() },
            ThreadCommand::KILL(_) => WorkerAction::Killed,
            _ => WorkerAction::Unknown,
        }
    }
}

} // verus!
