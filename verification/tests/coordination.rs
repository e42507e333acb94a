use paxos_links::coordination::coordinator::{Coordinator, Unroutable};
use paxos_links::coordination::messages::Message;
use paxos_links::models::thread_command::ThreadCommand;
use paxos_links::protocol::paxos::{Paxos, PaxosCommand, PaxosRole};
use paxos_links::protocol::Protocol;
use paxos_links::services::thread_manager::{Dispatch, ThreadManager, WorkerAction};
use std::collections::VecDeque;
use std::sync::Arc;

fn prepare(n: u64) -> PaxosCommand {
    PaxosCommand::Prepare { proposal: n }
}

#[test]
fn coordinator_routes_oneshot_to_its_receiver() {
    let mut c = Coordinator::<PaxosCommand>::new();
    c.register(7);
    c.return_queue(7, VecDeque::new());
    let woken = c.send(Message::Oneshot { sender_id: 1, receiver_id: 7, data: prepare(3) }, 1);
    assert_eq!(woken, vec![7]);
    let q = c.take_queue(7);
    assert_eq!(q.len(), 1);
    assert!(matches!(q[0], Message::Oneshot { sender_id: 1, receiver_id: 7, data: PaxosCommand::Prepare { proposal: 3 } }));
    assert_eq!(c.take_queue(7).len(), 0);
}

#[test]
fn coordinator_broadcasts_to_all_but_the_sender() {
    let mut c = Coordinator::<PaxosCommand>::new();
    for id in [1u64, 2, 3] {
        c.register(id);
        c.return_queue(id, VecDeque::new());
    }
    c.register(4);
    let woken = c.send(Message::Broadcast { sender_id: 0, data: prepare(2) }, 2);
    assert_eq!(woken, vec![1, 2, 3, 4]);
    let q1 = c.take_queue(1);
    assert_eq!(q1.len(), 1);
    assert!(matches!(q1[0], Message::Oneshot { sender_id: 2, receiver_id: 1, data: PaxosCommand::Prepare { proposal: 2 } }));
    assert_eq!(c.take_queue(2).len(), 0);
    let q3 = c.take_queue(3);
    assert!(matches!(q3[0], Message::Oneshot { sender_id: 2, receiver_id: 3, .. }));
    assert_eq!(c.take_queue(4).len(), 0);
    assert!(c.send(Message::Empty, 0).is_empty());
}

#[test]
fn coordinator_registers_each_worker_once() {
    let mut c = Coordinator::<PaxosCommand>::new();
    c.register(5);
    c.register(5);
    let woken = c.send(Message::Broadcast { sender_id: 0, data: prepare(1) }, 0);
    assert_eq!(woken, vec![5]);
}

#[test]
fn worker_turn_with_paxos_empties_its_queue() {
    let mut c = Coordinator::<PaxosCommand>::new();
    c.register(1);
    c.register(2);
    c.return_queue(1, VecDeque::new());
    c.return_queue(2, VecDeque::new());
    c.send(Message::Broadcast { sender_id: 0, data: prepare(2) }, 0);
    let paxos = Paxos::new();
    let woken = c.run_worker(&paxos, 1);
    assert!(matches!(woken, Ok(ref w) if w.is_empty()));
    assert_eq!(c.take_queue(1).len(), 0);
    assert_eq!(c.take_queue(2).len(), 1);
}

struct Echo;

impl Protocol<u64> for Echo {
    fn new() -> Self {
        Echo
    }

    fn act(&self, command: Message<u64>) -> Message<u64> {
        match command {
            Message::Oneshot { sender_id, data, .. } => Message::Oneshot { sender_id: 0, receiver_id: sender_id, data },
            _ => Message::Empty,
        }
    }
}

#[test]
fn worker_turn_stops_on_a_missing_receiver() {
    let mut c = Coordinator::<u64>::new();
    c.register(1);
    c.register(2);
    c.return_queue(1, VecDeque::new());
    c.return_queue(2, VecDeque::new());
    c.send(Message::Oneshot { sender_id: 2, receiver_id: 1, data: 9 }, 2);
    assert!(matches!(c.run_worker(&Echo::new(), 1), Ok(ref w) if *w == vec![2]));
    let q2 = c.take_queue(2);
    assert!(matches!(q2[0], Message::Oneshot { sender_id: 0, receiver_id: 2, data: 9 }));
    c.send(Message::Oneshot { sender_id: 5, receiver_id: 1, data: 4 }, 5);
    match c.run_worker(&Echo::new(), 1) {
        Err(e) => {
            assert!(matches!(e.cause, Unroutable::NoQueue(5)));
            assert!(e.woken.is_empty());
        },
        Ok(_) => panic!("the reply has no receiver"),
    }
}

#[test]
fn worker_turn_queues_for_an_unregistered_receiver_then_stops() {
    let mut c = Coordinator::<u64>::new();
    c.register(1);
    c.return_queue(1, VecDeque::new());
    c.return_queue(3, VecDeque::new());
    c.send(Message::Oneshot { sender_id: 3, receiver_id: 1, data: 7 }, 3);
    c.send(Message::Oneshot { sender_id: 3, receiver_id: 1, data: 8 }, 3);
    match c.run_worker(&Echo::new(), 1) {
        Err(e) => {
            assert!(matches!(e.cause, Unroutable::Unregistered(3)));
            assert!(e.woken.is_empty());
        },
        Ok(_) => panic!("the receiver is not registered"),
    }
    let q3 = c.take_queue(3);
    assert_eq!(q3.len(), 1);
    assert!(matches!(q3[0], Message::Oneshot { sender_id: 0, receiver_id: 3, data: 7 }));
    assert!(c.take_queue(1).is_empty());
}

#[test]
fn paxos_answers_nothing_and_logs_senders() {
    let p = Paxos::new();
    assert!(matches!(p.act(Message::Broadcast { sender_id: 3, data: prepare(2) }), Message::Empty));
    assert!(matches!(p.act(Message::Empty), Message::Empty));
    let m = Message::Oneshot {
        sender_id: 4,
        receiver_id: 5,
        data: PaxosCommand::Accept { proposal: 1, data: "v".to_string() },
    };
    assert!(matches!(Paxos::logged(&m), Some((4, PaxosCommand::Accept { proposal: 1, .. }))));
    assert!(Paxos::logged(&Message::Empty).is_none());
    let _roles = [PaxosRole::Proposer, PaxosRole::Acceptor, PaxosRole::Learner];
}

#[test]
fn thread_manager_routes_commands() {
    let mut tm = ThreadManager::new();
    tm.add_thread(1);
    tm.add_thread(2);
    assert!(tm.next_command(1).is_none());
    assert!(tm.next_command(2).is_none());
    match tm.send(ThreadCommand::SEND(2, Arc::new(ThreadCommand::DATA(1, "x".to_string())))) {
        Dispatch::Wake(w) => assert!(w.is_empty()),
        Dispatch::Unsupported(_) => panic!("send is supported"),
    }
    match tm.send(ThreadCommand::BROADCAST(Arc::new(ThreadCommand::EXIT))) {
        Dispatch::Wake(mut w) => {
            w.sort();
            assert_eq!(w, vec![1, 2]);
        },
        Dispatch::Unsupported(_) => panic!("broadcast is supported"),
    }
    match tm.send(ThreadCommand::KILL(1)) {
        Dispatch::Wake(w) => assert_eq!(w, vec![1]),
        Dispatch::Unsupported(_) => panic!("kill is supported"),
    }
    assert!(matches!(tm.send(ThreadCommand::EXIT), Dispatch::Unsupported(ThreadCommand::EXIT)));
    let c = tm.next_command(2).unwrap();
    assert!(matches!(ThreadManager::worker_action(&c), WorkerAction::Report { sender: 1, .. }));
    let c = tm.next_command(2).unwrap();
    assert!(matches!(ThreadManager::worker_action(&c), WorkerAction::Exit));
    assert!(tm.next_command(2).is_none());
    assert!(matches!(ThreadManager::worker_action(&tm.next_command(1).unwrap()), WorkerAction::Exit));
    assert!(matches!(ThreadManager::worker_action(&tm.next_command(1).unwrap()), WorkerAction::Killed));
    assert!(tm.next_command(1).is_none());
    assert!(tm.next_command(3).is_none());
    match tm.send(ThreadCommand::SEND(9, Arc::new(ThreadCommand::EXIT))) {
        Dispatch::Wake(w) => assert!(w.is_empty()),
        Dispatch::Unsupported(_) => panic!("send is supported"),
    }
    let bc = ThreadCommand::BROADCAST(Arc::new(ThreadCommand::EXIT));
    assert!(matches!(ThreadManager::worker_action(&bc), WorkerAction::Unknown));
}
