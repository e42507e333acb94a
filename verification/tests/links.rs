use paxos_links::links::envelope::{Envelope, EnvelopeSet};
use paxos_links::links::monitoring::Monitoring;
use paxos_links::links::spec::fll::FairLossLink;
use paxos_links::links::spec::lpl::LoggedPerfectLink;
use paxos_links::links::spec::pl::PerfectLink;
use paxos_links::links::spec::sl::StubbornLink;
use paxos_links::links::Event;

fn env(sender: usize, receiver: usize, message: &str) -> Envelope {
    Envelope::new(sender, receiver, message.to_string())
}

#[test]
fn envelope_new_keeps_its_fields() {
    let e = env(1, 2, "hi");
    assert_eq!(e.sender, 1);
    assert_eq!(e.receiver, 2);
    assert_eq!(e.message, "hi");
    assert!(e == e.clone());
    assert!(e != env(1, 2, "ho"));
    assert!(e != env(2, 2, "hi"));
    let event = Event::Delivered(e.clone());
    match event {
        Event::Delivered(d) => assert!(d == e),
    }
}

#[test]
fn envelope_set_holds_each_envelope_once() {
    let mut set = EnvelopeSet::new();
    assert!(set.insert(env(0, 1, "a")));
    assert!(!set.insert(env(0, 1, "a")));
    assert!(set.insert(env(0, 1, "b")));
    assert!(set.contains(&env(0, 1, "b")));
    assert!(!set.contains(&env(1, 0, "b")));
    assert_eq!(set.to_vec().len(), 2);
}

#[test]
fn monitoring_counts_each_arrival_once() {
    let mut m = Monitoring::new();
    assert_eq!(m.delivered_count(), 0);
    m.record_send(env(0, 1, "a"));
    m.record_send(env(0, 1, "a"));
    m.record_send(env(0, 2, "a"));
    assert_eq!(m.delivered_count(), 0);
    m.record_deliver(env(0, 1, "a"));
    assert_eq!(m.delivered_count(), 1);
    m.record_deliver(env(0, 1, "a"));
    assert_eq!(m.delivered_count(), 1);
    m.record_send(env(0, 1, "a"));
    assert_eq!(m.delivered_count(), 1);
    m.record_deliver(env(0, 2, "a"));
    assert_eq!(m.delivered_count(), 2);
    let d = Monitoring::default();
    assert_eq!(d.delivered_count(), 0);
}

#[test]
fn fair_loss_link_delivers_unless_lost() {
    let mut fll = FairLossLink::new();
    fll.send(env(0, 1, "a"));
    fll.send(env(0, 2, "b"));
    assert_eq!(fll.delivered_count(), 0);
    fll.deliver_unless_lost(env(0, 1, "a"), true);
    assert_eq!(fll.delivered_count(), 0);
    fll.deliver_unless_lost(env(0, 1, "a"), false);
    assert_eq!(fll.delivered_count(), 1);
    fll.deliver_unless_lost(env(0, 2, "b"), false);
    assert_eq!(fll.delivered_count(), 2);
}

#[test]
fn fair_loss_link_loses_some_and_delivers_some() {
    let mut fll = FairLossLink::new();
    for i in 0..200usize {
        fll.send(Envelope::new(0, i, "hello!".to_string()));
    }
    let mut delivered = 0;
    for _ in 0..200 {
        if fll.deliver_next().is_some() {
            delivered += 1;
        }
    }
    assert!(fll.deliver_next().is_none());
    assert_eq!(fll.delivered_count(), delivered);
    assert!(delivered > 0);
    assert!(delivered < 200);
}

#[test]
fn fair_loss_link_delivers_about_half() {
    let mut fll = FairLossLink::new();
    for i in 1..=1000usize {
        fll.send(Envelope::new(0, i, "hello!".to_string()));
    }
    for _ in 0..1000 {
        fll.deliver_next();
    }
    let delivered = fll.delivered_count();
    assert!(delivered >= 400 && delivered <= 700);
}

#[test]
fn sl_test() {
    let mut sl = StubbornLink::new();
    for i in 0..100usize {
        sl.send(Envelope::new(0, i, format!("Hello {}", i)));
    }
    let mut rounds = 0;
    while sl.delivered_count() != 100 {
        while sl.deliver_next().is_some() {}
        for _ in 0..100 {
            sl.retransmit_next();
        }
        rounds += 1;
        assert!(rounds < 10_000);
    }
    assert_eq!(sl.delivered_count(), 100);
}

#[test]
fn stubborn_link_retransmits_in_turn() {
    let mut sl = StubbornLink::new();
    sl.retransmit_next();
    assert!(sl.deliver_next().is_none());
    sl.send(env(0, 1, "a"));
    sl.send(env(0, 1, "b"));
    let mut arrived: Vec<String> = Vec::new();
    let mut rounds = 0;
    while sl.delivered_count() < 2 {
        while let Some(e) = sl.deliver_next() {
            arrived.push(e.message.clone());
        }
        // Each retransmission hands the next kept envelope on once more.
        sl.retransmit_next();
        sl.retransmit_next();
        rounds += 1;
        assert!(rounds < 10_000);
    }
    assert_eq!(sl.delivered_count(), 2);
    assert!(arrived.contains(&"a".to_string()));
    assert!(arrived.contains(&"b".to_string()));
}

fn next_arrival(pl: &mut PerfectLink) -> Envelope {
    for _ in 0..10_000 {
        if let Some(e) = pl.deliver_next() {
            return e;
        }
        pl.retransmit_next();
    }
    panic!("nothing arrived");
}

#[test]
fn perfect_link_hands_up_each_envelope_once() {
    let mut pl = PerfectLink::new();
    pl.send(env(1, 2, "m"));
    let first = next_arrival(&mut pl);
    assert!(first == env(1, 2, "m"));
    let up = pl.on_delivered(first);
    assert!(up.map(|e| e == env(1, 2, "m")).unwrap_or(false));
    let again = next_arrival(&mut pl);
    assert!(pl.on_delivered(again).is_none());
    pl.send(env(2, 1, "m"));
    let mut handed_up = 0;
    let mut arrivals = 0;
    while handed_up == 0 || arrivals < 20 {
        let e = next_arrival(&mut pl);
        if pl.on_delivered(e).is_some() {
            handed_up += 1;
        }
        arrivals += 1;
        assert!(arrivals < 100_000);
    }
    assert_eq!(handed_up, 1);
}

#[test]
fn testpl() {
    let mut pl = PerfectLink::new();
    for i in 0..5 {
        pl.send(Envelope::new(1, 2, format!("Participant 1 sends message {i}")));
    }
    let mut handed_up = Vec::new();
    let mut rounds = 0;
    while handed_up.len() < 5 {
        while let Some(e) = pl.deliver_next() {
            if let Some(up) = pl.on_delivered(e) {
                handed_up.push(up.message.clone());
            }
        }
        for _ in 0..5 {
            pl.retransmit_next();
        }
        rounds += 1;
        assert!(rounds < 10_000);
    }
    for _ in 0..50 {
        pl.retransmit_next();
        while let Some(e) = pl.deliver_next() {
            assert!(pl.on_delivered(e).is_none());
        }
    }
    handed_up.sort();
    handed_up.dedup();
    assert_eq!(handed_up.len(), 5);
}

#[test]
fn lpl_test() {
    let mut lpl = LoggedPerfectLink::new();
    for i in 0..10usize {
        lpl.send(Envelope::new(0, i, format!("Hello {i}")));
    }
    let mut count = 0;
    let mut rounds = 0;
    while count < 10 {
        while let Some(e) = lpl.deliver_next() {
            if lpl.on_delivered(e).is_some() {
                count += 1;
            }
        }
        for _ in 0..10 {
            lpl.retransmit_next();
        }
        rounds += 1;
        assert!(rounds < 10_000);
    }
    assert_eq!(lpl.delivered_envelopes().len(), 10);
}

#[test]
fn logged_link_restart_hands_up_nothing_again() {
    let mut lpl = LoggedPerfectLink::new();
    assert!(lpl.on_delivered(env(0, 1, "a")).is_some());
    assert!(lpl.on_delivered(env(0, 2, "b")).is_some());
    let log = lpl.delivered_envelopes();
    assert_eq!(log.len(), 2);
    let mut restarted = LoggedPerfectLink::new();
    restarted.restore(log);
    assert!(restarted.on_delivered(env(0, 1, "a")).is_none());
    assert!(restarted.on_delivered(env(0, 2, "b")).is_none());
    assert!(restarted.on_delivered(env(0, 3, "c")).is_some());
    let mut dup = LoggedPerfectLink::new();
    dup.restore(vec![env(0, 1, "a"), env(0, 1, "a")]);
    assert_eq!(dup.delivered_envelopes().len(), 1);
}
