use vertic::gossip::{message_hash, IncomingOutcome, TopicNotification, ValidationResult};
use vertic::gossip_engine::{EngineAction, ForwardStep, GossipEngine, NetworkEvent, SinkStep};

const TOPIC: [u8; 32] = [3; 32];

fn engine() -> GossipEngine {
    GossipEngine::new(b"/vertic/gossip".to_vec())
}

#[test]
fn stream_events_register_full_peers_of_the_protocol() {
    let mut e = engine();
    let a = e.on_network_event(NetworkEvent::StreamOpened { remote: 1, protocol: b"/vertic/gossip".to_vec(), is_light: false });
    assert!(matches!(a, EngineAction::PeerConnected(1)));
    assert!(e.gossip().has_peer(1));
    let a = e.on_network_event(NetworkEvent::StreamOpened { remote: 2, protocol: b"/vertic/gossip".to_vec(), is_light: true });
    assert!(matches!(a, EngineAction::Nothing));
    assert!(!e.gossip().has_peer(2));
    let a = e.on_network_event(NetworkEvent::StreamOpened { remote: 3, protocol: b"/other".to_vec(), is_light: false });
    assert!(matches!(a, EngineAction::Nothing));
    let a = e.on_network_event(NetworkEvent::StreamClosed { remote: 1, protocol: b"/vertic/gossip".to_vec() });
    assert!(matches!(a, EngineAction::PeerLeaving(1)));
    e.peer_disconnected(1);
    assert!(!e.gossip().has_peer(1));
    assert!(matches!(e.on_network_event(NetworkEvent::SyncConnected(7)), EngineAction::AddReserved(7)));
    assert!(matches!(e.on_network_event(NetworkEvent::SyncDisconnected(7)), EngineAction::RemoveReserved(7)));
    assert!(matches!(e.on_network_event(NetworkEvent::Dht), EngineAction::Nothing));
}

#[test]
fn notifications_of_other_protocols_are_ignored() {
    let mut e = engine();
    let a = e.on_network_event(NetworkEvent::NotificationsReceived {
        remote: 4,
        messages: vec![(b"/vertic/gossip".to_vec(), vec![1]), (b"/other".to_vec(), vec![2]), (b"/vertic/gossip".to_vec(), vec![3])],
    });
    match a {
        EngineAction::Validate(who, ms) => {
            assert_eq!(who, 4);
            assert_eq!(ms, vec![vec![1], vec![3]]);
        }
        _ => panic!("expected messages to validate"),
    }
}

#[test]
fn forwarding_waits_for_slow_subscribers() {
    let mut e = engine();
    let (past, capacity) = e.messages_for(TOPIC, 10);
    assert!(past.is_empty());
    assert_eq!(capacity, 10);
    e.start_forwarding(vec![
        (TOPIC, TopicNotification { message: vec![1], sender: Some(4) }),
        ([9; 32], TopicNotification { message: vec![2], sender: Some(4) }),
    ]);
    let (topic, n, sinks) = match e.forward_next() {
        ForwardStep::Deliver(t, n, s) => (t, n, s),
        _ => panic!("expected a delivery"),
    };
    assert_eq!(topic, TOPIC);
    assert_eq!(sinks, vec![10]);
    // the subscriber is not ready: the notification waits in front
    assert!(matches!(e.on_sinks_polled(topic, n, true, &vec![]), SinkStep::Wait));
    let (topic, n, _) = match e.forward_next() {
        ForwardStep::Deliver(t, n, s) => (t, n, s),
        _ => panic!("expected the same delivery again"),
    };
    assert_eq!(n.message, vec![1]);
    match e.on_sinks_polled(topic, n, false, &vec![]) {
        SinkStep::Send(s) => assert_eq!(s, vec![10]),
        _ => panic!("expected a send"),
    }
    // no subscriber for the second topic
    assert!(matches!(e.forward_next(), ForwardStep::Dropped));
    assert!(matches!(e.forward_next(), ForwardStep::Idle));
}

#[test]
fn closed_subscribers_are_dropped() {
    let mut e = engine();
    e.messages_for(TOPIC, 1);
    e.messages_for(TOPIC, 2);
    e.messages_for([5; 32], 3);
    e.start_forwarding(vec![(TOPIC, TopicNotification { message: vec![1], sender: None })]);
    let (topic, n) = match e.forward_next() {
        ForwardStep::Deliver(t, n, _) => (t, n),
        _ => panic!("expected a delivery"),
    };
    match e.on_sinks_polled(topic, n, false, &vec![1]) {
        SinkStep::Send(s) => assert_eq!(s, vec![2]),
        _ => panic!("expected a send"),
    }
    e.drop_closed_sinks(&vec![2, 3]);
    e.start_forwarding(vec![]);
    assert!(matches!(e.forward_next(), ForwardStep::Idle));
    // the topic has no subscriber left: its messages are dropped
    e.start_forwarding(vec![(TOPIC, TopicNotification { message: vec![1], sender: None })]);
    assert!(matches!(e.forward_next(), ForwardStep::Dropped));
}

#[test]
fn past_messages_fill_new_subscriptions() {
    let mut e = engine();
    for i in 0..12u8 {
        e.register_gossip_message(TOPIC, vec![i]);
    }
    let (past, capacity) = e.messages_for(TOPIC, 1);
    assert_eq!(past.len(), 12);
    assert_eq!(capacity, 12);
}

#[test]
fn incoming_messages_go_through_the_gossip_state() {
    let mut e = engine();
    e.on_network_event(NetworkEvent::StreamOpened { remote: 1, protocol: b"/vertic/gossip".to_vec(), is_light: false });
    let h = message_hash(&vec![8]);
    assert!(!e.is_known(&h));
    let out = e.gossip_mut().on_validated(1, vec![8], h, ValidationResult::ProcessAndKeep(TOPIC));
    assert!(matches!(out, IncomingOutcome::Forward(t, _) if t == TOPIC));
    assert!(e.is_known(&h));
    let sent = e.send_message(&vec![1, 2], &vec![5]);
    assert_eq!(sent, vec![1]);
    assert!(e.gossip().peer_has(1, &message_hash(&vec![5])));
}
