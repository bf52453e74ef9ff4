use vertic::gossip::{
    message_hash, propagation_intent, ConsensusGossip, IncomingCheck, IncomingOutcome, MessageIntent, PeerAllowance,
    ValidationResult,
};

const TOPIC: [u8; 32] = [7; 32];
const OTHER: [u8; 32] = [8; 32];

#[test]
fn registered_message_is_kept_once() {
    let mut g = ConsensusGossip::new();
    g.register_message(TOPIC, vec![1, 2, 3]);
    g.register_message(TOPIC, vec![1, 2, 3]);
    assert_eq!(g.messages().len(), 1);
    assert!(g.is_known(&message_hash(&vec![1, 2, 3])));
    assert!(!g.is_known(&message_hash(&vec![4])));
}

#[test]
fn message_hash_is_blake2_256() {
    let h = message_hash(&vec![]);
    let expected: [u8; 32] = [
        0x0e, 0x57, 0x51, 0xc0, 0x26, 0xe5, 0x43, 0xb2, 0xe8, 0xab, 0x2e, 0xb0, 0x60, 0x99, 0xda, 0xa1,
        0xd1, 0xe5, 0xdf, 0x47, 0x77, 0x8f, 0x77, 0x87, 0xfa, 0xab, 0x45, 0xcd, 0xf1, 0x2f, 0xe3, 0xa8,
    ];
    assert_eq!(h, expected);
}

#[test]
fn messages_for_topic() {
    let mut g = ConsensusGossip::new();
    g.register_message(TOPIC, vec![1]);
    g.register_message(OTHER, vec![2]);
    g.register_message(TOPIC, vec![3]);
    let m = g.messages_for(&TOPIC);
    assert_eq!(m.len(), 2);
    assert_eq!(m[0].message, vec![1]);
    assert_eq!(m[1].message, vec![3]);
    assert_eq!(m[0].sender, None);
}

#[test]
fn incoming_message_from_peer_is_forwarded_and_kept() {
    let mut g = ConsensusGossip::new();
    g.new_peer(5, false);
    let msg = vec![9, 9];
    let h = message_hash(&msg);
    match g.on_validated(5, msg.clone(), h, ValidationResult::ProcessAndKeep(TOPIC)) {
        IncomingOutcome::Forward(t, n) => {
            assert_eq!(t, TOPIC);
            assert_eq!(n.message, msg);
            assert_eq!(n.sender, Some(5));
        },
        other => panic!("unexpected {:?}", other),
    }
    assert!(g.peer_has(5, &h));
    assert!(g.is_known(&h));
    assert_eq!(g.messages().len(), 1);
    assert_eq!(g.messages()[0].sender, Some(5));
}

#[test]
fn incoming_message_discarded_or_from_unknown_peer() {
    let mut g = ConsensusGossip::new();
    g.new_peer(5, false);
    g.new_peer(6, true);
    let msg = vec![1];
    let h = message_hash(&msg);
    assert!(matches!(g.on_validated(5, msg.clone(), h, ValidationResult::Discard), IncomingOutcome::Discarded));
    assert!(matches!(
        g.on_validated(6, msg.clone(), h, ValidationResult::ProcessAndKeep(TOPIC)),
        IncomingOutcome::UnregisteredPeer
    ));
    assert!(matches!(
        g.on_validated(5, msg.clone(), h, ValidationResult::ProcessAndDiscard(TOPIC)),
        IncomingOutcome::Forward(_, _)
    ));
    assert!(g.messages().is_empty());
    assert!(!g.is_known(&h));
    assert!(g.peer_has(5, &h));
}

#[test]
fn garbage_collection_drops_expired_messages() {
    let mut g = ConsensusGossip::new();
    g.new_peer(1, false);
    g.register_message(TOPIC, vec![1]);
    g.register_message(TOPIC, vec![2]);
    g.register_message(TOPIC, vec![3]);
    g.mark_known(1, message_hash(&vec![2]));
    g.mark_known(1, [42; 32]);
    let dropped = g.collect_garbage(&vec![false, true, false]);
    assert_eq!(dropped, 1);
    assert_eq!(g.messages().len(), 2);
    assert_eq!(g.messages()[0].message, vec![1]);
    assert_eq!(g.messages()[1].message, vec![3]);
    assert!(g.peer_has(1, &message_hash(&vec![2])));
    assert!(!g.peer_has(1, &[42; 32]));
}

#[test]
fn direct_message_marks_peer() {
    let mut g = ConsensusGossip::new();
    g.new_peer(1, false);
    assert!(g.send_message(1, &vec![4]));
    assert!(g.peer_has(1, &message_hash(&vec![4])));
    assert!(!g.send_message(2, &vec![4]));
    g.peer_disconnected(1);
    assert!(!g.peer_has(1, &message_hash(&vec![4])));
}

#[test]
fn propagation_intents() {
    assert_eq!(propagation_intent(MessageIntent::Broadcast, true), None);
    assert_eq!(propagation_intent(MessageIntent::Broadcast, false), Some(MessageIntent::Broadcast));
    assert_eq!(propagation_intent(MessageIntent::PeriodicRebroadcast, true), Some(MessageIntent::PeriodicRebroadcast));
    assert_eq!(propagation_intent(MessageIntent::PeriodicRebroadcast, false), Some(MessageIntent::Broadcast));
    assert_eq!(propagation_intent(MessageIntent::ForcedBroadcast, true), Some(MessageIntent::ForcedBroadcast));
}

fn allow_all(g: &ConsensusGossip, n: usize) -> Vec<PeerAllowance> {
    let mut peers = g.peers();
    peers.sort();
    peers
        .into_iter()
        .map(|p| PeerAllowance { peer: p, allowed: vec![true; n], allowed_again: vec![true; n] })
        .collect()
}

#[test]
fn send_topic_skips_known_unless_forced() {
    let mut g = ConsensusGossip::new();
    g.new_peer(1, false);
    g.register_message(TOPIC, vec![1]);
    g.register_message(OTHER, vec![2]);
    g.register_message(TOPIC, vec![3]);
    g.mark_known(1, message_hash(&vec![1]));
    let sent = g.send_topic(1, TOPIC, false, &vec![true, true]);
    assert_eq!(sent, vec![vec![3]]);
    assert!(g.peer_has(1, &message_hash(&vec![3])));
    // everything under the topic is known now
    assert!(g.send_topic(1, TOPIC, false, &vec![true, true]).is_empty());
    // forced, the validator decides alone
    assert_eq!(g.send_topic(1, TOPIC, true, &vec![false, true]), vec![vec![3]]);
    // unregistered peers get nothing
    assert!(g.send_topic(9, TOPIC, true, &vec![true, true]).is_empty());
}

#[test]
fn broadcast_topic_reaches_every_peer_once() {
    let mut g = ConsensusGossip::new();
    g.new_peer(1, false);
    g.new_peer(2, false);
    g.register_message(TOPIC, vec![5]);
    g.mark_known(2, message_hash(&vec![5]));
    let ds = allow_all(&g, 1);
    let sent = g.broadcast_topic(TOPIC, false, &ds);
    assert_eq!(sent, vec![(1, vec![5])]);
    assert!(g.peer_has(1, &message_hash(&vec![5])));
    let ds = allow_all(&g, 1);
    assert!(g.broadcast_topic(TOPIC, false, &ds).is_empty());
    let ds = allow_all(&g, 1);
    assert_eq!(g.broadcast_topic(TOPIC, true, &ds), vec![(1, vec![5]), (2, vec![5])]);
}

#[test]
fn rebroadcast_asks_again_for_known_messages() {
    let mut g = ConsensusGossip::new();
    g.new_peer(1, false);
    g.new_peer(2, false);
    g.register_message(TOPIC, vec![6]);
    g.mark_known(1, message_hash(&vec![6]));
    // peer 1 knows the message: the rebroadcast answer counts, and says no
    let ds = vec![
        PeerAllowance { peer: 1, allowed: vec![true], allowed_again: vec![false] },
        PeerAllowance { peer: 2, allowed: vec![true], allowed_again: vec![false] },
    ];
    assert_eq!(g.rebroadcast(&ds), vec![(2, vec![6])]);
    let ds = vec![
        PeerAllowance { peer: 2, allowed: vec![false], allowed_again: vec![true] },
        PeerAllowance { peer: 1, allowed: vec![false], allowed_again: vec![true] },
    ];
    assert_eq!(g.rebroadcast(&ds), vec![(2, vec![6]), (1, vec![6])]);
}

#[test]
fn multicast_keeps_and_sends() {
    let mut g = ConsensusGossip::new();
    g.new_peer(3, false);
    g.new_peer(4, true);
    let ds = allow_all(&g, 1);
    let sent = g.multicast(TOPIC, vec![9, 9], false, &ds);
    assert_eq!(sent, vec![(3, vec![9, 9])]);
    assert_eq!(g.messages().len(), 1);
    assert!(g.is_known(&message_hash(&vec![9, 9])));
    let ds = allow_all(&g, 1);
    assert!(g.multicast(TOPIC, vec![9, 9], false, &ds).is_empty());
    assert_eq!(g.messages().len(), 1);
}

#[test]
fn incoming_known_message_is_a_duplicate() {
    let mut g = ConsensusGossip::new();
    let h = message_hash(&vec![5, 6]);
    assert!(matches!(g.check_incoming(&vec![5, 6]), IncomingCheck::Validate(x) if x == h));
    g.register_message(TOPIC, vec![5, 6]);
    assert!(matches!(g.check_incoming(&vec![5, 6]), IncomingCheck::Duplicate));
    assert!(matches!(g.check_incoming(&vec![5]), IncomingCheck::Validate(_)));
}

#[test]
fn registering_twice_changes_nothing() {
    let mut g = ConsensusGossip::new();
    g.register_message(TOPIC, vec![1]);
    g.register_message(OTHER, vec![2]);
    g.register_message(TOPIC, vec![1]);
    assert_eq!(g.messages().len(), 2);
    g.register_message(OTHER, vec![1]);
    assert_eq!(g.messages().len(), 2);
    assert_eq!(g.messages()[0].topic, TOPIC);
}

#[test]
fn reputation_changes_for_incoming_messages() {
    assert_eq!(IncomingCheck::Duplicate.reputation_change(), Some(-4));
    assert_eq!(IncomingCheck::Validate([1; 32]).reputation_change(), None);
    let mut g = ConsensusGossip::new();
    g.new_peer(3, false);
    let forwarded = g.on_validated(3, vec![9], message_hash(&vec![9]), ValidationResult::ProcessAndKeep(TOPIC));
    assert_eq!(forwarded.reputation_change(), Some(16));
    let dropped = g.on_validated(3, vec![8], message_hash(&vec![8]), ValidationResult::Discard);
    assert_eq!(dropped.reputation_change(), None);
    let stranger = g.on_validated(4, vec![7], message_hash(&vec![7]), ValidationResult::ProcessAndKeep(TOPIC));
    assert_eq!(stranger.reputation_change(), None);
}
