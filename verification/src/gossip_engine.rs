//! The gossip engine's decisions: what each network event does to the
//! gossip state, and how validated messages are forwarded to the
//! subscribers of their topic, one at a time, waiting while a subscriber
//! is not ready.
//!
//! The network, the validator, the subscribers' channels and the timer of
//! periodic maintenance stay with the caller. Subscribers are known here
//! by an id the caller gives each channel.

use vstd::prelude::*;
use crate::accounts::KeyMap;
use crate::state_db::bytes_eq;
use crate::gossip::{ConsensusGossip, GossipView, MessageView, TopicNotification, messages_under};

verus! {

/// An event of the network, as far as gossiping is concerned.
#[derive(Debug)]
pub enum NetworkEvent {
    /// A peer connected for syncing.
    SyncConnected(u64),
    /// A peer disconnected from syncing.
    SyncDisconnected(u64),
    /// A peer opened a notification stream on a protocol; light peers are
    /// not gossiped with.
    StreamOpened { remote: u64, protocol: Vec<u8>, is_light: bool },
    /// A peer closed a notification stream on a protocol.
    StreamClosed { remote: u64, protocol: Vec<u8> },
    /// A peer sent notifications, each on a protocol.
    NotificationsReceived { remote: u64, messages: Vec<(Vec<u8>, Vec<u8>)> },
    /// Something of the DHT; of no concern here.
    Dht,
}

/// What the caller does after a network event.
#[derive(Debug)]
pub enum EngineAction {
    /// Nothing.
    Nothing,
    /// Add the peer to the reserved peers of the gossip protocol.
    AddReserved(u64),
    /// Remove the peer from the reserved peers of the gossip protocol.
    RemoveReserved(u64),
    /// The peer was registered: tell the validator of the new peer.
    PeerConnected(u64),
    /// Tell the validator the peer left, then stop tracking it
    /// (`peer_disconnected`).
    PeerLeaving(u64),
    /// Check the messages (those of the gossip protocol, in order) that the
    /// peer sent, then forward what came of them (`start_forwarding`).
    Validate(u64, Vec<Vec<u8>>),
}

/// The messages of one protocol among notifications, in order.
pub open spec fn of_protocol(messages: Seq<(Seq<u8>, Seq<u8>)>, protocol: Seq<u8>) -> Seq<Seq<u8>>
    decreases messages.len(),
{
    if messages.len() == 0 {
        Seq::empty()
    } else {
        let prev = of_protocol(messages.drop_last(), protocol);
        if messages.last().0 == protocol {
            prev.push(messages.last().1)
        } else {
            prev
        }
    }
}

/// The subscribers left once those closed are dropped.
pub open spec fn open_sinks(sinks: Seq<u64>, closed: Seq<u64>) -> Seq<u64>
    decreases sinks.len(),
{
    if sinks.len() == 0 {
        Seq::empty()
    } else {
        let prev = open_sinks(sinks.drop_last(), closed);
        if closed.contains(sinks.last()) {
            prev
        } else {
            prev.push(sinks.last())
        }
    }
}

/// A notification waiting to be forwarded, as values.
pub type Pending = ([u8; 32], Seq<u8>, Option<u64>);

/// The engine as values.
pub struct EngineView {
    /// The gossip state.
    pub gossip: GossipView,
    /// The name of the gossip protocol.
    pub protocol: Seq<u8>,
    /// The subscribers of each topic.
    pub sinks: Map<[u8; 32], Seq<u64>>,
    /// The notifications waiting to be forwarded, when forwarding; `None`
    /// when idle, listening to the network.
    pub forwarding: Option<Seq<Pending>>,
}

/// A gossip engine: the gossip state, the subscribers of each topic, and
/// the notifications waiting to be forwarded.
pub struct GossipEngine {
    state: ConsensusGossip,
    protocol: Vec<u8>,
    sinks: KeyMap<Vec<u64>>,
    busy: bool,
    queue: Vec<([u8; 32], TopicNotification)>,
}

/// A waiting notification as values.
pub open spec fn pending_view(p: ([u8; 32], TopicNotification)) -> Pending {
    (p.0, p.1.message@, p.1.sender)
}

impl View for GossipEngine {
    type V = EngineView;

    closed spec fn view(&self) -> EngineView {
        EngineView {
            gossip: self.state@,
            protocol: self.protocol@,
            sinks: self.sinks@.map_values(|v: Vec<u64>| v@),
            forwarding: if self.busy { Some(self.queue@.map_values(|p: ([u8; 32], TopicNotification)| pending_view(p))) } else { None },
        }
    }
}

/// The engine once the first waiting notification is taken out.
pub open spec fn after_pop(v: EngineView) -> EngineView {
    let q = v.forwarding->0;
    EngineView { forwarding: Some(q.subrange(1, q.len() as int)), ..v }
}

/// The engine once a notification is put back in front of those waiting.
pub open spec fn after_wait(v: EngineView, p: Pending) -> EngineView {
    EngineView { forwarding: Some(seq![p] + v.forwarding->0), ..v }
}

/// A notification taken out for forwarding and put back because a
/// subscriber was not ready leaves the waiting notifications as they were:
/// nothing is lost or reordered while subscribers are slow.
pub proof fn lemma_wait_restores_queue(v: EngineView)
    requires
        v.forwarding is Some,
        v.forwarding->0.len() > 0,
    ensures
        after_wait(after_pop(v), v.forwarding->0[0]) == v,
{
    let q = v.forwarding->0;
    assert(seq![q[0]] + q.subrange(1, q.len() as int) =~= q);
}

/// What forwarding the next waiting notification comes to.
#[derive(Debug)]
pub enum ForwardStep {
    /// Nothing was waiting: the engine is idle again.
    Idle,
    /// The topic has no subscriber: the notification is dropped.
    Dropped,
    /// Poll the readiness of these subscribers of the topic, then hand the
    /// notification back (`on_sinks_polled`).
    Deliver([u8; 32], TopicNotification, Vec<u64>),
}

/// What comes of a notification once its topic's subscribers were polled.
#[derive(Debug)]
pub enum SinkStep {
    /// A subscriber is not ready: the notification waits at the front, and
    /// forwarding pauses.
    Wait,
    /// Every subscriber of the topic was closed: the topic is forgotten.
    Emptied,
    /// Send the notification to these subscribers.
    Send(Vec<u64>),
}

impl GossipEngine {
    /// An engine for the gossip protocol `protocol`: no peers, no messages,
    /// no subscribers, idle.
    pub fn new(protocol: Vec<u8>) -> (r: Self)
        ensures
            r@.protocol == protocol@,
            r@.gossip.peers == Map::<u64, Set<[u8; 32]>>::empty(),
            r@.gossip.messages == Seq::<MessageView>::empty(),
            r@.gossip.known == Seq::<[u8; 32]>::empty(),
            r@.gossip.wf(),
            r@.sinks == Map::<[u8; 32], Seq<u64>>::empty(),
            r@.forwarding is None,
    {
        let r = GossipEngine { state: ConsensusGossip::new(), protocol, sinks: KeyMap::new(), busy: false, queue: Vec::new() };
        assert(r@.sinks =~= Map::<[u8; 32], Seq<u64>>::empty());
        r
    }

    /// The gossip state.
    pub fn gossip(&self) -> (r: &ConsensusGossip)
        ensures
            r@ == self@.gossip,
    {
        &self.state
    }

    /// The gossip state, to change in place; the rest of the engine is
    /// left as it is.
    pub fn gossip_mut(&mut self) -> (r: &mut ConsensusGossip)
        ensures
            r@ == old(self)@.gossip,
            final(self)@ == (EngineView { gossip: final(r)@, ..old(self)@ }),
    {
        &mut self.state
    }

    /// Whether notifications are being forwarded (the network is not
    /// listened to meanwhile).
    pub fn is_forwarding(&self) -> (r: bool)
        ensures
            r == self@.forwarding is Some,
    {
        self.busy
    }

    /// Keeps a message for gossiping without sending it, as
    /// `ConsensusGossip::register_message` does.
    pub fn register_gossip_message(&mut self, topic: [u8; 32], message: Vec<u8>)
        requires
            old(self)@.gossip.wf(),
        ensures
            exists|h: [u8; 32]| h@ == crate::accounts::blake2b_256(message@)
                && final(self)@ == (EngineView { gossip: #[trigger] old(self)@.gossip.register(h, topic, message@, None), ..old(self)@ }),
            final(self)@.gossip.wf(),
    {
        let ghost m = message@;
        self.state.register_message(topic, message);
        proof {
            let h = choose|h: [u8; 32]| h@ == crate::accounts::blake2b_256(m)
                && self.state@ == old(self).state@.register(h, topic, m, None);
            assert(self@ == (EngineView { gossip: old(self)@.gossip.register(h, topic, m, None), ..old(self)@ }));
        }
    }

    /// Decides what a network event does while the engine is idle: a
    /// stream of the gossip protocol opened by a full peer registers it; a
    /// closed stream of the protocol has the peer leave; notifications
    /// bring the messages of the protocol to check; events of other
    /// protocols change nothing.
    pub fn on_network_event(&mut self, event: NetworkEvent) -> (r: EngineAction)
        requires
            old(self)@.forwarding is None,
        ensures
            match event {
                NetworkEvent::SyncConnected(p) => r matches EngineAction::AddReserved(q) && q == p && final(self)@ == old(self)@,
                NetworkEvent::SyncDisconnected(p) => r matches EngineAction::RemoveReserved(q) && q == p && final(self)@ == old(self)@,
                NetworkEvent::StreamOpened { remote, protocol, is_light } =>
                    if protocol@ != old(self)@.protocol || is_light {
                        r is Nothing && final(self)@ == old(self)@
                    } else {
                        &&& r matches EngineAction::PeerConnected(q) && q == remote
                        &&& final(self)@ == (EngineView {
                            gossip: GossipView { peers: old(self)@.gossip.peers.insert(remote, Set::empty()), ..old(self)@.gossip },
                            ..old(self)@
                        })
                    },
                NetworkEvent::StreamClosed { remote, protocol } =>
                    final(self)@ == old(self)@ && (if protocol@ != old(self)@.protocol {
                        r is Nothing
                    } else {
                        r matches EngineAction::PeerLeaving(q) && q == remote
                    }),
                NetworkEvent::NotificationsReceived { remote, messages } =>
                    final(self)@ == old(self)@ && (r matches EngineAction::Validate(q, ms) && q == remote
                        && ms@.map_values(|m: Vec<u8>| m@) == of_protocol(
                            messages@.map_values(|x: (Vec<u8>, Vec<u8>)| (x.0@, x.1@)), old(self)@.protocol)),
                NetworkEvent::Dht => r is Nothing && final(self)@ == old(self)@,
            },
    {
        match event {
            NetworkEvent::SyncConnected(p) => EngineAction::AddReserved(p),
            NetworkEvent::SyncDisconnected(p) => EngineAction::RemoveReserved(p),
            NetworkEvent::StreamOpened { remote, protocol, is_light } => {
                if !bytes_eq(protocol.as_slice(), self.protocol.as_slice()) || is_light {
                    return EngineAction::Nothing;
                }
                self.state.new_peer(remote, false);
                EngineAction::PeerConnected(remote)
            },
            NetworkEvent::StreamClosed { remote, protocol } => {
                if !bytes_eq(protocol.as_slice(), self.protocol.as_slice()) {
                    return EngineAction::Nothing;
                }
                EngineAction::PeerLeaving(remote)
            },
            NetworkEvent::NotificationsReceived { remote, messages } => {
                let ghost all = messages@.map_values(|x: (Vec<u8>, Vec<u8>)| (x.0@, x.1@));
                let mut out: Vec<Vec<u8>> = Vec::new();
                let mut i: usize = 0;
                assert(all.take(0) =~= Seq::<(Seq<u8>, Seq<u8>)>::empty());
                assert(out@.map_values(|m: Vec<u8>| m@) =~= Seq::<Seq<u8>>::empty());
                while i < messages.len()
                    invariant
                        all == messages@.map_values(|x: (Vec<u8>, Vec<u8>)| (x.0@, x.1@)),
                        i <= messages@.len(),
                        out@.map_values(|m: Vec<u8>| m@) == of_protocol(all.take(i as int), self@.protocol),
                    decreases messages@.len() - i,
                {
                    assert(all.take(i as int + 1).drop_last() =~= all.take(i as int));
                    assert(all.take(i as int + 1).last() == (messages@[i as int].0@, messages@[i as int].1@));
                    if bytes_eq(messages[i].0.as_slice(), self.protocol.as_slice()) {
                        let ghost before = out@;
                        out.push(messages[i].1.clone());
                        assert(out@.map_values(|m: Vec<u8>| m@) =~= before.map_values(|m: Vec<u8>| m@).push(messages@[i as int].1@));
                    }
                    i = i + 1;
                }
                assert(all.take(messages@.len() as int) =~= all);
                EngineAction::Validate(remote, out)
            },
            NetworkEvent::Dht => EngineAction::Nothing,
        }
    }

    /// Stops tracking a peer, once the validator was told it left.
    pub fn peer_disconnected(&mut self, who: u64)
        ensures
            final(self)@ == (EngineView {
                gossip: GossipView { peers: old(self)@.gossip.peers.remove(who), ..old(self)@.gossip },
                ..old(self)@
            }),
    {
        self.state.peer_disconnected(who);
    }

    /// Whether a message hash was seen recently.
    pub fn is_known(&self, hash: &[u8; 32]) -> (r: bool)
        ensures
            r == self@.gossip.known.contains(*hash),
    {
        self.state.is_known(hash)
    }

    /// Starts forwarding the notifications that the checked messages gave,
    /// in order.
    pub fn start_forwarding(&mut self, to_forward: Vec<([u8; 32], TopicNotification)>)
        requires
            old(self)@.forwarding is None,
        ensures
            final(self)@ == (EngineView {
                forwarding: Some(to_forward@.map_values(|p: ([u8; 32], TopicNotification)| pending_view(p))),
                ..old(self)@
            }),
    {
        self.queue = to_forward;
        self.busy = true;
    }

    /// Takes the next waiting notification: with none left the engine is
    /// idle again; one whose topic has no subscriber is dropped; otherwise
    /// it is handed out with the topic's subscribers, to poll.
    pub fn forward_next(&mut self) -> (r: ForwardStep)
        requires
            old(self)@.forwarding is Some,
        ensures
            ({
                let q = old(self)@.forwarding->0;
                if q.len() == 0 {
                    r is Idle && final(self)@ == (EngineView { forwarding: None, ..old(self)@ })
                } else {
                    let (topic, message, sender) = q[0];
                    let rest = after_pop(old(self)@);
                    if !old(self)@.sinks.contains_key(topic) {
                        r is Dropped && final(self)@ == rest
                    } else {
                        &&& r matches ForwardStep::Deliver(t, n, s) && t == topic && n.message@ == message
                            && n.sender == sender && s@ == old(self)@.sinks[topic]
                        &&& final(self)@ == rest
                    }
                }
            }),
    {
        if self.queue.len() == 0 {
            self.busy = false;
            return ForwardStep::Idle;
        }
        let ghost q = self.queue@;
        let (topic, notification) = self.queue.remove(0);
        assert(self.queue@.map_values(|p: ([u8; 32], TopicNotification)| pending_view(p))
            =~= q.map_values(|p: ([u8; 32], TopicNotification)| pending_view(p)).subrange(1, q.len() as int));
        match self.sinks.get(&topic) {
            None => ForwardStep::Dropped,
            Some(s) => ForwardStep::Deliver(topic, notification, s.clone()),
        }
    }

    /// Takes back a notification after its topic's subscribers were polled:
    /// when one was not ready it waits at the front again; otherwise the
    /// closed subscribers are dropped, the topic is forgotten when none is
    /// left, and the notification goes to those left.
    pub fn on_sinks_polled(&mut self, topic: [u8; 32], notification: TopicNotification, any_pending: bool, closed: &Vec<u64>) -> (r: SinkStep)
        requires
            old(self)@.forwarding is Some,
        ensures
            ({
                let q = old(self)@.forwarding->0;
                let sinks = if old(self)@.sinks.contains_key(topic) { old(self)@.sinks[topic] } else { Seq::empty() };
                let left = open_sinks(sinks, closed@);
                if any_pending {
                    r is Wait && final(self)@ == after_wait(old(self)@, (topic, notification.message@, notification.sender))
                } else if left.len() == 0 {
                    r is Emptied && final(self)@ == (EngineView { sinks: old(self)@.sinks.remove(topic), ..old(self)@ })
                } else {
                    &&& r matches SinkStep::Send(s) && s@ == left
                    &&& final(self)@ == (EngineView { sinks: old(self)@.sinks.insert(topic, left), ..old(self)@ })
                }
            }),
    {
        if any_pending {
            let ghost q = self.queue@;
            let ghost p = pending_view((topic, notification));
            self.queue.insert(0, (topic, notification));
            assert(self.queue@.map_values(|x: ([u8; 32], TopicNotification)| pending_view(x))
                =~= seq![p] + q.map_values(|x: ([u8; 32], TopicNotification)| pending_view(x)));
            return SinkStep::Wait;
        }
        let ghost before = self.sinks@;
        let sinks = match self.sinks.remove(&topic) {
            Some(s) => s,
            None => Vec::new(),
        };
        let left = keep_open(&sinks, closed);
        if left.len() == 0 {
            assert(self@.sinks =~= old(self)@.sinks.remove(topic));
            SinkStep::Emptied
        } else {
            self.sinks.insert(topic, left.clone());
            assert(self@.sinks =~= old(self)@.sinks.insert(topic, left@));
            SinkStep::Send(left)
        }
    }

    /// Subscribes `sink` to a topic; returns the kept messages under the
    /// topic, to put in the new channel first, and the channel's capacity:
    /// room for them all, and at least ten.
    pub fn messages_for(&mut self, topic: [u8; 32], sink: u64) -> (r: (Vec<TopicNotification>, usize))
        ensures
            r.0@.map_values(|n: TopicNotification| (n.message@, n.sender)) == messages_under(old(self)@.gossip.messages, topic),
            r.1 == if r.0@.len() > 10 { r.0@.len() } else { 10 },
            final(self)@ == (EngineView {
                sinks: old(self)@.sinks.insert(topic, if old(self)@.sinks.contains_key(topic) {
                    old(self)@.sinks[topic].push(sink)
                } else {
                    seq![sink]
                }),
                ..old(self)@
            }),
    {
        let past = self.state.messages_for(&topic);
        let capacity = if past.len() > 10 { past.len() } else { 10 };
        let mut subscribers = match self.sinks.remove(&topic) {
            Some(s) => s,
            None => Vec::new(),
        };
        let ghost before = subscribers@;
        subscribers.push(sink);
        self.sinks.insert(topic, subscribers);
        proof {
            if old(self)@.sinks.contains_key(topic) {
                assert(before == old(self)@.sinks[topic]);
            } else {
                assert(before =~= Seq::<u64>::empty());
                assert(before.push(sink) =~= seq![sink]);
            }
            assert(self@.sinks =~= old(self)@.sinks.insert(topic, before.push(sink)));
        }
        (past, capacity)
    }

    /// Periodic maintenance of the subscribers: the closed ones are
    /// dropped, and topics left with none are forgotten.
    pub fn drop_closed_sinks(&mut self, closed: &Vec<u64>)
        ensures
            final(self)@.gossip == old(self)@.gossip,
            final(self)@.protocol == old(self)@.protocol,
            final(self)@.forwarding == old(self)@.forwarding,
            forall|t: [u8; 32]| #[trigger] final(self)@.sinks.contains_key(t) <==>
                old(self)@.sinks.contains_key(t) && open_sinks(old(self)@.sinks[t], closed@).len() > 0,
            forall|t: [u8; 32]| #[trigger] final(self)@.sinks.contains_key(t) ==>
                final(self)@.sinks[t] == open_sinks(old(self)@.sinks[t], closed@),
    {
        let topics = self.sinks.keys();
        let ghost old_sinks = old(self)@.sinks;
        let mut j: usize = 0;
        while j < topics.len()
            invariant
                topics@.to_set() == old_sinks.dom(),
                topics@.no_duplicates(),
                j <= topics@.len(),
                self@.gossip == old(self)@.gossip,
                self@.protocol == old(self)@.protocol,
                self@.forwarding == old(self)@.forwarding,
                forall|t: [u8; 32]| #[trigger] self@.sinks.contains_key(t) <==> if topics@.take(j as int).contains(t) {
                    old_sinks.contains_key(t) && open_sinks(old_sinks[t], closed@).len() > 0
                } else {
                    old_sinks.contains_key(t)
                },
                forall|t: [u8; 32]| #[trigger] self@.sinks.contains_key(t) ==> self@.sinks[t] == if topics@.take(j as int).contains(t) {
                    open_sinks(old_sinks[t], closed@)
                } else {
                    old_sinks[t]
                },
            decreases topics@.len() - j,
        {
            let t = topics[j];
            proof {
                assert(topics@.contains(t));
                assert(topics@.to_set().contains(t));
                assert(!topics@.take(j as int).contains(t)) by {
                    if topics@.take(j as int).contains(t) {
                        let k = choose|k: int| 0 <= k < j && topics@.take(j as int)[k] == t;
                        assert(topics@[k] == topics@[j as int]);
                    }
                }
                assert(topics@.take(j as int + 1) =~= topics@.take(j as int).push(t));
                assert(old_sinks.contains_key(t));
                assert(self@.sinks.contains_key(t));
            }
            let ghost cur = self@.sinks;
            let s = self.sinks.remove(&t).unwrap();
            let left = keep_open(&s, closed);
            if left.len() > 0 {
                let ghost lv = left@;
                self.sinks.insert(t, left);
                assert(self@.sinks =~= cur.insert(t, lv));
            } else {
                assert(self@.sinks =~= cur.remove(t));
            }
            proof {
                let pre = topics@.take(j as int);
                let post = topics@.take(j as int + 1);
                assert forall|x: [u8; 32]| #[trigger] post.contains(x) <==> (pre.contains(x) || x == t) by {
                    if post.contains(x) && x != t {
                        let a = choose|a: int| 0 <= a < post.len() && post[a] == x;
                        assert(pre[a] == x);
                    }
                    if pre.contains(x) {
                        let a = choose|a: int| 0 <= a < pre.len() && pre[a] == x;
                        assert(post[a] == x);
                    }
                    if x == t {
                        assert(post[j as int] == x);
                    }
                }
                assert forall|x: [u8; 32]| #[trigger] self@.sinks.contains_key(x) <==> if post.contains(x) {
                    old_sinks.contains_key(x) && open_sinks(old_sinks[x], closed@).len() > 0
                } else {
                    old_sinks.contains_key(x)
                } by {
                    assert(post.contains(x) <==> (pre.contains(x) || x == t));
                    if x != t {
                        assert(self@.sinks.contains_key(x) == cur.contains_key(x));
                    }
                }
                assert forall|x: [u8; 32]| #[trigger] self@.sinks.contains_key(x) implies self@.sinks[x] == if post.contains(x) {
                    open_sinks(old_sinks[x], closed@)
                } else {
                    old_sinks[x]
                } by {
                    assert(post.contains(x) <==> (pre.contains(x) || x == t));
                    if x != t {
                        assert(cur.contains_key(x));
                        assert(self@.sinks[x] == cur[x]);
                    }
                }
            }
            j = j + 1;
        }
        assert(topics@.take(topics@.len() as int) =~= topics@);
    }
}

/// The gossip state after each of the peers `who`, in turn, is noted to
/// have the message `h`.
pub open spec fn all_know(g: GossipView, who: Seq<u64>, h: [u8; 32]) -> GossipView
    decreases who.len(),
{
    if who.len() == 0 {
        g
    } else {
        all_know(g, who.drop_last(), h).peer_knows(who.last(), h)
    }
}

/// The peers of `who` that are registered, in order.
pub open spec fn registered_only(who: Seq<u64>, peers: Set<u64>) -> Seq<u64>
    decreases who.len(),
{
    if who.len() == 0 {
        Seq::empty()
    } else {
        let prev = registered_only(who.drop_last(), peers);
        if peers.contains(who.last()) { prev.push(who.last()) } else { prev }
    }
}

/// Noting what peers know leaves the set of peers as it is.
proof fn lemma_all_know_keeps_peers(g: GossipView, who: Seq<u64>, h: [u8; 32])
    ensures
        all_know(g, who, h).peers.dom() == g.peers.dom(),
    decreases who.len(),
{
    if who.len() > 0 {
        lemma_all_know_keeps_peers(g, who.drop_last(), h);
        let prev = all_know(g, who.drop_last(), h);
        if prev.peers.contains_key(who.last()) {
            assert(prev.peers.insert(who.last(), prev.peers[who.last()].insert(h)).dom() =~= prev.peers.dom());
        }
    }
}

impl GossipEngine {
    /// Sends a message straight to the peers `who`: each registered one is
    /// noted to have it; returns those to send it to. The message is not
    /// kept.
    pub fn send_message(&mut self, who: &Vec<u64>, data: &Vec<u8>) -> (r: Vec<u64>)
        ensures
            exists|h: [u8; 32]| h@ == crate::accounts::blake2b_256(data@)
                && final(self)@ == (EngineView { gossip: #[trigger] all_know(old(self)@.gossip, who@, h), ..old(self)@ }),
            r@ == registered_only(who@, old(self)@.gossip.peers.dom()),
    {
        let h = crate::gossip::message_hash(data);
        let ghost start = self@;
        let mut sent: Vec<u64> = Vec::new();
        let mut i: usize = 0;
        assert(who@.take(0) =~= Seq::<u64>::empty());
        while i < who.len()
            invariant
                i <= who@.len(),
                self@ == (EngineView { gossip: all_know(start.gossip, who@.take(i as int), h), ..start }),
                sent@ == registered_only(who@.take(i as int), start.gossip.peers.dom()),
            decreases who@.len() - i,
        {
            let w = who[i];
            assert(who@.take(i as int + 1).drop_last() =~= who@.take(i as int));
            assert(who@.take(i as int + 1).last() == w);
            proof {
                lemma_all_know_keeps_peers(start.gossip, who@.take(i as int), h);
            }
            let registered = self.state.has_peer(w);
            self.state.mark_known(w, h);
            if registered {
                sent.push(w);
            }
            i = i + 1;
        }
        assert(who@.take(who@.len() as int) =~= who@);
        sent
    }
}

/// The subscribers of `sinks` that are not closed, in order.
fn keep_open(sinks: &Vec<u64>, closed: &Vec<u64>) -> (r: Vec<u64>)
    ensures
        r@ == open_sinks(sinks@, closed@),
{
    let mut out: Vec<u64> = Vec::new();
    let mut i: usize = 0;
    assert(sinks@.take(0) =~= Seq::<u64>::empty());
    while i < sinks.len()
        invariant
            i <= sinks@.len(),
            out@ == open_sinks(sinks@.take(i as int), closed@),
        decreases sinks@.len() - i,
    {
        let s = sinks[i];
        assert(sinks@.take(i as int + 1).drop_last() =~= sinks@.take(i as int));
        assert(sinks@.take(i as int + 1).last() == s);
        let mut is_closed = false;
        let mut k: usize = 0;
        while k < closed.len()
            invariant
                k <= closed@.len(),
                is_closed == closed@.take(k as int).contains(s),
            decreases closed@.len() - k,
        {
            proof {
                let pre = closed@.take(k as int);
                let post = closed@.take(k as int + 1);
                assert(post =~= pre.push(closed@[k as int]));
                if pre.contains(s) {
                    let a = choose|a: int| 0 <= a < pre.len() && pre[a] == s;
                    assert(post[a] == s);
                }
                if post.contains(s) && closed@[k as int] != s {
                    let a = choose|a: int| 0 <= a < post.len() && post[a] == s;
                    assert(pre[a] == s);
                }
                if closed@[k as int] == s {
                    assert(post[k as int] == s);
                }
            }
            if closed[k] == s {
                is_closed = true;
            }
            k = k + 1;
        }
        assert(closed@.take(closed@.len() as int) =~= closed@);
        if !is_closed {
            out.push(s);
        }
        i = i + 1;
    }
    assert(sinks@.take(sinks@.len() as int) =~= sinks@);
    out
}

} // verus!
