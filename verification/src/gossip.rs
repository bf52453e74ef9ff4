//! The consensus gossip state machine: which messages are kept for
//! gossiping, which messages each peer is known to have, and what to do
//! with messages coming in from peers. The network and the validator of
//! messages stay outside: their answers are handed in.

use vstd::prelude::*;
use std::collections::HashMap;
use lru::LruCache;
use std::collections::hash_map::RandomState;
use crate::accounts::{blake2_256, KeyMap};
use vstd::std_specs::iter::IteratorSpec;

verus! {

broadcast use vstd::std_specs::hash::group_hash_axioms;

/// The cache of known message hashes, from `lru`.
#[verifier::external_type_specification]
#[verifier::external_body]
#[verifier::reject_recursive_types(K)]
#[verifier::reject_recursive_types(V)]
#[verifier::reject_recursive_types(S)]
pub struct ExLruCache<K, V, S>(lru::LruCache<K, V, S>);

/// The hashes an LRU cache holds, the most recently put first.
pub uninterp spec fn lru_keys(cache: LruCache<[u8; 32], (), RandomState>) -> Seq<[u8; 32]>;

/// The number of hashes an LRU cache holds at most.
pub uninterp spec fn lru_cap(cache: LruCache<[u8; 32], (), RandomState>) -> nat;

/// The hashes held after putting `k`: a hash already held moves to the
/// front; a new hash goes to the front, the least recently put one leaving
/// when the cache is full; nothing is held when the capacity is zero.
pub open spec fn lru_put_keys(keys: Seq<[u8; 32]>, cap: nat, k: [u8; 32]) -> Seq<[u8; 32]> {
    if keys.contains(k) {
        seq![k] + keys.filter(other_than(k))
    } else if cap == 0 {
        keys
    } else if keys.len() == cap {
        seq![k] + keys.drop_last()
    } else {
        seq![k] + keys
    }
}

/// Whether a hash differs from `k`.
pub open spec fn other_than(k: [u8; 32]) -> spec_fn([u8; 32]) -> bool {
    |x: [u8; 32]| x != k
}

/// `LruCache::with_hasher(cap, RandomState::new())`: an empty cache
/// holding at most `cap` entries.
#[verifier::external_body]
fn lru_new(cap: usize) -> (r: LruCache<[u8; 32], (), RandomState>)
    ensures
        lru_keys(r) == Seq::<[u8; 32]>::empty(),
        lru_cap(r) == cap,
{
    LruCache::with_hasher(cap, RandomState::new())
}

/// `LruCache::put(k, ())`: the hash is put at the front as `lru_put_keys`
/// says; the old value is returned when the hash was already held.
#[verifier::external_body]
fn lru_put(cache: &mut LruCache<[u8; 32], (), RandomState>, k: [u8; 32]) -> (r: Option<()>)
    requires
        lru_keys(*old(cache)).len() <= lru_cap(*old(cache)),
    ensures
        lru_cap(*final(cache)) == lru_cap(*old(cache)),
        lru_keys(*final(cache)) == lru_put_keys(lru_keys(*old(cache)), lru_cap(*old(cache)), k),
        lru_keys(*final(cache)).len() <= lru_cap(*final(cache)),
        r is Some <==> lru_keys(*old(cache)).contains(k),
{
    cache.put(k, ())
}

/// `LruCache::contains`: whether the hash is held; the order is left as
/// it is.
#[verifier::external_body]
fn lru_contains(cache: &LruCache<[u8; 32], (), RandomState>, k: &[u8; 32]) -> (r: bool)
    ensures
        r == lru_keys(*cache).contains(*k),
{
    cache.contains(k)
}

/// `LruCache::len`: how many hashes are held, never more than the
/// capacity (`put` evicts before it would exceed it, and holds nothing at
/// capacity zero).
#[verifier::external_body]
fn lru_len(cache: &LruCache<[u8; 32], (), RandomState>) -> (r: usize)
    ensures
        r == lru_keys(*cache).len(),
        r <= lru_cap(*cache),
{
    cache.len()
}

} // verus!

verus! {

/// How many message hashes are remembered as known.
pub const KNOWN_MESSAGES_CACHE_SIZE: usize = 8192;

/// Why a message is being propagated.
#[derive(Clone, Copy, Debug, PartialEq, Eq, Structural)]
pub enum MessageIntent {
    /// A first broadcast.
    Broadcast,
    /// A broadcast made even to peers that know the message.
    ForcedBroadcast,
    /// A periodic rebroadcast.
    PeriodicRebroadcast,
}

/// What the validator made of an incoming message.
#[derive(Clone, Copy, Debug)]
pub enum ValidationResult {
    /// Process it and keep it for gossiping, under the topic.
    ProcessAndKeep([u8; 32]),
    /// Process it but do not keep it, under the topic.
    ProcessAndDiscard([u8; 32]),
    /// Drop it.
    Discard,
}

/// A message kept for gossiping.
#[derive(Debug)]
pub struct MessageEntry {
    /// The hash of the message.
    pub message_hash: [u8; 32],
    /// The message's topic.
    pub topic: [u8; 32],
    /// The message.
    pub message: Vec<u8>,
    /// The peer it came from, if any.
    pub sender: Option<u64>,
}

/// A kept message as values.
pub struct MessageView {
    pub message_hash: [u8; 32],
    pub topic: [u8; 32],
    pub message: Seq<u8>,
    pub sender: Option<u64>,
}

impl View for MessageEntry {
    type V = MessageView;

    open spec fn view(&self) -> MessageView {
        MessageView { message_hash: self.message_hash, topic: self.topic, message: self.message@, sender: self.sender }
    }
}

/// A message handed up to the gossip's users, with its sender.
#[derive(Clone, Debug)]
pub struct TopicNotification {
    /// The message.
    pub message: Vec<u8>,
    /// The peer it came from, if any.
    pub sender: Option<u64>,
}

/// The reputation a peer gains for a new, valid message.
pub const GOSSIP_SUCCESS: i32 = 16;

/// The reputation a peer loses for a message already known.
pub const DUPLICATE_GOSSIP: i32 = -4;

/// What to do with an incoming message before it is validated.
#[derive(Clone, Copy, Debug)]
pub enum IncomingCheck {
    /// Its hash was seen recently: it is dropped, and the sender loses
    /// `DUPLICATE_GOSSIP` reputation.
    Duplicate,
    /// It is new: validate it; this is its hash.
    Validate([u8; 32]),
}

/// What became of an incoming message once validated.
#[derive(Debug)]
pub enum IncomingOutcome {
    /// The validator dropped it.
    Discarded,
    /// It came from a peer that is not registered.
    UnregisteredPeer,
    /// It is new and valid: hand it up under the topic; the sender earns
    /// reputation.
    Forward([u8; 32], TopicNotification),
}

impl IncomingCheck {
    /// The reputation change for the sender at this point: a duplicate
    /// costs `DUPLICATE_GOSSIP`; a new message is not judged yet.
    pub fn reputation_change(&self) -> (r: Option<i32>)
        ensures
            r == match *self {
                IncomingCheck::Duplicate => Some(DUPLICATE_GOSSIP),
                IncomingCheck::Validate(_) => None::<i32>,
            },
    {
        match self {
            IncomingCheck::Duplicate => Some(DUPLICATE_GOSSIP),
            IncomingCheck::Validate(_) => None,
        }
    }
}

impl IncomingOutcome {
    /// The reputation change for the sender once the message is
    /// validated: a forwarded message earns `GOSSIP_SUCCESS`; a discarded
    /// one, or one from an unregistered peer, changes nothing.
    pub fn reputation_change(&self) -> (r: Option<i32>)
        ensures
            r == match *self {
                IncomingOutcome::Forward(_, _) => Some(GOSSIP_SUCCESS),
                _ => None::<i32>,
            },
    {
        match self {
            IncomingOutcome::Forward(_, _) => Some(GOSSIP_SUCCESS),
            _ => None,
        }
    }
}

/// The gossip state: the peers with the message hashes each is known to
/// have, the messages kept for gossiping, and the recently seen message
/// hashes.
pub struct ConsensusGossip {
    peers: HashMap<u64, KeyMap<()>>,
    messages: Vec<MessageEntry>,
    known_messages: LruCache<[u8; 32], (), RandomState>,
}

/// The gossip state as values.
pub struct GossipView {
    /// The hashes each registered peer is known to have.
    pub peers: Map<u64, Set<[u8; 32]>>,
    /// The messages kept for gossiping, in the order they were kept.
    pub messages: Seq<MessageView>,
    /// The recently seen message hashes, the most recent first.
    pub known: Seq<[u8; 32]>,
    /// How many hashes are remembered at most.
    pub known_cap: nat,
}

impl View for ConsensusGossip {
    type V = GossipView;

    closed spec fn view(&self) -> GossipView {
        GossipView {
            peers: self.peers@.map_values(|k: KeyMap<()>| k@.dom()),
            messages: self.messages@.map_values(|m: MessageEntry| m@),
            known: lru_keys(self.known_messages),
            known_cap: lru_cap(self.known_messages),
        }
    }
}

impl GossipView {
    /// The cache of known hashes is within its capacity, which is not zero.
    pub open spec fn wf(self) -> bool {
        &&& self.known.len() <= self.known_cap
        &&& self.known_cap > 0
    }

    /// Keeping a message: its hash becomes the most recently seen, and it is
    /// kept for gossiping unless the hash was seen already.
    pub open spec fn register(self, message_hash: [u8; 32], topic: [u8; 32], message: Seq<u8>, sender: Option<u64>) -> GossipView {
        GossipView {
            known: lru_put_keys(self.known, self.known_cap, message_hash),
            messages: if self.known.contains(message_hash) {
                self.messages
            } else {
                self.messages.push(MessageView { message_hash, topic, message, sender })
            },
            ..self
        }
    }

    /// Noting that peer `who`, if registered, has the message `hash`.
    pub open spec fn peer_knows(self, who: u64, hash: [u8; 32]) -> GossipView {
        if self.peers.contains_key(who) {
            GossipView { peers: self.peers.insert(who, self.peers[who].insert(hash)), ..self }
        } else {
            self
        }
    }
}

/// The messages left after garbage collection: those not expired.
pub open spec fn unexpired(messages: Seq<MessageView>, expired: Seq<bool>) -> Seq<MessageView>
    decreases messages.len(),
{
    if messages.len() == 0 {
        Seq::empty()
    } else {
        let prev = unexpired(messages.drop_last(), expired.drop_last());
        if expired.last() {
            prev
        } else {
            prev.push(messages.last())
        }
    }
}

/// The kept messages under a topic, as the message and its sender.
pub open spec fn messages_under(messages: Seq<MessageView>, topic: [u8; 32]) -> Seq<(Seq<u8>, Option<u64>)>
    decreases messages.len(),
{
    if messages.len() == 0 {
        Seq::empty()
    } else {
        let prev = messages_under(messages.drop_last(), topic);
        if messages.last().topic == topic {
            prev.push((messages.last().message, messages.last().sender))
        } else {
            prev
        }
    }
}

/// The intent with which a message goes to a peer, given whether the peer
/// knows it: a broadcast skips peers that know it, a rebroadcast is a first
/// broadcast for peers that do not.
pub open spec fn intent_for_peer(intent: MessageIntent, peer_knows: bool) -> Option<MessageIntent> {
    match intent {
        MessageIntent::Broadcast => if peer_knows { None } else { Some(MessageIntent::Broadcast) },
        MessageIntent::PeriodicRebroadcast => if peer_knows {
            Some(MessageIntent::PeriodicRebroadcast)
        } else {
            Some(MessageIntent::Broadcast)
        },
        MessageIntent::ForcedBroadcast => Some(MessageIntent::ForcedBroadcast),
    }
}

/// The intent with which a message goes to a peer, as `intent_for_peer`
/// says; none when it is not sent to that peer.
pub fn propagation_intent(intent: MessageIntent, peer_knows: bool) -> (r: Option<MessageIntent>)
    ensures
        r == intent_for_peer(intent, peer_knows),
{
    match intent {
        MessageIntent::Broadcast => if peer_knows { None } else { Some(MessageIntent::Broadcast) },
        MessageIntent::PeriodicRebroadcast => if peer_knows {
            Some(MessageIntent::PeriodicRebroadcast)
        } else {
            Some(MessageIntent::Broadcast)
        },
        MessageIntent::ForcedBroadcast => Some(MessageIntent::ForcedBroadcast),
    }
}

/// The keys of a map, listed once each.
fn peer_ids<V>(m: &HashMap<u64, V>) -> (v: Vec<u64>)
    ensures
        v@.to_set() == m@.dom(),
        v@.no_duplicates(),
{
    let ghost keys = vstd::std_specs::hash::spec_keys_iter(m).remaining().unref();
    let mut v: Vec<u64> = Vec::new();
    for k in it: m.keys()
        invariant
            it.seq().unref() == keys,
            v@ == keys.take(it.index()),
    {
        v.push(*k);
        assert(keys.take(it.index() + 1) =~= v@);
    }
    assert(keys.take(keys.len() as int) =~= keys);
    v
}

} // verus!

verus! {

/// The hash of a message: its BLAKE2b-256 digest.
pub fn message_hash(message: &Vec<u8>) -> (r: [u8; 32])
    ensures
        r@ == crate::accounts::blake2b_256(message@),
{
    blake2_256(message.as_slice())
}

impl ConsensusGossip {
    /// No peers, no messages, nothing seen yet.
    pub fn new() -> (r: Self)
        ensures
            r@.peers == Map::<u64, Set<[u8; 32]>>::empty(),
            r@.messages == Seq::<MessageView>::empty(),
            r@.known == Seq::<[u8; 32]>::empty(),
            r@.known_cap == KNOWN_MESSAGES_CACHE_SIZE,
            r@.wf(),
    {
        let r = ConsensusGossip { peers: HashMap::new(), messages: Vec::new(), known_messages: lru_new(KNOWN_MESSAGES_CACHE_SIZE) };
        assert(r@.peers =~= Map::<u64, Set<[u8; 32]>>::empty());
        assert(r@.messages =~= Seq::<MessageView>::empty());
        r
    }

    /// The messages kept for gossiping.
    pub fn messages(&self) -> (r: &Vec<MessageEntry>)
        ensures
            r@.map_values(|m: MessageEntry| m@) == self@.messages,
    {
        &self.messages
    }

    /// Registers a newly connected peer, knowing none of the messages;
    /// light peers are not gossiped with.
    pub fn new_peer(&mut self, who: u64, is_light: bool)
        ensures
            final(self)@ == if is_light {
                old(self)@
            } else {
                GossipView { peers: old(self)@.peers.insert(who, Set::empty()), ..old(self)@ }
            },
    {
        if is_light {
            return;
        }
        let known: KeyMap<()> = KeyMap::new();
        proof {
            assert(known@.dom() =~= Set::<[u8; 32]>::empty());
        }
        self.peers.insert(who, known);
        assert(self@.peers =~= old(self)@.peers.insert(who, Set::empty()));
    }

    /// Stops tracking a disconnected peer.
    pub fn peer_disconnected(&mut self, who: u64)
        ensures
            final(self)@ == (GossipView { peers: old(self)@.peers.remove(who), ..old(self)@ }),
    {
        self.peers.remove(&who);
        assert(self@.peers =~= old(self)@.peers.remove(who));
    }

    /// Keeps a message for gossiping, as `register` says.
    fn register_message_hashed(&mut self, message_hash: [u8; 32], topic: [u8; 32], message: Vec<u8>, sender: Option<u64>)
        requires
            old(self)@.wf(),
        ensures
            final(self)@ == old(self)@.register(message_hash, topic, message@, sender),
            final(self)@.wf(),
    {
        let ghost m = message@;
        // The cache holds no more hashes than its capacity, as `put` needs.
        let _held = lru_len(&self.known_messages);
        if lru_put(&mut self.known_messages, message_hash).is_none() {
            self.messages.push(MessageEntry { message_hash, topic, message, sender });
            assert(self@.messages =~= old(self)@.messages.push(MessageView { message_hash, topic, message: m, sender }));
        }
    }

    /// Keeps a message for gossiping without sending it to anyone; it goes
    /// to new peers, or when its topic is gossiped.
    pub fn register_message(&mut self, topic: [u8; 32], message: Vec<u8>)
        requires
            old(self)@.wf(),
        ensures
            exists|h: [u8; 32]| h@ == crate::accounts::blake2b_256(message@)
                && final(self)@ == old(self)@.register(h, topic, message@, None),
            final(self)@.wf(),
    {
        let h = message_hash(&message);
        self.register_message_hashed(h, topic, message, None);
    }

    /// Decides what happens to an incoming message before validation: a
    /// message whose hash was seen recently is a duplicate; any other is
    /// validated under its hash.
    pub fn check_incoming(&self, message: &Vec<u8>) -> (r: IncomingCheck)
        ensures
            exists|h: [u8; 32]| h@ == crate::accounts::blake2b_256(message@) && (#[trigger] self@.known.contains(h)
                == (r is Duplicate)) && (r matches IncomingCheck::Validate(x) ==> x == h),
    {
        let h = message_hash(message);
        let known = lru_contains(&self.known_messages, &h);
        assert(known == self@.known.contains(h));
        let r = if known { IncomingCheck::Duplicate } else { IncomingCheck::Validate(h) };
        assert(h@ == crate::accounts::blake2b_256(message@) && self@.known.contains(h) == (r is Duplicate)
            && (r matches IncomingCheck::Validate(x) ==> x == h));
        r
    }

    /// Whether the message hash was seen recently.
    pub fn is_known(&self, hash: &[u8; 32]) -> (r: bool)
        ensures
            r == self@.known.contains(*hash),
    {
        lru_contains(&self.known_messages, hash)
    }

    /// Whether peer `who` is registered.
    pub fn has_peer(&self, who: u64) -> (r: bool)
        ensures
            r == self@.peers.contains_key(who),
    {
        self.peers.contains_key(&who)
    }

    /// Whether peer `who` is registered and known to have the message.
    pub fn peer_has(&self, who: u64, hash: &[u8; 32]) -> (r: bool)
        ensures
            r == (self@.peers.contains_key(who) && self@.peers[who].contains(*hash)),
    {
        match self.peers.get(&who) {
            Some(known) => known.contains_key(hash),
            None => false,
        }
    }

    /// Notes that peer `who`, if registered, has the message.
    pub fn mark_known(&mut self, who: u64, hash: [u8; 32])
        ensures
            final(self)@ == old(self)@.peer_knows(who, hash),
    {
        match self.peers.remove(&who) {
            Some(known) => {
                let mut known = known;
                let ghost before = known@;
                known.insert(hash, ());
                assert(known@.dom() =~= before.dom().insert(hash));
                self.peers.insert(who, known);
                assert(self@.peers =~= old(self)@.peers.insert(who, old(self)@.peers[who].insert(hash)));
            },
            None => {
                assert(self@.peers =~= old(self)@.peers);
            },
        }
    }

    /// Decides what becomes of an incoming message from `who` with hash
    /// `message_hash` once the validator judged it: a discarded message or
    /// one from an unregistered peer changes nothing; otherwise the peer is
    /// known to have it, it is kept when the validator says so, and it is
    /// handed up under its topic.
    pub fn on_validated(
        &mut self,
        who: u64,
        message: Vec<u8>,
        message_hash: [u8; 32],
        validation: ValidationResult,
    ) -> (r: IncomingOutcome)
        requires
            old(self)@.wf(),
        ensures
            match validation {
                ValidationResult::Discard => r is Discarded && final(self)@ == old(self)@,
                ValidationResult::ProcessAndKeep(topic) | ValidationResult::ProcessAndDiscard(topic) =>
                    if !old(self)@.peers.contains_key(who) {
                        r is UnregisteredPeer && final(self)@ == old(self)@
                    } else {
                        let known = old(self)@.peer_knows(who, message_hash);
                        &&& r matches IncomingOutcome::Forward(t, n) && t == topic && n.message@ == message@ && n.sender == Some(who)
                        &&& final(self)@ == if validation is ProcessAndKeep {
                            known.register(message_hash, topic, message@, Some(who))
                        } else {
                            known
                        }
                    },
            },
    {
        let (topic, keep) = match validation {
            ValidationResult::ProcessAndKeep(topic) => (topic, true),
            ValidationResult::ProcessAndDiscard(topic) => (topic, false),
            ValidationResult::Discard => return IncomingOutcome::Discarded,
        };
        if !self.peers.contains_key(&who) {
            return IncomingOutcome::UnregisteredPeer;
        }
        self.mark_known(who, message_hash);
        let notification = TopicNotification { message: message.clone(), sender: Some(who) };
        if keep {
            self.register_message_hashed(message_hash, topic, message, Some(who));
        }
        IncomingOutcome::Forward(topic, notification)
    }

    /// Sends a message straight to a peer: when the peer is registered it
    /// is noted to have the message and `true` tells to send it; the message
    /// is not kept.
    pub fn send_message(&mut self, who: u64, message: &Vec<u8>) -> (r: bool)
        ensures
            r == old(self)@.peers.contains_key(who),
            exists|h: [u8; 32]| h@ == crate::accounts::blake2b_256(message@)
                && final(self)@ == old(self)@.peer_knows(who, h),
    {
        if !self.peers.contains_key(&who) {
            let h = message_hash(message);
            assert(self@ == old(self)@.peer_knows(who, h));
            return false;
        }
        let h = message_hash(message);
        self.mark_known(who, h);
        true
    }

    /// The kept messages under a topic, with their senders.
    pub fn messages_for(&self, topic: &[u8; 32]) -> (r: Vec<TopicNotification>)
        ensures
            r@.map_values(|n: TopicNotification| (n.message@, n.sender)) == messages_under(self@.messages, *topic),
    {
        let ghost msgs = self@.messages;
        let mut out: Vec<TopicNotification> = Vec::new();
        let mut i: usize = 0;
        assert(msgs.subrange(0, 0) =~= Seq::<MessageView>::empty());
        assert(out@.map_values(|n: TopicNotification| (n.message@, n.sender)) =~= Seq::<(Seq<u8>, Option<u64>)>::empty());
        while i < self.messages.len()
            invariant
                msgs == self@.messages,
                i <= self.messages@.len(),
                out@.map_values(|n: TopicNotification| (n.message@, n.sender)) == messages_under(msgs.subrange(0, i as int), *topic),
            decreases self.messages@.len() - i,
        {
            let e = &self.messages[i];
            assert(msgs.subrange(0, i as int + 1).drop_last() =~= msgs.subrange(0, i as int));
            assert(msgs[i as int] == e@);
            if crate::accounts::account_id_eq(&e.topic, topic) {
                let ghost before = out@;
                out.push(TopicNotification { message: e.message.clone(), sender: e.sender });
                assert(out@.map_values(|n: TopicNotification| (n.message@, n.sender))
                    =~= before.map_values(|n: TopicNotification| (n.message@, n.sender)).push((e.message@, e.sender)));
            }
            i = i + 1;
        }
        assert(msgs.subrange(0, msgs.len() as int) =~= msgs);
        out
    }
}

impl ConsensusGossip {
    /// The hashes of `known` that are still recently seen.
    fn still_known(&self, known: &KeyMap<()>) -> (r: KeyMap<()>)
        ensures
            r@.dom() == known@.dom().intersect(self@.known.to_set()),
    {
        let keys = known.keys();
        let mut kept: KeyMap<()> = KeyMap::new();
        let mut i: usize = 0;
        while i < keys.len()
            invariant
                i <= keys@.len(),
                kept@.dom() == keys@.subrange(0, i as int).to_set().intersect(self@.known.to_set()),
            decreases keys@.len() - i,
        {
            let k = keys[i];
            let ghost before = kept@.dom();
            if lru_contains(&self.known_messages, &k) {
                kept.insert(k, ());
            }
            proof {
                let pre = keys@.subrange(0, i as int);
                let post = keys@.subrange(0, i as int + 1);
                assert(post =~= pre.push(k));
                assert forall|x: [u8; 32]| #[trigger] post.to_set().contains(x) <==> (pre.to_set().contains(x) || x == k) by {
                    if post.contains(x) && x != k {
                        let a = choose|a: int| 0 <= a < post.len() && post[a] == x;
                        assert(pre[a] == x);
                    }
                    if pre.contains(x) {
                        let a = choose|a: int| 0 <= a < pre.len() && pre[a] == x;
                        assert(post[a] == x);
                    }
                    if x == k {
                        assert(post[i as int] == x);
                    }
                }
                assert(kept@.dom() =~= post.to_set().intersect(self@.known.to_set()));
            }
            i = i + 1;
        }
        assert(keys@.subrange(0, keys@.len() as int) =~= keys@);
        assert(kept@.dom() =~= known@.dom().intersect(self@.known.to_set()));
        kept
    }

    /// Drops the expired messages (`expired` tells, message by message,
    /// what the validator said), and forgets what peers know of messages no
    /// longer recently seen. Returns how many messages were dropped.
    pub fn collect_garbage(&mut self, expired: &Vec<bool>) -> (r: usize)
        requires
            expired@.len() == old(self)@.messages.len(),
        ensures
            final(self)@.messages == unexpired(old(self)@.messages, expired@),
            final(self)@.peers == old(self)@.peers.map_values(|k: Set<[u8; 32]>| k.intersect(old(self)@.known.to_set())),
            final(self)@.known == old(self)@.known,
            final(self)@.known_cap == old(self)@.known_cap,
            r == old(self)@.messages.len() - final(self)@.messages.len(),
    {
        let mut msgs: Vec<MessageEntry> = Vec::new();
        std::mem::swap(&mut msgs, &mut self.messages);
        let ghost all = old(self)@.messages;
        let n = msgs.len();
        let mut kept: Vec<MessageEntry> = Vec::new();
        let mut i: usize = 0;
        assert(msgs@.map_values(|m: MessageEntry| m@) =~= all.subrange(0, n as int));
        assert(all.subrange(0, 0) =~= Seq::<MessageView>::empty());
        assert(kept@.map_values(|m: MessageEntry| m@) =~= Seq::<MessageView>::empty());
        while msgs.len() > 0
            invariant
                n == all.len(),
                expired@.len() == n,
                i + msgs@.len() == n,
                msgs@.map_values(|m: MessageEntry| m@) == all.subrange(i as int, n as int),
                kept@.map_values(|m: MessageEntry| m@) == unexpired(all.subrange(0, i as int), expired@.subrange(0, i as int)),
                kept@.len() <= i,
            decreases msgs@.len(),
        {
            let ghost before = msgs@;
            let m = msgs.remove(0);
            proof {
                assert(before.map_values(|x: MessageEntry| x@)[0] == m@);
                assert(msgs@ =~= before.subrange(1, before.len() as int));
                assert forall|k: int| 0 <= k < msgs@.len() implies msgs@.map_values(|x: MessageEntry| x@)[k]
                    == #[trigger] all.subrange(i as int + 1, n as int)[k] by {
                    assert(msgs@[k] == before[k + 1]);
                    assert(before.map_values(|x: MessageEntry| x@)[k + 1] == all.subrange(i as int, n as int)[k + 1]);
                }
                assert(msgs@.map_values(|x: MessageEntry| x@) =~= all.subrange(i as int + 1, n as int));
                assert(all.subrange(0, i as int + 1).drop_last() =~= all.subrange(0, i as int));
                assert(expired@.subrange(0, i as int + 1).drop_last() =~= expired@.subrange(0, i as int));
                assert(all[i as int] == m@);
            }
            let ghost kept_before = kept@;
            if !expired[i] {
                kept.push(m);
                assert(kept@.map_values(|x: MessageEntry| x@) =~= kept_before.map_values(|x: MessageEntry| x@).push(all[i as int]));
            }
            i = i + 1;
        }
        assert(all.subrange(0, n as int) =~= all);
        assert(expired@.subrange(0, n as int) =~= expired@);
        let dropped = n - kept.len();
        self.messages = kept;

        let ids = peer_ids(&self.peers);
        let ghost old_peers = old(self)@.peers;
        let ghost known_set = old(self)@.known.to_set();
        let mut j: usize = 0;
        while j < ids.len()
            invariant
                ids@.to_set() == old_peers.dom(),
                ids@.no_duplicates(),
                j <= ids@.len(),
                self@.known == old(self)@.known,
                self@.known_cap == old(self)@.known_cap,
                known_set == self@.known.to_set(),
                self@.messages == unexpired(all, expired@),
                self@.peers.dom() == old_peers.dom(),
                forall|w: u64| #[trigger] self@.peers.contains_key(w) ==> self@.peers[w] == if ids@.subrange(0, j as int).contains(w) {
                    old_peers[w].intersect(known_set)
                } else {
                    old_peers[w]
                },
            decreases ids@.len() - j,
        {
            let w = ids[j];
            proof {
                assert(ids@.contains(w));
                assert(ids@.to_set().contains(w));
                assert(!ids@.subrange(0, j as int).contains(w)) by {
                    if ids@.subrange(0, j as int).contains(w) {
                        let k = choose|k: int| 0 <= k < j && ids@.subrange(0, j as int)[k] == w;
                        assert(ids@[k] == ids@[j as int]);
                    }
                }
            }
            let ghost cur = self@.peers;
            let known = self.peers.remove(&w).unwrap();
            assert(known@.dom() == cur[w]);
            let fresh = self.still_known(&known);
            let ghost fresh_dom = fresh@.dom();
            self.peers.insert(w, fresh);
            assert(self@.peers =~= cur.insert(w, fresh_dom));
            proof {
                assert(ids@.subrange(0, j as int + 1) =~= ids@.subrange(0, j as int).push(w));
                assert forall|x: u64| #[trigger] self@.peers.contains_key(x) implies self@.peers[x] == if ids@.subrange(0, j as int + 1).contains(x) {
                    old_peers[x].intersect(known_set)
                } else {
                    old_peers[x]
                } by {
                    let pre = ids@.subrange(0, j as int);
                    let post = ids@.subrange(0, j as int + 1);
                    if x != w {
                        if post.contains(x) {
                            let a = choose|a: int| 0 <= a < post.len() && post[a] == x;
                            assert(pre[a] == x);
                        }
                        if pre.contains(x) {
                            let a = choose|a: int| 0 <= a < pre.len() && pre[a] == x;
                            assert(post[a] == x);
                        }
                        assert(cur.contains_key(x));
                    } else {
                        assert(post[j as int] == w);
                        assert(post.contains(w));
                        assert(cur.contains_key(w));
                        assert(cur[w] == old_peers[w]);
                    }
                }
                assert(self@.peers.dom() =~= old_peers.dom());
            }
            j = j + 1;
        }
        proof {
            assert(ids@.subrange(0, ids@.len() as int) =~= ids@);
            assert forall|w: u64| #[trigger] self@.peers.contains_key(w) implies self@.peers[w] == old_peers[w].intersect(known_set) by {
                assert(ids@.to_set().contains(w));
            }
            assert(self@.peers =~= old_peers.map_values(|k: Set<[u8; 32]>| k.intersect(known_set)));
        }
        dropped
    }
}

/// A hash just put in the cache is held, unless the capacity is zero.
pub proof fn lemma_put_holds(keys: Seq<[u8; 32]>, cap: nat, k: [u8; 32])
    requires
        cap > 0,
    ensures
        lru_put_keys(keys, cap, k).contains(k),
{
    assert(lru_put_keys(keys, cap, k)[0] == k);
}

/// Dropping a hash that a sequence does not hold leaves it as it is.
proof fn lemma_filter_absent(keys: Seq<[u8; 32]>, k: [u8; 32])
    requires
        !keys.contains(k),
    ensures
        keys.filter(other_than(k)) == keys,
    decreases keys.len(),
{
    reveal(Seq::filter);
    if keys.len() > 0 {
        let prefix = keys.drop_last();
        assert(!prefix.contains(k)) by {
            if prefix.contains(k) {
                let i = choose|i: int| 0 <= i < prefix.len() && prefix[i] == k;
                assert(keys[i] == k);
            }
        }
        lemma_filter_absent(prefix, k);
        assert(keys.last() != k) by {
            assert(keys[keys.len() - 1] == keys.last());
        }
        assert(prefix.push(keys.last()) =~= keys);
    }
}

/// Putting a hash that is already the most recent one changes nothing.
proof fn lemma_put_front_again(rest: Seq<[u8; 32]>, cap: nat, k: [u8; 32])
    requires
        !rest.contains(k),
    ensures
        lru_put_keys(seq![k] + rest, cap, k) == seq![k] + rest,
{
    let keys = seq![k] + rest;
    assert(keys[0] == k);
    assert(keys.contains(k));
    let pred = other_than(k);
    Seq::filter_distributes_over_add(seq![k], rest, pred);
    reveal(Seq::filter);
    assert(seq![k].drop_last() =~= Seq::<[u8; 32]>::empty());
    assert(Seq::<[u8; 32]>::empty().filter(pred) =~= Seq::<[u8; 32]>::empty());
    assert(seq![k].filter(pred) =~= Seq::<[u8; 32]>::empty());
    lemma_filter_absent(rest, k);
    assert(keys.filter(pred) =~= rest);
}

/// Registering a message whose hash was just registered changes nothing,
/// whatever topic, body and sender come with it the second time: the
/// message is kept once and the cache of known hashes stays as it is.
pub proof fn lemma_register_twice(
    s: GossipView,
    message_hash: [u8; 32],
    topic: [u8; 32],
    message: Seq<u8>,
    sender: Option<u64>,
    topic2: [u8; 32],
    message2: Seq<u8>,
    sender2: Option<u64>,
)
    requires
        s.wf(),
    ensures
        s.register(message_hash, topic, message, sender).register(message_hash, topic2, message2, sender2)
            == s.register(message_hash, topic, message, sender),
{
    let r = s.register(message_hash, topic, message, sender);
    let k = message_hash;
    let rest = if s.known.contains(k) {
        s.known.filter(other_than(k))
    } else if s.known.len() == s.known_cap {
        s.known.drop_last()
    } else {
        s.known
    };
    assert(!rest.contains(k)) by {
        if rest.contains(k) {
            let i = choose|i: int| 0 <= i < rest.len() && rest[i] == k;
            if s.known.contains(k) {
                s.known.filter_lemma(other_than(k));
            } else if s.known.len() == s.known_cap {
                assert(s.known[i] == k);
            }
        }
    }
    assert(r.known == seq![k] + rest);
    lemma_put_front_again(rest, s.known_cap, k);
    lemma_put_holds(s.known, s.known_cap, k);
    assert(r.register(k, topic2, message2, sender2) =~= r);
}

/// A message handed up from a registered peer is known to come from that
/// peer afterwards, so it is not sent back to it.
pub proof fn lemma_forwarded_known_by_sender(s: GossipView, who: u64, message_hash: [u8; 32], topic: [u8; 32], message: Seq<u8>)
    requires
        s.peers.contains_key(who),
    ensures
        s.peer_knows(who, message_hash).peers[who].contains(message_hash),
        s.peer_knows(who, message_hash).register(message_hash, topic, message, Some(who)).peers[who].contains(message_hash),
        intent_for_peer(MessageIntent::Broadcast, true) is None,
{
}

} // verus!

verus! {

/// The validator's answers for one peer, message by message: whether the
/// message may be sent with the intent it goes with, and whether it may be
/// sent as a periodic rebroadcast (read only when a message the peer knows
/// is rebroadcast).
#[derive(Debug)]
pub struct PeerAllowance {
    /// The peer.
    pub peer: u64,
    /// Whether each message may be sent with its intent.
    pub allowed: Vec<bool>,
    /// Whether each message may be sent as a periodic rebroadcast.
    pub allowed_again: Vec<bool>,
}

/// A peer's allowances as values.
pub struct AllowanceView {
    pub peer: u64,
    pub allowed: Seq<bool>,
    pub allowed_again: Seq<bool>,
}

impl View for PeerAllowance {
    type V = AllowanceView;

    open spec fn view(&self) -> AllowanceView {
        AllowanceView { peer: self.peer, allowed: self.allowed@, allowed_again: self.allowed_again@ }
    }
}

/// Whether message `i` goes to a peer with the intent `effective`.
pub open spec fn allowed_with(effective: MessageIntent, allowed: Seq<bool>, allowed_again: Seq<bool>, i: int) -> bool {
    if effective == MessageIntent::PeriodicRebroadcast { allowed_again[i] } else { allowed[i] }
}

/// Propagating messages (hash and body) to one peer that knows the hashes
/// `known`, in order: each goes with the intent `intent_for_peer` gives, if
/// any and if the validator allows it, and the peer is then known to have
/// it. The hashes known after, and the messages sent.
pub open spec fn propagate_peer(msgs: Seq<([u8; 32], Seq<u8>)>, intent: MessageIntent, allowed: Seq<bool>, allowed_again: Seq<bool>, known: Set<[u8; 32]>) -> (Set<[u8; 32]>, Seq<Seq<u8>>)
    decreases msgs.len(),
{
    if msgs.len() == 0 {
        (known, Seq::empty())
    } else {
        let i = msgs.len() - 1;
        let (k, out) = propagate_peer(msgs.drop_last(), intent, allowed, allowed_again, known);
        let (h, m) = msgs.last();
        match intent_for_peer(intent, k.contains(h)) {
            None => (k, out),
            Some(effective) => if allowed_with(effective, allowed, allowed_again, i) {
                (k.insert(h), out.push(m))
            } else {
                (k, out)
            },
        }
    }
}

/// The messages sent when propagating to the peers of `ds` in turn, each
/// tagged with its peer.
pub open spec fn propagate_sends(ds: Seq<AllowanceView>, msgs: Seq<([u8; 32], Seq<u8>)>, intent: MessageIntent, peers: Map<u64, Set<[u8; 32]>>) -> Seq<(u64, Seq<u8>)>
    decreases ds.len(),
{
    if ds.len() == 0 {
        Seq::empty()
    } else {
        let d = ds.last();
        propagate_sends(ds.drop_last(), msgs, intent, peers)
            + propagate_peer(msgs, intent, d.allowed, d.allowed_again, peers[d.peer]).1.map_values(|m: Seq<u8>| (d.peer, m))
    }
}

/// The kept messages (hash and body), all of them or those under a topic.
pub open spec fn candidates(messages: Seq<MessageView>, topic: Option<[u8; 32]>) -> Seq<([u8; 32], Seq<u8>)>
    decreases messages.len(),
{
    if messages.len() == 0 {
        Seq::empty()
    } else {
        let prev = candidates(messages.drop_last(), topic);
        let m = messages.last();
        if topic is None || topic == Some(m.topic) {
            prev.push((m.message_hash, m.message))
        } else {
            prev
        }
    }
}

/// The allowances cover the registered peers, once each, with an answer
/// for each of `n` messages.
pub open spec fn covers(ds: Seq<AllowanceView>, peers: Set<u64>, n: nat) -> bool {
    &&& ds.map_values(|d: AllowanceView| d.peer).to_set() == peers
    &&& ds.map_values(|d: AllowanceView| d.peer).no_duplicates()
    &&& forall|i: int| 0 <= i < ds.len() ==> (#[trigger] ds[i]).allowed.len() >= n && ds[i].allowed_again.len() >= n
}

/// The view of messages to propagate.
pub open spec fn msgs_view(msgs: Seq<([u8; 32], Vec<u8>)>) -> Seq<([u8; 32], Seq<u8>)> {
    msgs.map_values(|x: ([u8; 32], Vec<u8>)| (x.0, x.1@))
}

/// Propagates messages to one peer whose known hashes are `known`, as
/// `propagate_peer` says; returns the messages to send it.
fn propagate_to_peer(known: &mut KeyMap<()>, msgs: &Vec<([u8; 32], Vec<u8>)>, intent: MessageIntent, allowed: &Vec<bool>, allowed_again: &Vec<bool>) -> (out: Vec<Vec<u8>>)
    requires
        allowed@.len() >= msgs@.len(),
        allowed_again@.len() >= msgs@.len(),
    ensures
        (final(known)@.dom(), out@.map_values(|m: Vec<u8>| m@))
            == propagate_peer(msgs_view(msgs@), intent, allowed@, allowed_again@, old(known)@.dom()),
{
    let ghost all = msgs_view(msgs@);
    let mut out: Vec<Vec<u8>> = Vec::new();
    let mut i: usize = 0;
    assert(all.take(0) =~= Seq::<([u8; 32], Seq<u8>)>::empty());
    assert(out@.map_values(|m: Vec<u8>| m@) =~= Seq::<Seq<u8>>::empty());
    while i < msgs.len()
        invariant
            all == msgs_view(msgs@),
            i <= msgs@.len(),
            allowed@.len() >= msgs@.len(),
            allowed_again@.len() >= msgs@.len(),
            (known@.dom(), out@.map_values(|m: Vec<u8>| m@))
                == propagate_peer(all.take(i as int), intent, allowed@, allowed_again@, old(known)@.dom()),
        decreases msgs@.len() - i,
    {
        let h = msgs[i].0;
        assert(all.take(i as int + 1).drop_last() =~= all.take(i as int));
        assert(all.take(i as int + 1).last() == (h, msgs@[i as int].1@));
        let knows = known.contains_key(&h);
        let send = match propagation_intent(intent, knows) {
            None => false,
            Some(effective) => match effective {
                MessageIntent::PeriodicRebroadcast => allowed_again[i],
                _ => allowed[i],
            },
        };
        if send {
            let ghost before = out@;
            known.insert(h, ());
            out.push(msgs[i].1.clone());
            assert(out@.map_values(|m: Vec<u8>| m@) =~= before.map_values(|m: Vec<u8>| m@).push(msgs@[i as int].1@));
        }
        proof {
            assert(known@.dom() =~= propagate_peer(all.take(i as int + 1), intent, allowed@, allowed_again@, old(known)@.dom()).0);
        }
        i = i + 1;
    }
    assert(all.take(msgs@.len() as int) =~= all);
    out
}

} // verus!

verus! {

impl ConsensusGossip {
    /// The registered peers, once each.
    pub fn peers(&self) -> (r: Vec<u64>)
        ensures
            r@.to_set() == self@.peers.dom(),
            r@.no_duplicates(),
    {
        peer_ids(&self.peers)
    }

    /// The kept messages (hash and body), all of them or those under a
    /// topic, in the order they were kept.
    fn kept(&self, topic: Option<[u8; 32]>) -> (r: Vec<([u8; 32], Vec<u8>)>)
        ensures
            msgs_view(r@) == candidates(self@.messages, topic),
    {
        let ghost msgs = self@.messages;
        let mut out: Vec<([u8; 32], Vec<u8>)> = Vec::new();
        let mut i: usize = 0;
        assert(msgs.subrange(0, 0) =~= Seq::<MessageView>::empty());
        assert(msgs_view(out@) =~= Seq::<([u8; 32], Seq<u8>)>::empty());
        while i < self.messages.len()
            invariant
                msgs == self@.messages,
                i <= self.messages@.len(),
                msgs_view(out@) == candidates(msgs.subrange(0, i as int), topic),
            decreases self.messages@.len() - i,
        {
            let e = &self.messages[i];
            assert(msgs.subrange(0, i as int + 1).drop_last() =~= msgs.subrange(0, i as int));
            assert(msgs[i as int] == e@);
            let wanted = match topic {
                None => true,
                Some(t) => crate::accounts::account_id_eq(&t, &e.topic),
            };
            if wanted {
                let ghost before = out@;
                out.push((e.message_hash, e.message.clone()));
                assert(msgs_view(out@) =~= msgs_view(before).push((e.message_hash, e.message@)));
            }
            i = i + 1;
        }
        assert(msgs.subrange(0, msgs.len() as int) =~= msgs);
        out
    }

    /// Propagates messages to every registered peer in the order of `ds`,
    /// with the validator's answers `ds` gives for each peer: each peer is
    /// sent the messages `propagate_peer` says, and is then known to have
    /// them. Returns the messages to send, tagged with their peer.
    pub fn propagate(&mut self, msgs: &Vec<([u8; 32], Vec<u8>)>, intent: MessageIntent, ds: &Vec<PeerAllowance>) -> (r: Vec<(u64, Vec<u8>)>)
        requires
            covers(ds@.map_values(|d: PeerAllowance| d@), old(self)@.peers.dom(), msgs@.len()),
        ensures
            r@.map_values(|s: (u64, Vec<u8>)| (s.0, s.1@))
                == propagate_sends(ds@.map_values(|d: PeerAllowance| d@), msgs_view(msgs@), intent, old(self)@.peers),
            final(self)@.peers.dom() == old(self)@.peers.dom(),
            forall|i: int| 0 <= i < ds@.len() ==> final(self)@.peers[#[trigger] ds@[i].peer]
                == propagate_peer(msgs_view(msgs@), intent, ds@[i].allowed@, ds@[i].allowed_again@, old(self)@.peers[ds@[i].peer]).0,
            final(self)@.messages == old(self)@.messages,
            final(self)@.known == old(self)@.known,
            final(self)@.known_cap == old(self)@.known_cap,
    {
        let ghost dv = ds@.map_values(|d: PeerAllowance| d@);
        let ghost ids = dv.map_values(|d: AllowanceView| d.peer);
        let ghost old_peers = old(self)@.peers;
        let ghost mv = msgs_view(msgs@);
        let mut sends: Vec<(u64, Vec<u8>)> = Vec::new();
        let mut j: usize = 0;
        assert(dv.take(0) =~= Seq::<AllowanceView>::empty());
        assert(sends@.map_values(|s: (u64, Vec<u8>)| (s.0, s.1@)) =~= Seq::<(u64, Seq<u8>)>::empty());
        while j < ds.len()
            invariant
                dv == ds@.map_values(|d: PeerAllowance| d@),
                ids == dv.map_values(|d: AllowanceView| d.peer),
                mv == msgs_view(msgs@),
                covers(dv, old_peers.dom(), msgs@.len()),
                j <= ds@.len(),
                self@.peers.dom() == old_peers.dom(),
                self@.messages == old(self)@.messages,
                self@.known == old(self)@.known,
                self@.known_cap == old(self)@.known_cap,
                forall|w: u64| #[trigger] self@.peers.contains_key(w) && !ids.take(j as int).contains(w)
                    ==> self@.peers[w] == old_peers[w],
                forall|i: int| 0 <= i < j ==> self@.peers[#[trigger] ds@[i].peer]
                    == propagate_peer(mv, intent, ds@[i].allowed@, ds@[i].allowed_again@, old_peers[ds@[i].peer]).0,
                sends@.map_values(|s: (u64, Vec<u8>)| (s.0, s.1@)) == propagate_sends(dv.take(j as int), mv, intent, old_peers),
            decreases ds@.len() - j,
        {
            let d = &ds[j];
            let w = d.peer;
            proof {
                assert(dv[j as int] == d@);
                assert(ids[j as int] == w);
                assert(ids.to_set().contains(w));
                assert(!ids.take(j as int).contains(w)) by {
                    if ids.take(j as int).contains(w) {
                        let k = choose|k: int| 0 <= k < j && ids.take(j as int)[k] == w;
                        assert(ids[k] == ids[j as int]);
                    }
                }
                assert(d.allowed@.len() >= msgs@.len() && d.allowed_again@.len() >= msgs@.len()) by {
                    assert(dv[j as int] == d@);
                }
            }
            let ghost cur = self@.peers;
            let mut known = self.peers.remove(&w).unwrap();
            assert(known@.dom() == old_peers[w]);
            let out = propagate_to_peer(&mut known, msgs, intent, &d.allowed, &d.allowed_again);
            let ghost new_known = known@.dom();
            self.peers.insert(w, known);
            assert(self@.peers =~= cur.insert(w, new_known));
            let ghost before = sends@;
            let mut k: usize = 0;
            while k < out.len()
                invariant
                    k <= out@.len(),
                    sends@.map_values(|s: (u64, Vec<u8>)| (s.0, s.1@))
                        == before.map_values(|s: (u64, Vec<u8>)| (s.0, s.1@))
                            + out@.take(k as int).map_values(|m: Vec<u8>| m@).map_values(|m: Seq<u8>| (w, m)),
                decreases out@.len() - k,
            {
                let ghost prev = sends@;
                sends.push((w, out[k].clone()));
                assert(out@.take(k as int + 1).map_values(|m: Vec<u8>| m@).map_values(|m: Seq<u8>| (w, m))
                    =~= out@.take(k as int).map_values(|m: Vec<u8>| m@).map_values(|m: Seq<u8>| (w, m)).push((w, out@[k as int]@)));
                assert(sends@.map_values(|s: (u64, Vec<u8>)| (s.0, s.1@))
                    =~= prev.map_values(|s: (u64, Vec<u8>)| (s.0, s.1@)).push((w, out@[k as int]@)));
                k = k + 1;
            }
            proof {
                assert(out@.take(out@.len() as int) =~= out@);
                assert(dv.take(j as int + 1).drop_last() =~= dv.take(j as int));
                assert(dv.take(j as int + 1).last() == d@);
                assert(ids.take(j as int + 1) =~= ids.take(j as int).push(w));
                assert forall|x: u64| #[trigger] self@.peers.contains_key(x) && !ids.take(j as int + 1).contains(x)
                    implies self@.peers[x] == old_peers[x] by {
                    if x != w {
                        if ids.take(j as int).contains(x) {
                            let a = choose|a: int| 0 <= a < j && ids.take(j as int)[a] == x;
                            assert(ids.take(j as int + 1)[a] == x);
                        }
                        assert(cur.contains_key(x));
                    } else {
                        assert(ids.take(j as int + 1)[j as int] == w);
                    }
                }
                assert forall|i: int| 0 <= i < j + 1 implies self@.peers[#[trigger] ds@[i].peer]
                    == propagate_peer(mv, intent, ds@[i].allowed@, ds@[i].allowed_again@, old_peers[ds@[i].peer]).0 by {
                    if i < j {
                        assert(dv[i] == ds@[i]@);
                        assert(ids[i] == ds@[i].peer);
                        assert(ids.no_duplicates());
                        assert(ids[i] != ids[j as int]);
                    }
                }
            }
            j = j + 1;
        }
        proof {
            assert(dv.take(ds@.len() as int) =~= dv);
            assert(self@.peers.dom() =~= old_peers.dom());
        }
        sends
    }
}

} // verus!

verus! {

/// The intent of a broadcast, forced or not.
pub open spec fn broadcast_intent(force: bool) -> MessageIntent {
    if force { MessageIntent::ForcedBroadcast } else { MessageIntent::Broadcast }
}

impl ConsensusGossip {
    /// Sends the kept messages under a topic to peer `who`: unless `force`,
    /// those the peer knows are skipped; the others go when the validator
    /// allows them (`allowed[k]` answers for the `k`-th kept message under
    /// the topic) and the peer is then known to have them. Nothing happens
    /// for an unregistered peer. Returns the messages to send.
    pub fn send_topic(&mut self, who: u64, topic: [u8; 32], force: bool, allowed: &Vec<bool>) -> (r: Vec<Vec<u8>>)
        requires
            allowed@.len() >= candidates(old(self)@.messages, Some(topic)).len(),
        ensures
            ({
                let (known, sent) = propagate_peer(candidates(old(self)@.messages, Some(topic)), broadcast_intent(force),
                    allowed@, allowed@, old(self)@.peers[who]);
                if old(self)@.peers.contains_key(who) {
                    &&& r@.map_values(|m: Vec<u8>| m@) == sent
                    &&& final(self)@ == (GossipView { peers: old(self)@.peers.insert(who, known), ..old(self)@ })
                } else {
                    r@.len() == 0 && final(self)@ == old(self)@
                }
            }),
    {
        if !self.peers.contains_key(&who) {
            return Vec::new();
        }
        let msgs = self.kept(Some(topic));
        let intent = if force { MessageIntent::ForcedBroadcast } else { MessageIntent::Broadcast };
        let ghost cur = self@.peers;
        let mut known = self.peers.remove(&who).unwrap();
        let out = propagate_to_peer(&mut known, &msgs, intent, allowed, allowed);
        let ghost new_known = known@.dom();
        self.peers.insert(who, known);
        assert(self@.peers =~= cur.insert(who, new_known));
        out
    }

    /// Broadcasts the kept messages under a topic to every registered peer,
    /// as `propagate` does with the broadcast intent (forced or not).
    pub fn broadcast_topic(&mut self, topic: [u8; 32], force: bool, ds: &Vec<PeerAllowance>) -> (r: Vec<(u64, Vec<u8>)>)
        requires
            covers(ds@.map_values(|d: PeerAllowance| d@), old(self)@.peers.dom(), candidates(old(self)@.messages, Some(topic)).len()),
        ensures
            r@.map_values(|s: (u64, Vec<u8>)| (s.0, s.1@)) == propagate_sends(ds@.map_values(|d: PeerAllowance| d@),
                candidates(old(self)@.messages, Some(topic)), broadcast_intent(force), old(self)@.peers),
            final(self)@.peers.dom() == old(self)@.peers.dom(),
            forall|i: int| 0 <= i < ds@.len() ==> final(self)@.peers[#[trigger] ds@[i].peer]
                == propagate_peer(candidates(old(self)@.messages, Some(topic)), broadcast_intent(force),
                    ds@[i].allowed@, ds@[i].allowed_again@, old(self)@.peers[ds@[i].peer]).0,
            final(self)@.messages == old(self)@.messages,
            final(self)@.known == old(self)@.known,
            final(self)@.known_cap == old(self)@.known_cap,
    {
        let msgs = self.kept(Some(topic));
        let intent = if force { MessageIntent::ForcedBroadcast } else { MessageIntent::Broadcast };
        self.propagate(&msgs, intent, ds)
    }

    /// Rebroadcasts every kept message to every registered peer, as
    /// `propagate` does with the periodic rebroadcast intent.
    pub fn rebroadcast(&mut self, ds: &Vec<PeerAllowance>) -> (r: Vec<(u64, Vec<u8>)>)
        requires
            covers(ds@.map_values(|d: PeerAllowance| d@), old(self)@.peers.dom(), old(self)@.messages.len()),
        ensures
            r@.map_values(|s: (u64, Vec<u8>)| (s.0, s.1@)) == propagate_sends(ds@.map_values(|d: PeerAllowance| d@),
                candidates(old(self)@.messages, None), MessageIntent::PeriodicRebroadcast, old(self)@.peers),
            final(self)@.peers.dom() == old(self)@.peers.dom(),
            forall|i: int| 0 <= i < ds@.len() ==> final(self)@.peers[#[trigger] ds@[i].peer]
                == propagate_peer(candidates(old(self)@.messages, None), MessageIntent::PeriodicRebroadcast,
                    ds@[i].allowed@, ds@[i].allowed_again@, old(self)@.peers[ds@[i].peer]).0,
            final(self)@.messages == old(self)@.messages,
            final(self)@.known == old(self)@.known,
            final(self)@.known_cap == old(self)@.known_cap,
    {
        proof {
            lemma_candidates_all(self@.messages);
        }
        let msgs = self.kept(None);
        self.propagate(&msgs, MessageIntent::PeriodicRebroadcast, ds)
    }

    /// Keeps a message for gossiping (as `register_message` does) and
    /// broadcasts it to every registered peer, as `propagate` does with the
    /// broadcast intent (forced or not).
    pub fn multicast(&mut self, topic: [u8; 32], message: Vec<u8>, force: bool, ds: &Vec<PeerAllowance>) -> (r: Vec<(u64, Vec<u8>)>)
        requires
            old(self)@.wf(),
            covers(ds@.map_values(|d: PeerAllowance| d@), old(self)@.peers.dom(), 1),
        ensures
            final(self)@.wf(),
            exists|h: [u8; 32]| h@ == crate::accounts::blake2b_256(message@) && {
                let registered = old(self)@.register(h, topic, message@, None);
                let msgs = seq![(h, message@)];
                &&& final(self)@.messages == registered.messages
                &&& final(self)@.known == registered.known
                &&& final(self)@.known_cap == old(self)@.known_cap
                &&& final(self)@.peers.dom() == old(self)@.peers.dom()
                &&& forall|i: int| 0 <= i < ds@.len() ==> final(self)@.peers[#[trigger] ds@[i].peer]
                    == propagate_peer(msgs, broadcast_intent(force), ds@[i].allowed@, ds@[i].allowed_again@, old(self)@.peers[ds@[i].peer]).0
                &&& r@.map_values(|s: (u64, Vec<u8>)| (s.0, s.1@))
                    == propagate_sends(ds@.map_values(|d: PeerAllowance| d@), msgs, broadcast_intent(force), old(self)@.peers)
            },
    {
        let h = message_hash(&message);
        let ghost m = message@;
        self.register_message_hashed(h, topic, message.clone(), None);
        let mut msgs: Vec<([u8; 32], Vec<u8>)> = Vec::new();
        msgs.push((h, message));
        assert(msgs_view(msgs@) =~= seq![(h, m)]);
        let intent = if force { MessageIntent::ForcedBroadcast } else { MessageIntent::Broadcast };
        self.propagate(&msgs, intent, ds)
    }
}

/// Without a topic, the candidates are all the kept messages.
proof fn lemma_candidates_all(messages: Seq<MessageView>)
    ensures
        candidates(messages, None).len() == messages.len(),
    decreases messages.len(),
{
    if messages.len() > 0 {
        lemma_candidates_all(messages.drop_last());
    }
}

} // verus!

verus! {

/// Propagating to a peer only adds to what it is known to have, and only
/// hashes of the propagated messages.
pub proof fn lemma_propagate_grows_known(msgs: Seq<([u8; 32], Seq<u8>)>, intent: MessageIntent, allowed: Seq<bool>, allowed_again: Seq<bool>, known: Set<[u8; 32]>)
    ensures
        known.subset_of(propagate_peer(msgs, intent, allowed, allowed_again, known).0),
        forall|h: [u8; 32]| #[trigger] propagate_peer(msgs, intent, allowed, allowed_again, known).0.contains(h)
            ==> known.contains(h) || exists|i: int| 0 <= i < msgs.len() && msgs[i].0 == h,
    decreases msgs.len(),
{
    if msgs.len() > 0 {
        let prefix = msgs.drop_last();
        lemma_propagate_grows_known(prefix, intent, allowed, allowed_again, known);
        assert forall|h: [u8; 32]| #[trigger] propagate_peer(msgs, intent, allowed, allowed_again, known).0.contains(h)
            implies known.contains(h) || exists|i: int| 0 <= i < msgs.len() && msgs[i].0 == h by {
            if propagate_peer(prefix, intent, allowed, allowed_again, known).0.contains(h) {
                if !known.contains(h) {
                    let i = choose|i: int| 0 <= i < prefix.len() && prefix[i].0 == h;
                    assert(msgs[i] == prefix[i]);
                }
            } else {
                assert(msgs[msgs.len() - 1] == msgs.last());
            }
        }
    }
}

/// A broadcast that is not forced sends a peer nothing it is known to have
/// already.
pub proof fn lemma_broadcast_skips_known(msgs: Seq<([u8; 32], Seq<u8>)>, allowed: Seq<bool>, allowed_again: Seq<bool>, known: Set<[u8; 32]>)
    requires
        forall|i: int| 0 <= i < msgs.len() ==> known.contains(#[trigger] msgs[i].0),
    ensures
        propagate_peer(msgs, MessageIntent::Broadcast, allowed, allowed_again, known).1.len() == 0,
        propagate_peer(msgs, MessageIntent::Broadcast, allowed, allowed_again, known).0 == known,
    decreases msgs.len(),
{
    if msgs.len() > 0 {
        let prefix = msgs.drop_last();
        assert forall|i: int| 0 <= i < prefix.len() implies known.contains(#[trigger] prefix[i].0) by {
            assert(prefix[i] == msgs[i]);
        }
        lemma_broadcast_skips_known(prefix, allowed, allowed_again, known);
        assert(msgs[msgs.len() - 1] == msgs.last());
    }
}

/// Whether a kept message is under a topic.
pub open spec fn under_topic(topic: [u8; 32]) -> spec_fn(MessageView) -> bool {
    |m: MessageView| m.topic == topic
}

/// The messages handed to the subscribers of a topic are the kept messages
/// under that topic, in the order they were kept, each with its sender,
/// whoever sent it.
pub proof fn lemma_messages_under_are_all_kept_under_topic(messages: Seq<MessageView>, topic: [u8; 32])
    ensures
        messages_under(messages, topic)
            == messages.filter(under_topic(topic)).map_values(|m: MessageView| (m.message, m.sender)),
        forall|i: int| 0 <= i < messages.len() && (#[trigger] messages[i]).topic == topic ==>
            messages_under(messages, topic).contains((messages[i].message, messages[i].sender)),
    decreases messages.len(),
{
    reveal(Seq::filter);
    if messages.len() > 0 {
        let prev = messages.drop_last();
        lemma_messages_under_are_all_kept_under_topic(prev, topic);
        let f = messages.filter(under_topic(topic));
        let fp = prev.filter(under_topic(topic));
        if messages.last().topic == topic {
            assert(f == fp.push(messages.last()));
            assert(f.map_values(|m: MessageView| (m.message, m.sender))
                =~= fp.map_values(|m: MessageView| (m.message, m.sender)).push((messages.last().message, messages.last().sender)));
        } else {
            assert(f == fp);
        }
        assert forall|i: int| 0 <= i < messages.len() && (#[trigger] messages[i]).topic == topic implies
            messages_under(messages, topic).contains((messages[i].message, messages[i].sender)) by {
            let r = messages_under(messages, topic);
            let rp = messages_under(prev, topic);
            if i < messages.len() - 1 {
                assert(prev[i] == messages[i]);
                let k = choose|k: int| 0 <= k < rp.len() && rp[k] == (prev[i].message, prev[i].sender);
                assert(r[k] == rp[k]);
            } else {
                assert(r[r.len() - 1] == (messages[i].message, messages[i].sender));
            }
        }
    }
}

/// A new message that a registered peer sends, and that the validator
/// keeps under a topic, is handed to that topic's subscribers with the peer
/// as its sender.
pub proof fn lemma_validated_message_reaches_topic(
    s: GossipView,
    who: u64,
    message_hash: [u8; 32],
    topic: [u8; 32],
    message: Seq<u8>,
)
    requires
        s.peers.contains_key(who),
        !s.known.contains(message_hash),
    ensures
        messages_under(s.peer_knows(who, message_hash).register(message_hash, topic, message, Some(who)).messages, topic)
            .contains((message, Some(who))),
{
    let n = s.peer_knows(who, message_hash).register(message_hash, topic, message, Some(who));
    assert(n.messages == s.messages.push(MessageView { message_hash, topic, message, sender: Some(who) }));
    lemma_messages_under_are_all_kept_under_topic(n.messages, topic);
    assert(n.messages[n.messages.len() - 1].topic == topic);
}

/// Garbage collection keeps exactly the messages not expired, in order:
/// each one not expired stays, each one kept was not expired, and none is
/// dropped when none expired.
pub proof fn lemma_unexpired_keeps_exactly_live(messages: Seq<MessageView>, expired: Seq<bool>)
    requires
        messages.len() == expired.len(),
    ensures
        forall|i: int| 0 <= i < messages.len() && !expired[i] ==> unexpired(messages, expired).contains(#[trigger] messages[i]),
        forall|j: int| 0 <= j < unexpired(messages, expired).len() ==>
            exists|i: int| 0 <= i < messages.len() && !expired[i] && messages[i] == #[trigger] unexpired(messages, expired)[j],
        unexpired(messages, expired).len() <= messages.len(),
        (forall|i: int| 0 <= i < expired.len() ==> !expired[i]) ==> unexpired(messages, expired) == messages,
    decreases messages.len(),
{
    if messages.len() > 0 {
        let pm = messages.drop_last();
        let pe = expired.drop_last();
        lemma_unexpired_keeps_exactly_live(pm, pe);
        let r = unexpired(messages, expired);
        let rp = unexpired(pm, pe);
        let n = messages.len() - 1;
        assert forall|i: int| 0 <= i < messages.len() && !expired[i] implies r.contains(#[trigger] messages[i]) by {
            if i < n {
                assert(pm[i] == messages[i] && pe[i] == expired[i]);
                let k = choose|k: int| 0 <= k < rp.len() && rp[k] == pm[i];
                assert(r[k] == rp[k]);
            } else {
                assert(r[r.len() - 1] == messages[i]);
            }
        }
        assert forall|j: int| 0 <= j < r.len() implies
            exists|i: int| 0 <= i < messages.len() && !expired[i] && messages[i] == #[trigger] r[j] by {
            if j < rp.len() {
                assert(r[j] == rp[j]);
                let i = choose|i: int| 0 <= i < pm.len() && !pe[i] && pm[i] == rp[j];
                assert(messages[i] == pm[i] && expired[i] == pe[i]);
            } else {
                assert(!expired[n] && messages[n] == r[j]);
            }
        }
        if forall|i: int| 0 <= i < expired.len() ==> !expired[i] {
            assert forall|i: int| 0 <= i < pe.len() implies !pe[i] by {
                assert(pe[i] == expired[i]);
            }
            assert(!expired[n]);
            assert(r =~= messages);
        }
    }
}

} // verus!
