//! The items of a block header's digest, as far as the node's decisions
//! read them.

use vstd::prelude::*;

verus! {

/// A consensus engine id.
pub type ConsensusEngineId = [u8; 4];

/// The engine id of AURA.
pub const AURA_ENGINE_ID: ConsensusEngineId = [97, 117, 114, 97];

/// The engine id of BABE.
pub const BABE_ENGINE_ID: ConsensusEngineId = [98, 97, 98, 101];

/// Whether two engine ids are equal.
pub fn engine_id_eq(a: &ConsensusEngineId, b: &ConsensusEngineId) -> (r: bool)
    ensures
        r == (*a == *b),
{
    let r = a[0] == b[0] && a[1] == b[1] && a[2] == b[2] && a[3] == b[3];
    proof {
        if r {
            assert(*a =~= *b);
        }
    }
    r
}

/// An item of a header's digest.
#[derive(Clone, Debug)]
pub enum DigestItem {
    /// A message from the runtime to the consensus engine, before the
    /// runtime ran.
    PreRuntime(ConsensusEngineId, Vec<u8>),
    /// A message from the runtime to the consensus engine.
    Consensus(ConsensusEngineId, Vec<u8>),
    /// A seal of the block.
    Seal(ConsensusEngineId, Vec<u8>),
    /// The root of the changes trie.
    ChangesTrieRoot([u8; 32]),
    /// A signal about changes tries.
    ChangesTrieSignal(ChangesTrieSignal),
    /// Anything else.
    Other(Vec<u8>),
}

/// The configuration of changes tries.
#[derive(Clone, Copy, Debug, PartialEq, Eq, Structural)]
pub struct ChangesTrieConfiguration {
    /// The interval, in blocks, between digest blocks.
    pub digest_interval: u32,
    /// The number of digest levels.
    pub digest_levels: u32,
}

/// A signal about changes tries.
#[derive(Clone, Copy, Debug)]
pub enum ChangesTrieSignal {
    /// A new configuration from the next block on; `None` disables changes
    /// tries.
    NewConfiguration(Option<ChangesTrieConfiguration>),
}

/// The data of a consensus message of the engine `id`, if the item is one.
pub open spec fn consensus_of(item: DigestItem, id: ConsensusEngineId) -> Option<Seq<u8>> {
    match item {
        DigestItem::Consensus(e, data) => if e == id { Some(data@) } else { None },
        _ => None,
    }
}

/// The new changes trie configuration that a digest signals: that of its
/// first changes trie signal, if any.
pub open spec fn new_configuration_of(digest: Seq<DigestItem>) -> Option<Option<ChangesTrieConfiguration>>
    decreases digest.len(),
{
    if digest.len() == 0 {
        None
    } else {
        match digest[0] {
            DigestItem::ChangesTrieSignal(ChangesTrieSignal::NewConfiguration(c)) => Some(c),
            _ => new_configuration_of(digest.subrange(1, digest.len() as int)),
        }
    }
}

/// The new changes trie configuration that a header's digest signals, as
/// `new_configuration_of` says.
pub fn extract_new_configuration(digest: &Vec<DigestItem>) -> (r: Option<Option<ChangesTrieConfiguration>>)
    ensures
        r == new_configuration_of(digest@),
{
    let mut i: usize = 0;
    assert(digest@.subrange(0, digest@.len() as int) =~= digest@);
    while i < digest.len()
        invariant
            i <= digest@.len(),
            new_configuration_of(digest@) == new_configuration_of(digest@.subrange(i as int, digest@.len() as int)),
        decreases digest@.len() - i,
    {
        let ghost rest = digest@.subrange(i as int, digest@.len() as int);
        assert(rest[0] == digest@[i as int]);
        assert(rest.subrange(1, rest.len() as int) =~= digest@.subrange(i as int + 1, digest@.len() as int));
        match &digest[i] {
            DigestItem::ChangesTrieSignal(ChangesTrieSignal::NewConfiguration(c)) => {
                return Some(*c);
            },
            _ => {},
        }
        i = i + 1;
    }
    None
}

} // verus!
