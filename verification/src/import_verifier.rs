//! What the import verifiers of the archive node and of manual sealing
//! decide about an incoming block, and how the manual sealing task turns
//! commands into work.
//!
//! Building the import parameters, sealing and finalizing blocks stay with
//! the caller; the decisions are made here.

use vstd::prelude::*;
use crate::digest::{consensus_of, engine_id_eq, ConsensusEngineId, DigestItem, AURA_ENGINE_ID, BABE_ENGINE_ID};

verus! {

/// The engine id of manual sealing.
pub const MANUAL_SEAL_ENGINE_ID: ConsensusEngineId = [109, 97, 110, 108];

/// The cache key under which the authorities are cached.
pub const AUTHORITIES_CACHE_KEY: [u8; 4] = [97, 117, 116, 104];

/// How the best chain is chosen once a block is imported.
#[derive(Clone, Copy, Debug, PartialEq, Eq, Structural)]
pub enum ForkChoiceStrategy {
    /// The longest chain is the best.
    LongestChain,
    /// The block is the new best, or not.
    Custom(bool),
}

/// What a verifier decides about an incoming block.
#[derive(Debug)]
pub struct ImportDecision {
    /// Whether the block is imported as finalized.
    pub finalized: bool,
    /// How the best chain is chosen.
    pub fork_choice: ForkChoiceStrategy,
    /// The data to cache under the authorities key, when the header
    /// carries authorities for AURA or BABE.
    pub authorities: Option<Vec<u8>>,
}

/// The data of the first digest item that is a consensus message of AURA
/// or of BABE (AURA first within an item).
pub open spec fn first_authorities(digest: Seq<DigestItem>) -> Option<Seq<u8>>
    decreases digest.len(),
{
    if digest.len() == 0 {
        None
    } else {
        let item = digest[0];
        match consensus_of(item, AURA_ENGINE_ID) {
            Some(d) => Some(d),
            None => match consensus_of(item, BABE_ENGINE_ID) {
                Some(d) => Some(d),
                None => first_authorities(digest.subrange(1, digest.len() as int)),
            },
        }
    }
}

/// The verifier of the archive node: it lets every block through, as
/// finalized or not, with the longest chain rule.
#[derive(Clone, Copy, Debug)]
pub struct PassThroughVerifier {
    /// Whether blocks are imported as finalized.
    pub finalized: bool,
    /// How the best chain is chosen.
    pub fork_choice: ForkChoiceStrategy,
}

impl PassThroughVerifier {
    /// A verifier importing blocks as finalized or not, with the longest
    /// chain rule.
    pub fn new(finalized: bool) -> (r: Self)
        ensures
            r.finalized == finalized,
            r.fork_choice == ForkChoiceStrategy::LongestChain,
    {
        PassThroughVerifier { finalized, fork_choice: ForkChoiceStrategy::LongestChain }
    }

    /// What becomes of a block with this digest: imported as the verifier
    /// says, caching the authorities that the first AURA or BABE consensus
    /// message of the digest carries.
    pub fn verify(&self, digest: &Vec<DigestItem>) -> (r: ImportDecision)
        ensures
            r.finalized == self.finalized,
            r.fork_choice == self.fork_choice,
            match (r.authorities, first_authorities(digest@)) {
                (Some(a), Some(b)) => a@ == b,
                (None, None) => true,
                _ => false,
            },
    {
        ImportDecision { finalized: self.finalized, fork_choice: self.fork_choice, authorities: find_authorities(digest) }
    }
}

/// The data of the first digest item that is a consensus message of AURA
/// or of BABE.
pub fn find_authorities(digest: &Vec<DigestItem>) -> (r: Option<Vec<u8>>)
    ensures
        match (r, first_authorities(digest@)) {
            (Some(a), Some(b)) => a@ == b,
            (None, None) => true,
            _ => false,
        },
{
    let mut i: usize = 0;
    assert(digest@.subrange(0, digest@.len() as int) =~= digest@);
    while i < digest.len()
        invariant
            i <= digest@.len(),
            first_authorities(digest@) == first_authorities(digest@.subrange(i as int, digest@.len() as int)),
        decreases digest@.len() - i,
    {
        let ghost rest = digest@.subrange(i as int, digest@.len() as int);
        assert(rest[0] == digest@[i as int]);
        assert(rest.subrange(1, rest.len() as int) =~= digest@.subrange(i as int + 1, digest@.len() as int));
        match &digest[i] {
            DigestItem::Consensus(e, data) => {
                if engine_id_eq(e, &AURA_ENGINE_ID) || engine_id_eq(e, &BABE_ENGINE_ID) {
                    return Some(data.clone());
                }
            },
            _ => {},
        }
        i = i + 1;
    }
    None
}

/// The verifier of manual sealing: blocks are imported unfinalized, with
/// the longest chain rule, and nothing is cached.
pub fn manual_seal_verify() -> (r: ImportDecision)
    ensures
        !r.finalized,
        r.fork_choice == ForkChoiceStrategy::LongestChain,
        r.authorities is None,
{
    ImportDecision { finalized: false, fork_choice: ForkChoiceStrategy::LongestChain, authorities: None }
}

/// A command to the manual sealing task; a reply channel is known by an id
/// the caller gives it.
#[derive(Debug)]
pub enum EngineCommand {
    /// Seal a new block.
    SealNewBlock {
        /// Whether to seal a block without transactions.
        create_empty: bool,
        /// Whether to finalize the block at once.
        finalize: bool,
        /// The parent, the best block when none.
        parent_hash: Option<[u8; 32]>,
        /// Where to reply.
        sender: Option<u64>,
    },
    /// Finalize a block.
    FinalizeBlock {
        /// The block.
        hash: [u8; 32],
        /// Where to reply.
        sender: Option<u64>,
        /// A justification to keep with it.
        justification: Option<Vec<u8>>,
    },
}

/// What the manual sealing task does for a command.
#[derive(Debug)]
pub enum SealWork {
    /// Seal a block, as the command says.
    Seal { create_empty: bool, finalize: bool, parent_hash: Option<[u8; 32]>, sender: Option<u64> },
    /// Finalize a block, with the justification tagged as manual sealing's.
    Finalize { hash: [u8; 32], sender: Option<u64>, justification: Option<(ConsensusEngineId, Vec<u8>)> },
}

/// What the manual sealing task does for a command: sealing goes on as
/// asked; a justification given with a finalization is tagged with the
/// manual sealing engine id.
pub fn seal_work(command: EngineCommand) -> (r: SealWork)
    ensures
        match command {
            EngineCommand::SealNewBlock { create_empty, finalize, parent_hash, sender } =>
                r matches SealWork::Seal { create_empty: c, finalize: f, parent_hash: p, sender: s }
                    && c == create_empty && f == finalize && p == parent_hash && s == sender,
            EngineCommand::FinalizeBlock { hash, sender, justification } =>
                r matches SealWork::Finalize { hash: h, sender: s, justification: j } && h == hash && s == sender
                    && match (j, justification) {
                        (Some((id, a)), Some(b)) => id == MANUAL_SEAL_ENGINE_ID && a@ == b@,
                        (None, None) => true,
                        _ => false,
                    },
        },
{
    match command {
        EngineCommand::SealNewBlock { create_empty, finalize, parent_hash, sender } =>
            SealWork::Seal { create_empty, finalize, parent_hash, sender },
        EngineCommand::FinalizeBlock { hash, sender, justification } => {
            let justification = match justification {
                Some(j) => Some((MANUAL_SEAL_ENGINE_ID, j)),
                None => None,
            };
            SealWork::Finalize { hash, sender, justification }
        },
    }
}

/// The command that instant sealing issues for each transaction imported
/// into the pool: seal a block with transactions on the best block,
/// unfinalized, with no one to reply to.
pub fn instant_seal_command() -> (r: EngineCommand)
    ensures
        r matches EngineCommand::SealNewBlock { create_empty, finalize, parent_hash, sender }
            && !create_empty && !finalize && parent_hash is None && sender is None,
{
    EngineCommand::SealNewBlock { create_empty: false, finalize: false, parent_hash: None, sender: None }
}

} // verus!
