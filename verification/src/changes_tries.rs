//! The decisions of the database-backed changes tries storage: which
//! changes tries are pruned when a block is finalized, how the pruning
//! metadata moves, what a commit does to the configuration cache, and how
//! the block whose changes trie root is asked for is found.
//!
//! The database reads and writes stay with the caller: each step here says
//! what to read or remove next, and takes what was read.

use vstd::prelude::*;
use crate::list_cache::EntryType;
use crate::digest::ChangesTrieConfiguration;
use crate::scale::{encode_option_pair, option_pair_encoding};

verus! {

/// The changes tries metadata kept in the database.
#[derive(Clone, Copy, Debug)]
pub struct ChangesTriesMeta {
    /// The oldest unpruned max-level digest range, both ends included; not
    /// known before the first finalization, while changes tries are
    /// disabled, or when pruning is off.
    pub oldest_digest_range: Option<(u64, u64)>,
    /// The end of the last pruned max-level digest range: no changes trie
    /// is kept up to this block.
    pub oldest_pruned_digest_range_end: u64,
}

impl ChangesTriesMeta {
    /// The metadata of a database that holds none yet.
    pub fn empty() -> (r: ChangesTriesMeta)
        ensures
            r.oldest_digest_range is None,
            r.oldest_pruned_digest_range_end == 0,
    {
        ChangesTriesMeta { oldest_digest_range: None, oldest_pruned_digest_range_end: 0 }
    }
}

/// Where a pruning pass stands: the metadata as updated so far, and the
/// first block of the next configuration range to look at.
#[derive(Clone, Copy, Debug)]
pub struct PruneProgress {
    /// The metadata as updated so far.
    pub meta: ChangesTriesMeta,
    /// The first block of the next digest range to look at.
    pub next_start: u64,
}

/// What a pruning pass asks for next.
#[derive(Clone, Copy, Debug, PartialEq, Eq, Structural)]
pub enum PruneAction {
    /// Remove the changes tries of the digest range `begin..=end`, anchored
    /// at the block being finalized, then look up the configuration in
    /// force at the new `next_start`.
    Prune { begin: u64, end: u64 },
    /// Look up the configuration in force at `next_start`.
    Lookup,
    /// Write the metadata: the pass is over.
    Finish,
}

/// A changes tries configuration in force at a block, as far as pruning
/// needs it.
#[derive(Clone, Copy, Debug)]
pub struct ConfigAt {
    /// The max-level digest range that the configuration gives for the
    /// block, counted from the configuration's zero block; none when it
    /// builds no digests.
    pub max_level_range: Option<(u64, u64)>,
    /// The last block of the configuration's range, when a later
    /// configuration replaced it.
    pub end: Option<u64>,
}

/// Where the configuration for the next digest range is looked up.
#[derive(Clone, Copy, Debug, PartialEq, Eq, Structural)]
pub enum ConfigSource {
    /// The configuration that the block being committed brings in; its
    /// range starts at the finalized block.
    Pending,
    /// The configuration at the parent of the new header.
    ParentOfNewHeader,
    /// The configuration at the block being finalized.
    FinalizedBlock,
    /// The configuration at the canonical block with this number, whose
    /// header is read first.
    CanonicalBlock(u64),
}

/// The state a pruning pass starts from: the stored metadata, looking at
/// the finalized block first. `None` when pruning is off (archive nodes):
/// nothing is pruned and nothing is written.
pub open spec fn prune_start_spec(meta: ChangesTriesMeta, block_num: u64, min_blocks_to_keep: Option<u32>) -> Option<PruneProgress> {
    match min_blocks_to_keep {
        Some(_) => Some(PruneProgress { meta, next_start: block_num }),
        None => None,
    }
}

/// Starts a pruning pass at the finalized block `block_num`.
pub fn prune_start(meta: ChangesTriesMeta, block_num: u64, min_blocks_to_keep: Option<u32>) -> (r: Option<PruneProgress>)
    ensures
        r == prune_start_spec(meta, block_num, min_blocks_to_keep),
{
    match min_blocks_to_keep {
        Some(_) => Some(PruneProgress { meta, next_start: block_num }),
        None => None,
    }
}

/// Whether the digest range ending at `end` is still to be kept when
/// `block_num` is finalized: it is not older than `min_blocks_to_keep`
/// blocks.
pub open spec fn range_kept(block_num: u64, min_blocks_to_keep: u32, end: u64) -> bool {
    block_num <= end || block_num - end <= min_blocks_to_keep
}

/// One turn of the pruning loop: when the oldest digest range is known
/// and old enough, it is pruned and the pass moves past it; when it is
/// known and recent, the pass is over; when it is not known, the
/// configuration at `next_start` is looked up.
pub open spec fn prune_check_spec(block_num: u64, min_blocks_to_keep: u32, p: PruneProgress) -> (PruneProgress, PruneAction) {
    match p.meta.oldest_digest_range {
        Some((begin, end)) => if range_kept(block_num, min_blocks_to_keep, end) {
            (p, PruneAction::Finish)
        } else {
            (PruneProgress {
                meta: ChangesTriesMeta { oldest_pruned_digest_range_end: end, ..p.meta },
                next_start: (end + 1) as u64,
            }, PruneAction::Prune { begin, end })
        },
        None => (p, PruneAction::Lookup),
    }
}

/// One turn of the pruning loop, as `prune_check_spec` says.
pub fn prune_check(block_num: u64, min_blocks_to_keep: u32, p: PruneProgress) -> (r: (PruneProgress, PruneAction))
    ensures
        r == prune_check_spec(block_num, min_blocks_to_keep, p),
        r.1 matches PruneAction::Prune { begin, end } ==> end + min_blocks_to_keep < block_num && r.0.next_start <= block_num,
{
    match p.meta.oldest_digest_range {
        Some((begin, end)) => {
            if block_num <= end || block_num - end <= min_blocks_to_keep as u64 {
                (p, PruneAction::Finish)
            } else {
                let meta = ChangesTriesMeta { oldest_pruned_digest_range_end: end, ..p.meta };
                (PruneProgress { meta, next_start: end + 1 }, PruneAction::Prune { begin, end })
            }
        },
        None => (p, PruneAction::Lookup),
    }
}

/// Where the configuration for the range starting at `next_start` is
/// looked up: a configuration that the new header brings in counts when
/// the new header is that block; the finalized block's hash is at hand;
/// any other block is found by number.
pub open spec fn config_source_spec(block_num: u64, next_start: u64, new_header_number: Option<u64>, pending_config: bool) -> ConfigSource {
    let for_new_block = match new_header_number {
        Some(n) => n == next_start,
        None => false,
    };
    if for_new_block && pending_config {
        ConfigSource::Pending
    } else if for_new_block {
        ConfigSource::ParentOfNewHeader
    } else if block_num == next_start {
        ConfigSource::FinalizedBlock
    } else {
        ConfigSource::CanonicalBlock(next_start)
    }
}

/// Where the configuration for the range starting at `next_start` is
/// looked up, as `config_source_spec` says. `pending_config` tells whether
/// the transaction being committed brings in a new configuration.
pub fn config_source(block_num: u64, next_start: u64, new_header_number: Option<u64>, pending_config: bool) -> (r: ConfigSource)
    ensures
        r == config_source_spec(block_num, next_start, new_header_number, pending_config),
{
    let for_new_block = match new_header_number {
        Some(n) => n == next_start,
        None => false,
    };
    if for_new_block && pending_config {
        ConfigSource::Pending
    } else if for_new_block {
        ConfigSource::ParentOfNewHeader
    } else if block_num == next_start {
        ConfigSource::FinalizedBlock
    } else {
        ConfigSource::CanonicalBlock(next_start)
    }
}

/// The oldest digest range that a configuration gives from `next_start`:
/// its max-level range (or the block alone when it builds no digests),
/// cut at the configuration's own end.
pub open spec fn digest_range_from(next_start: u64, c: ConfigAt) -> (u64, u64) {
    let r = match c.max_level_range {
        Some(r) => r,
        None => (next_start, next_start),
    };
    match c.end {
        Some(e) => if e < r.1 { (r.0, e) } else { r },
        None => r,
    }
}

/// What the looked-up configuration does to the pass: with changes tries
/// enabled, the oldest digest range becomes the one it gives and the loop
/// goes on (`true`); with them disabled, the oldest range is unknown and
/// the pass is over (`false`).
pub open spec fn prune_on_config_spec(p: PruneProgress, config: Option<ConfigAt>) -> (PruneProgress, bool) {
    match config {
        Some(c) => (PruneProgress {
            meta: ChangesTriesMeta { oldest_digest_range: Some(digest_range_from(p.next_start, c)), ..p.meta },
            ..p
        }, true),
        None => (PruneProgress { meta: ChangesTriesMeta { oldest_digest_range: None, ..p.meta }, ..p }, false),
    }
}

/// Takes the configuration looked up for `next_start` (`None` when changes
/// tries are disabled there), as `prune_on_config_spec` says.
pub fn prune_on_config(p: PruneProgress, config: Option<ConfigAt>) -> (r: (PruneProgress, bool))
    ensures
        r == prune_on_config_spec(p, config),
{
    match config {
        Some(c) => {
            let mut range = match c.max_level_range {
                Some(r) => r,
                None => (p.next_start, p.next_start),
            };
            match c.end {
                Some(e) => {
                    if e < range.1 {
                        range.1 = e;
                    }
                },
                None => {},
            }
            let meta = ChangesTriesMeta { oldest_digest_range: Some(range), ..p.meta };
            (PruneProgress { meta, ..p }, true)
        },
        None => {
            let meta = ChangesTriesMeta { oldest_digest_range: None, ..p.meta };
            (PruneProgress { meta, ..p }, false)
        },
    }
}

/// A pass in order: the end of the last pruned range is not past the block
/// looked at next, nor past the end of the oldest range known.
pub open spec fn prune_ordered(p: PruneProgress) -> bool {
    &&& p.meta.oldest_pruned_digest_range_end <= p.next_start
    &&& (p.meta.oldest_digest_range matches Some((_, end)) ==> p.meta.oldest_pruned_digest_range_end <= end)
}

/// A configuration looked up for `next_start` whose digest range and whose
/// own range both reach that block.
pub open spec fn config_reaches(next_start: u64, c: ConfigAt) -> bool {
    &&& (c.max_level_range matches Some((_, end)) ==> next_start <= end)
    &&& (c.end matches Some(e) ==> next_start <= e)
}

/// A turn of the pruning loop never moves the end of the pruned ranges
/// back, and keeps the pass in order.
pub proof fn lemma_prune_check_keeps_order(block_num: u64, min_blocks_to_keep: u32, p: PruneProgress)
    requires
        prune_ordered(p),
    ensures
        prune_ordered(prune_check_spec(block_num, min_blocks_to_keep, p).0),
        p.meta.oldest_pruned_digest_range_end
            <= prune_check_spec(block_num, min_blocks_to_keep, p).0.meta.oldest_pruned_digest_range_end,
{
}

/// Taking a looked-up configuration that reaches the block looked at
/// leaves the end of the pruned ranges where it was, and keeps the pass
/// in order.
pub proof fn lemma_prune_on_config_keeps_order(p: PruneProgress, config: Option<ConfigAt>)
    requires
        prune_ordered(p),
        config matches Some(c) ==> config_reaches(p.next_start, c),
    ensures
        prune_ordered(prune_on_config_spec(p, config).0),
        prune_on_config_spec(p, config).0.meta.oldest_pruned_digest_range_end == p.meta.oldest_pruned_digest_range_end,
{
}

/// A whole pruning pass from `p`, with `configs` the configurations looked
/// up in turn: each turn checks the oldest range (pruning it when old
/// enough), stops on `Finish`, and otherwise takes the next configuration,
/// stopping when changes tries are disabled there. Gives where the pass
/// ends (or stands, when fewer configurations were looked up) and the
/// ranges pruned, in order.
pub open spec fn prune_pass(block_num: u64, min_blocks_to_keep: u32, p: PruneProgress, configs: Seq<Option<ConfigAt>>) -> (PruneProgress, Seq<(u64, u64)>)
    decreases configs.len(),
{
    let (q, action) = prune_check_spec(block_num, min_blocks_to_keep, p);
    let pruned = match action {
        PruneAction::Prune { begin, end } => seq![(begin, end)],
        _ => Seq::empty(),
    };
    if action is Finish || configs.len() == 0 {
        (q, pruned)
    } else {
        let (r, go_on) = prune_on_config_spec(q, configs[0]);
        if !go_on {
            (r, pruned)
        } else {
            let (f, rest) = prune_pass(block_num, min_blocks_to_keep, r, configs.drop_first());
            (f, pruned + rest)
        }
    }
}

/// Each configuration of a pass reaches the block it is looked up for.
pub open spec fn pass_configs_reach(block_num: u64, min_blocks_to_keep: u32, p: PruneProgress, configs: Seq<Option<ConfigAt>>) -> bool
    decreases configs.len(),
{
    let (q, action) = prune_check_spec(block_num, min_blocks_to_keep, p);
    action is Finish || configs.len() == 0 || {
        &&& (configs[0] matches Some(c) ==> config_reaches(q.next_start, c))
        &&& pass_configs_reach(block_num, min_blocks_to_keep, prune_on_config_spec(q, configs[0]).0, configs.drop_first())
    }
}

/// Over a whole pruning pass, the end of the pruned ranges never moves
/// back: the ranges pruned end in strictly increasing order, none before
/// the end pruned at the start, each old enough (more than
/// `min_blocks_to_keep` blocks before `block_num`), and the pass ends on the
/// end of the last of them, in order.
pub proof fn lemma_prune_pass_monotone(block_num: u64, min_blocks_to_keep: u32, p: PruneProgress, configs: Seq<Option<ConfigAt>>)
    requires
        prune_ordered(p),
        pass_configs_reach(block_num, min_blocks_to_keep, p, configs),
    ensures
        ({
            let (f, pruned) = prune_pass(block_num, min_blocks_to_keep, p, configs);
            &&& prune_ordered(f)
            &&& f.meta.oldest_pruned_digest_range_end == if pruned.len() == 0 {
                p.meta.oldest_pruned_digest_range_end
            } else {
                pruned.last().1
            }
            &&& forall|i: int| 0 <= i < pruned.len() ==> p.meta.oldest_pruned_digest_range_end <= #[trigger] pruned[i].1
            &&& forall|i: int| 0 <= i < pruned.len() ==> !range_kept(block_num, min_blocks_to_keep, #[trigger] pruned[i].1)
            &&& forall|i: int, j: int| 0 <= i < j < pruned.len() ==> #[trigger] pruned[i].1 < #[trigger] pruned[j].1
            &&& (pruned.len() > 0 && p.meta.oldest_digest_range is Some ==> pruned[0] == p.meta.oldest_digest_range->Some_0)
        }),
    decreases configs.len(),
{
    let (q, action) = prune_check_spec(block_num, min_blocks_to_keep, p);
    lemma_prune_check_keeps_order(block_num, min_blocks_to_keep, p);
    if action is Finish || configs.len() == 0 {
    } else {
        lemma_prune_on_config_keeps_order(q, configs[0]);
        let (r, go_on) = prune_on_config_spec(q, configs[0]);
        if go_on {
            lemma_prune_pass_monotone(block_num, min_blocks_to_keep, r, configs.drop_first());
            let (f, rest) = prune_pass(block_num, min_blocks_to_keep, r, configs.drop_first());
            let head = match action {
                PruneAction::Prune { begin, end } => seq![(begin, end)],
                _ => Seq::<(u64, u64)>::empty(),
            };
            let pruned = head + rest;
            assert(prune_pass(block_num, min_blocks_to_keep, p, configs) == (f, pruned));
            // The range after a pruned one ends past it.
            assert(rest.len() > 0 ==> rest[0].1 >= q.next_start);
            if rest.len() > 0 {
                assert(pruned.last() == rest.last());
            }
            assert forall|i: int| 0 <= i < pruned.len() implies p.meta.oldest_pruned_digest_range_end <= #[trigger] pruned[i].1
                && !range_kept(block_num, min_blocks_to_keep, pruned[i].1) by {
                if i >= head.len() {
                    assert(pruned[i] == rest[i - head.len()]);
                }
            }
            assert forall|i: int, j: int| 0 <= i < j < pruned.len() implies #[trigger] pruned[i].1 < #[trigger] pruned[j].1 by {
                if i >= head.len() {
                    assert(pruned[i] == rest[i - head.len()]);
                    assert(pruned[j] == rest[j - head.len()]);
                } else {
                    assert(pruned[j] == rest[j - 1]);
                    assert(rest[0].1 <= rest[j - 1].1);
                }
            }
        }
    }
}

/// What committing a block's changes trie does to the configuration cache.
#[derive(Debug)]
pub enum CommitPlan {
    /// Nothing: the configuration did not change and the block is not
    /// final.
    Nothing,
    /// Finalize the block: prune and finalize the cache entries.
    Finalize,
    /// Insert the new configuration into the cache, encoded, as an entry
    /// of the given type.
    InsertConfig(EntryType, Vec<u8>),
}

/// A configuration as the pair its encoding is made of.
pub open spec fn config_pair(c: Option<ChangesTrieConfiguration>) -> Option<(u32, u32)> {
    match c {
        Some(c) => Some((c.digest_interval, c.digest_levels)),
        None => None,
    }
}

/// What committing a block's changes trie does: a new configuration (or
/// the disabling of changes tries) is inserted into the cache, final when
/// the block is; otherwise a final block is finalized; otherwise nothing
/// happens.
pub fn commit_plan(new_configuration: Option<Option<ChangesTrieConfiguration>>, finalized: bool) -> (r: CommitPlan)
    ensures
        match new_configuration {
            Some(c) => r matches CommitPlan::InsertConfig(t, v)
                && t == (if finalized { EntryType::Final } else { EntryType::NonFinal })
                && v@ == option_pair_encoding(config_pair(c)),
            None => if finalized { r is Finalize } else { r is Nothing },
        },
{
    match new_configuration {
        Some(c) => {
            let pair = match c {
                Some(c) => Some((c.digest_interval, c.digest_levels)),
                None => None,
            };
            let value = encode_option_pair(pair);
            CommitPlan::InsertConfig(if finalized { EntryType::Final } else { EntryType::NonFinal }, value)
        },
        None => if finalized { CommitPlan::Finalize } else { CommitPlan::Nothing },
    }
}

/// What finalizing a block does to the cache after pruning.
#[derive(Clone, Copy, Debug)]
pub enum FinalizePlan {
    /// The block was inserted by the same transaction, which already
    /// finalized it: hand that transaction back.
    Reuse,
    /// Finalize the cache entries of the block, whose parent has this
    /// number.
    FinalizeEntries(u64),
}

/// What finalizing a block does: when the transaction being built
/// inserted this very block, it is handed back; otherwise the cache
/// entries are finalized, the parent's number being one less (zero for
/// the genesis block).
pub open spec fn finalize_plan_spec(has_transaction: bool, new_header_hash: Option<[u8; 32]>, block_hash: [u8; 32], block_num: u64) -> FinalizePlan {
    if has_transaction && new_header_hash == Some(block_hash) {
        FinalizePlan::Reuse
    } else {
        FinalizePlan::FinalizeEntries(if block_num == 0 { 0 } else { (block_num - 1) as u64 })
    }
}

/// What finalizing a block does, as `finalize_plan_spec` says.
pub fn finalize_plan(has_transaction: bool, new_header_hash: Option<[u8; 32]>, block_hash: [u8; 32], block_num: u64) -> (r: FinalizePlan)
    ensures
        r == finalize_plan_spec(has_transaction, new_header_hash, block_hash, block_num),
{
    if has_transaction {
        match new_header_hash {
            Some(h) => {
                if crate::accounts::account_id_eq(&h, &block_hash) {
                    return FinalizePlan::Reuse;
                }
            },
            None => {},
        }
    }
    FinalizePlan::FinalizeEntries(block_num.checked_sub(1).unwrap_or(0))
}

/// How the block whose changes trie root is asked for is found.
#[derive(Clone, Copy, Debug, PartialEq, Eq, Structural)]
pub enum RootLookup {
    /// By number, on the canonical chain.
    ByNumber(u64),
    /// Read the canonical header at the anchor's number: when it is the
    /// anchor, the block is canonical too.
    CheckAnchor,
    /// Walk back this many parents from the anchor.
    WalkBack(u64),
}

/// Why a changes trie root cannot be looked up.
#[derive(Clone, Copy, Debug, PartialEq, Eq, Structural)]
pub enum RootError {
    /// The block comes after the anchor: `(block, anchor)`.
    AfterAnchor(u64, u64),
}

/// How the root for `block` is found from the anchor: a block after the
/// anchor is refused; a finalized block is found by number; otherwise the
/// anchor is checked first.
pub open spec fn root_lookup_spec(block: u64, anchor_number: u64, finalized_number: u64) -> Result<RootLookup, RootError> {
    if block > anchor_number {
        Err(RootError::AfterAnchor(block, anchor_number))
    } else if block <= finalized_number {
        Ok(RootLookup::ByNumber(block))
    } else {
        Ok(RootLookup::CheckAnchor)
    }
}

/// How the root for `block` is found, as `root_lookup_spec` says.
pub fn root_lookup(block: u64, anchor_number: u64, finalized_number: u64) -> (r: Result<RootLookup, RootError>)
    ensures
        r == root_lookup_spec(block, anchor_number, finalized_number),
{
    if block > anchor_number {
        Err(RootError::AfterAnchor(block, anchor_number))
    } else if block <= finalized_number {
        Ok(RootLookup::ByNumber(block))
    } else {
        Ok(RootLookup::CheckAnchor)
    }
}

/// After the anchor was checked: a canonical anchor makes the block
/// canonical; otherwise the block is `anchor_number - block` parents back
/// from the anchor.
pub open spec fn root_after_anchor_spec(anchor_is_canonical: bool, block: u64, anchor_number: u64) -> RootLookup {
    if anchor_is_canonical {
        RootLookup::ByNumber(block)
    } else {
        RootLookup::WalkBack((anchor_number - block) as u64)
    }
}

/// After the anchor was checked, as `root_after_anchor_spec` says.
pub fn root_after_anchor(anchor_is_canonical: bool, block: u64, anchor_number: u64) -> (r: RootLookup)
    requires
        block <= anchor_number,
    ensures
        r == root_after_anchor_spec(anchor_is_canonical, block, anchor_number),
{
    if anchor_is_canonical {
        RootLookup::ByNumber(block)
    } else {
        RootLookup::WalkBack(anchor_number - block)
    }
}

} // verus!
