//! Choosing the transactions of a new block: inherents whose failure
//! stops the block, and the pool's transactions pushed until the block is
//! full, the deadline passes or too many do not fit.

use vstd::prelude::*;

verus! {

/// The default largest block, in bytes: 4 MiB and 512 bytes.
pub const DEFAULT_MAX_BLOCK_SIZE: usize = 4 * 1024 * 1024 + 512;

/// Once the block is full, at most this many more transactions are tried.
pub const MAX_SKIPPED_TRANSACTIONS: usize = 8;

/// What pushing an extrinsic into the block under construction gave.
#[derive(Clone, Copy, Debug, PartialEq, Eq, Structural)]
pub enum PushResult {
    /// It was applied.
    Applied,
    /// It is invalid because the block has no resources left for it.
    ExhaustsResources,
    /// It is invalid, and it was a mandatory extrinsic.
    InvalidMandatory,
    /// It failed for another reason.
    Failed,
}

/// Whether building the block goes on after pushing an inherent: only a
/// failed mandatory inherent stops it; other failed inherents are dropped.
pub fn inherent_accepted(result: PushResult) -> (r: bool)
    ensures
        r == (result != PushResult::InvalidMandatory),
{
    match result {
        PushResult::ExhaustsResources => true,
        PushResult::InvalidMandatory => false,
        PushResult::Failed => true,
        PushResult::Applied => true,
    }
}

/// The state of pushing the pool's transactions: how many were skipped
/// since the block filled up, and the invalid transactions to remove from
/// the pool.
pub struct TransactionSelection {
    skipped: usize,
    unqueue_invalid: Vec<[u8; 32]>,
}

/// The selection as values.
pub struct SelectionView {
    /// Transactions tried since the block filled up.
    pub skipped: nat,
    /// Hashes of invalid transactions to remove from the pool.
    pub unqueue_invalid: Seq<[u8; 32]>,
}

impl View for TransactionSelection {
    type V = SelectionView;

    closed spec fn view(&self) -> SelectionView {
        SelectionView { skipped: self.skipped as nat, unqueue_invalid: self.unqueue_invalid@ }
    }
}

/// The selection after pushing the transaction `hash` gave `result`, and
/// whether to go on with the next transaction: a transaction that does not
/// fit is skipped until eight were; other failures are ignored once
/// skipping has started, and otherwise mark the transaction invalid.
pub open spec fn after_push(s: SelectionView, hash: [u8; 32], result: PushResult) -> (SelectionView, bool) {
    match result {
        PushResult::Applied => (s, true),
        PushResult::ExhaustsResources => if s.skipped < MAX_SKIPPED_TRANSACTIONS {
            (SelectionView { skipped: s.skipped + 1, ..s }, true)
        } else {
            (s, false)
        },
        _ => if s.skipped > 0 {
            (s, true)
        } else {
            (SelectionView { unqueue_invalid: s.unqueue_invalid.push(hash), ..s }, true)
        },
    }
}

/// The selection after a run of pushes, stopping at the first that ends
/// the selection; also whether the selection is still going on.
pub open spec fn run_pushes(s: SelectionView, pushes: Seq<([u8; 32], PushResult)>) -> (SelectionView, bool)
    decreases pushes.len(),
{
    if pushes.len() == 0 {
        (s, true)
    } else {
        let (prev, going) = run_pushes(s, pushes.drop_last());
        if going {
            after_push(prev, pushes.last().0, pushes.last().1)
        } else {
            (prev, false)
        }
    }
}

impl TransactionSelection {
    /// Nothing skipped, nothing invalid.
    pub fn new() -> (r: Self)
        ensures
            r@.skipped == 0,
            r@.unqueue_invalid == Seq::<[u8; 32]>::empty(),
    {
        TransactionSelection { skipped: 0, unqueue_invalid: Vec::new() }
    }

    /// Transactions tried since the block filled up.
    pub fn skipped(&self) -> (r: usize)
        ensures
            r == self@.skipped,
    {
        self.skipped
    }

    /// Hashes of the invalid transactions to remove from the pool.
    pub fn unqueue_invalid(&self) -> (r: &Vec<[u8; 32]>)
        ensures
            r@ == self@.unqueue_invalid,
    {
        &self.unqueue_invalid
    }

    /// Records that pushing the transaction `hash` gave `result`; returns
    /// whether to go on with the next transaction, as `after_push` says.
    pub fn on_push_result(&mut self, hash: [u8; 32], result: PushResult) -> (r: bool)
        requires
            old(self)@.skipped <= MAX_SKIPPED_TRANSACTIONS,
        ensures
            (final(self)@, r) == after_push(old(self)@, hash, result),
    {
        match result {
            PushResult::Applied => true,
            PushResult::ExhaustsResources => {
                if self.skipped < MAX_SKIPPED_TRANSACTIONS {
                    self.skipped = self.skipped + 1;
                    true
                } else {
                    false
                }
            },
            _ => {
                if self.skipped > 0 {
                    true
                } else {
                    self.unqueue_invalid.push(hash);
                    true
                }
            },
        }
    }
}

/// However the pushes go, no more than eight transactions are skipped, and
/// the selection only stops once eight were.
pub proof fn lemma_skipped_bounded(pushes: Seq<([u8; 32], PushResult)>)
    ensures
        ({
            let (s, going) = run_pushes(SelectionView { skipped: 0, unqueue_invalid: Seq::empty() }, pushes);
            &&& s.skipped <= MAX_SKIPPED_TRANSACTIONS
            &&& !going ==> s.skipped == MAX_SKIPPED_TRANSACTIONS
        }),
    decreases pushes.len(),
{
    if pushes.len() > 0 {
        lemma_skipped_bounded(pushes.drop_last());
    }
}

/// A transaction is marked invalid only while nothing was skipped: once
/// the block is full, failing transactions stay in the pool.
pub proof fn lemma_no_invalid_after_skipping(s: SelectionView, hash: [u8; 32], result: PushResult)
    requires
        s.skipped > 0,
    ensures
        after_push(s, hash, result).0.unqueue_invalid == s.unqueue_invalid,
{
}

} // verus!
