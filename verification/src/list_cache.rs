//! The in-memory side of the list-based cache: the forks of entries it
//! keeps, and the operations a database transaction schedules on them,
//! applied once the transaction is committed.
//!
//! There is a single list of entries for finalized blocks and any number
//! of unfinalized forks. An entry is added whenever the cached value at a
//! new block differs from the value at its parent.

use vstd::prelude::*;
use std::collections::{BTreeMap, BTreeSet};
use crate::accounts::account_id_eq;

verus! {

/// Pruning strategy.
#[derive(Clone, Copy, Debug, PartialEq, Eq, Structural)]
pub enum PruningStrategy {
    /// Prune entries when they are this many blocks behind the best
    /// finalized block.
    ByDepth(u64),
    /// Do not prune old entries at all.
    NeverPrune,
}

/// A block, by hash and number.
#[derive(Clone, Copy, Debug)]
pub struct ComplexBlockId {
    /// The block hash.
    pub hash: [u8; 32],
    /// The block number.
    pub number: u64,
}

/// Whether two blocks are the same.
pub fn block_id_eq(a: &ComplexBlockId, b: &ComplexBlockId) -> (r: bool)
    ensures
        r == (*a == *b),
{
    a.number == b.number && account_id_eq(&a.hash, &b.hash)
}

/// A cached value and the block from which it is valid.
#[derive(Debug)]
pub struct Entry<T> {
    /// The block from which the value is valid.
    pub valid_from: ComplexBlockId,
    /// The value.
    pub value: T,
}

/// One unfinalized fork: its head entry, and its best block when known.
#[derive(Debug)]
pub struct Fork<T> {
    /// The best block of the fork; not known after a restart until a block
    /// is appended.
    pub best_block: Option<ComplexBlockId>,
    /// The head entry of the fork.
    pub head: Entry<T>,
}

impl<T> Fork<T> {
    /// The best block of this fork, when known.
    pub open spec fn best_block_spec(self) -> Option<ComplexBlockId> {
        self.best_block
    }

    /// The head entry of this fork.
    pub open spec fn head_spec(self) -> Entry<T> {
        self.head
    }

    /// A fork with a head entry and, when known, its best block.
    pub fn new(best_block: Option<ComplexBlockId>, head: Entry<T>) -> (r: Fork<T>)
        ensures
            r.best_block_spec() == best_block,
            r.head_spec() == head,
    {
        Fork { best_block, head }
    }

    /// The head entry of this fork.
    pub fn head(&self) -> (r: &Entry<T>)
        ensures
            *r == self.head_spec(),
    {
        &self.head
    }

    /// Whether a new block with this parent is appended to the fork: only
    /// when the fork's best block is known and is the parent.
    pub fn try_append(&self, parent: &ComplexBlockId) -> (r: bool)
        ensures
            r == (self.best_block_spec() == Some(*parent)),
    {
        match &self.best_block {
            Some(best) => block_id_eq(best, parent),
            None => false,
        }
    }
}

/// An operation on the cache, scheduled by a transaction and carried out
/// when it is committed.
#[derive(Debug)]
pub enum CommitOperation<T> {
    /// A new block is appended to the fork at the index, the value
    /// unchanged.
    AppendNewBlock(usize, ComplexBlockId),
    /// A new entry is appended to the fork at the index.
    AppendNewEntry(usize, Entry<T>),
    /// A new fork starts with the entry.
    AddNewFork(Entry<T>),
    /// A block is finalized, possibly with a new finalized entry; the forks
    /// at the indices of the set are dropped.
    BlockFinalized(ComplexBlockId, Option<Entry<T>>, BTreeSet<usize>),
    /// The best block is reverted: the forks at the indices of the map are
    /// replaced by their truncated version, or dropped where there is none.
    BlockReverted(BTreeMap<usize, Option<Fork<T>>>),
}

/// A set of commit operations.
#[derive(Debug)]
pub struct CommitOperations<T> {
    operations: Vec<CommitOperation<T>>,
}

impl<T> View for CommitOperations<T> {
    type V = Seq<CommitOperation<T>>;

    closed spec fn view(&self) -> Seq<CommitOperation<T>> {
        self.operations@
    }
}

impl<T> Default for CommitOperations<T> {
    /// No operations.
    fn default() -> (r: Self)
        ensures
            r@ == Seq::<CommitOperation<T>>::empty(),
    {
        CommitOperations { operations: Vec::new() }
    }
}

/// The operations after appending `new`: nothing is added for none; two
/// block finalizations in a row merge into the later one.
pub open spec fn append_operation<T>(ops: Seq<CommitOperation<T>>, new: Option<CommitOperation<T>>) -> Seq<CommitOperation<T>> {
    match new {
        None => ops,
        Some(op) => if ops.len() > 0 && ops.last() is BlockFinalized && op is BlockFinalized {
            ops.drop_last().push(op)
        } else {
            ops.push(op)
        },
    }
}

impl<T> CommitOperations<T> {
    /// Operations given in order.
    pub fn from_vec(operations: Vec<CommitOperation<T>>) -> (r: Self)
        ensures
            r@ == operations@,
    {
        CommitOperations { operations }
    }

    /// The operations in order.
    pub fn operations(&self) -> (r: &Vec<CommitOperation<T>>)
        ensures
            r@ == self@,
    {
        &self.operations
    }

    /// Appends an operation to the set, as `append_operation` says.
    pub fn append(&mut self, new_operation: Option<CommitOperation<T>>)
        ensures
            final(self)@ == append_operation(old(self)@, new_operation),
    {
        let new_operation = match new_operation {
            Some(new_operation) => new_operation,
            None => return,
        };
        let last_operation = match self.operations.pop() {
            Some(last_operation) => last_operation,
            None => {
                self.operations.push(new_operation);
                return;
            },
        };
        match last_operation {
            CommitOperation::BlockFinalized(old_block, old_entry, old_forks) => {
                match new_operation {
                    CommitOperation::BlockFinalized(new_block, new_entry, new_forks) => {
                        self.operations.push(CommitOperation::BlockFinalized(new_block, new_entry, new_forks));
                    },
                    _ => {
                        self.operations.push(CommitOperation::BlockFinalized(old_block, old_entry, old_forks));
                        self.operations.push(new_operation);
                    },
                }
            },
            _ => {
                self.operations.push(last_operation);
                self.operations.push(new_operation);
            },
        }
    }
}

/// Appending two operations that are not both block finalizations keeps
/// both, in order; appending a finalization after a finalization keeps
/// only the later one.
pub proof fn lemma_append_merges_finalizations<T>(ops: Seq<CommitOperation<T>>, op: CommitOperation<T>)
    ensures
        ops.len() > 0 && ops.last() is BlockFinalized && op is BlockFinalized
            ==> append_operation(ops, Some(op)).len() == ops.len()
                && append_operation(ops, Some(op)).last() == op
                && append_operation(ops, Some(op)).drop_last() == ops.drop_last(),
        !(ops.len() > 0 && ops.last() is BlockFinalized && op is BlockFinalized)
            ==> append_operation(ops, Some(op)) == ops.push(op),
{
    if ops.len() > 0 && ops.last() is BlockFinalized && op is BlockFinalized {
        assert(ops.drop_last().push(op).drop_last() =~= ops.drop_last());
    }
}

} // verus!

verus! {

/// `forks` without the forks at `idx`, removed from the last index of
/// `idx` to the first.
pub open spec fn remove_indices<T>(forks: Seq<Fork<T>>, idx: Seq<usize>) -> Seq<Fork<T>>
    decreases idx.len(),
{
    if idx.len() == 0 {
        forks
    } else {
        remove_indices(forks.remove(idx.last() as int), idx.drop_last())
    }
}

/// Every removal of `remove_indices` is at an index that exists then.
pub open spec fn removals_in_range<T>(forks: Seq<Fork<T>>, idx: Seq<usize>) -> bool
    decreases idx.len(),
{
    idx.len() == 0 || (idx.last() < forks.len() && removals_in_range(forks.remove(idx.last() as int), idx.drop_last()))
}

/// The indices of the forks to drop are strictly increasing, as a set
/// hands them out, and each removal of `remove_indices` is at an index
/// that exists then.
pub open spec fn removals_valid<T>(forks: Seq<Fork<T>>, idx: Seq<usize>) -> bool {
    strictly_increasing(idx) && removals_in_range(forks, idx)
}

/// `forks` with the updates applied from the last to the first: a fork is
/// replaced by its new version, or removed when there is none.
pub open spec fn revert_forks<T>(forks: Seq<Fork<T>>, updates: Seq<(usize, Option<Fork<T>>)>) -> Seq<Fork<T>>
    decreases updates.len(),
{
    if updates.len() == 0 {
        forks
    } else {
        let (i, u) = updates.last();
        let next = match u {
            Some(f) => forks.update(i as int, f),
            None => forks.remove(i as int),
        };
        revert_forks(next, updates.drop_last())
    }
}

/// Every update of `revert_forks` is at an index that exists then.
pub open spec fn reverts_valid<T>(forks: Seq<Fork<T>>, updates: Seq<(usize, Option<Fork<T>>)>) -> bool
    decreases updates.len(),
{
    updates.len() == 0 || {
        let (i, u) = updates.last();
        let next = match u {
            Some(f) => forks.update(i as int, f),
            None => forks.remove(i as int),
        };
        i < forks.len() && reverts_valid(next, updates.drop_last())
    }
}

/// What the cache keeps in memory.
pub struct ListCacheView<T> {
    /// The pruning strategy.
    pub pruning_strategy: PruningStrategy,
    /// The best finalized block.
    pub best_finalized_block: ComplexBlockId,
    /// The best finalized entry, if any.
    pub best_finalized_entry: Option<Entry<T>>,
    /// The unfinalized forks.
    pub unfinalized: Seq<Fork<T>>,
}

/// The cache after one committed operation.
pub open spec fn apply_operation<T>(s: ListCacheView<T>, op: CommitOperation<T>) -> ListCacheView<T> {
    match op {
        CommitOperation::AppendNewBlock(i, b) => ListCacheView {
            unfinalized: s.unfinalized.update(i as int, Fork { best_block: Some(b), head: s.unfinalized[i as int].head }),
            ..s
        },
        CommitOperation::AppendNewEntry(i, e) => ListCacheView {
            unfinalized: s.unfinalized.update(i as int, Fork { best_block: Some(e.valid_from), head: e }),
            ..s
        },
        CommitOperation::AddNewFork(e) => ListCacheView {
            unfinalized: s.unfinalized.push(Fork { best_block: Some(e.valid_from), head: e }),
            ..s
        },
        CommitOperation::BlockFinalized(b, fe, forks) => ListCacheView {
            best_finalized_block: b,
            best_finalized_entry: match fe {
                Some(e) => Some(e),
                None => s.best_finalized_entry,
            },
            unfinalized: remove_indices(s.unfinalized, set_order(forks@)),
            ..s
        },
        CommitOperation::BlockReverted(updates) => ListCacheView {
            unfinalized: revert_forks(s.unfinalized, map_order(updates@)),
            ..s
        },
    }
}

/// The indices an operation speaks of exist.
pub open spec fn operation_applicable<T>(s: ListCacheView<T>, op: CommitOperation<T>) -> bool {
    match op {
        CommitOperation::AppendNewBlock(i, _) => i < s.unfinalized.len(),
        CommitOperation::AppendNewEntry(i, _) => i < s.unfinalized.len(),
        CommitOperation::AddNewFork(_) => true,
        CommitOperation::BlockFinalized(_, _, forks) => removals_valid(s.unfinalized, set_order(forks@)),
        CommitOperation::BlockReverted(updates) => reverts_valid(s.unfinalized, map_order(updates@)),
    }
}

/// The cache after the operations, in order.
pub open spec fn apply_operations<T>(s: ListCacheView<T>, ops: Seq<CommitOperation<T>>) -> ListCacheView<T>
    decreases ops.len(),
{
    if ops.len() == 0 {
        s
    } else {
        apply_operation(apply_operations(s, ops.drop_last()), ops.last())
    }
}

/// Each operation speaks of forks that exist when it is applied.
pub open spec fn operations_applicable<T>(s: ListCacheView<T>, ops: Seq<CommitOperation<T>>) -> bool
    decreases ops.len(),
{
    ops.len() == 0 || (operations_applicable(s, ops.drop_last())
        && operation_applicable(apply_operations(s, ops.drop_last()), ops.last()))
}

/// The list-based cache: its pruning strategy, its best finalized block
/// and entry, and its unfinalized forks.
pub struct ListCache<T> {
    pruning_strategy: PruningStrategy,
    best_finalized_block: ComplexBlockId,
    best_finalized_entry: Option<Entry<T>>,
    unfinalized: Vec<Fork<T>>,
}

impl<T> View for ListCache<T> {
    type V = ListCacheView<T>;

    closed spec fn view(&self) -> ListCacheView<T> {
        ListCacheView {
            pruning_strategy: self.pruning_strategy,
            best_finalized_block: self.best_finalized_block,
            best_finalized_entry: self.best_finalized_entry,
            unfinalized: self.unfinalized@,
        }
    }
}

impl<T> ListCache<T> {
    /// A cache with the entries read back from storage: the best finalized
    /// entry and the heads of the unfinalized forks, whose best blocks are
    /// not known yet.
    pub fn new(
        pruning_strategy: PruningStrategy,
        best_finalized_block: ComplexBlockId,
        best_finalized_entry: Option<Entry<T>>,
        unfinalized_heads: Vec<Entry<T>>,
    ) -> (r: Self)
        ensures
            r@.pruning_strategy == pruning_strategy,
            r@.best_finalized_block == best_finalized_block,
            r@.best_finalized_entry == best_finalized_entry,
            r@.unfinalized.len() == unfinalized_heads@.len(),
            forall|i: int| 0 <= i < unfinalized_heads@.len() ==> {
                &&& (#[trigger] r@.unfinalized[i]).best_block_spec() is None
                &&& r@.unfinalized[i].head_spec() == unfinalized_heads@[i]
            },
    {
        let mut heads = unfinalized_heads;
        let ghost all = heads@;
        let mut rev: Vec<Fork<T>> = Vec::new();
        while heads.len() > 0
            invariant
                heads@ == all.subrange(0, heads@.len() as int),
                rev@.len() == all.len() - heads@.len(),
                forall|i: int| 0 <= i < rev@.len() ==> {
                    &&& (#[trigger] rev@[i]).best_block is None
                    &&& rev@[i].head == all[all.len() - 1 - i]
                },
            decreases heads@.len(),
        {
            let e = heads.pop().unwrap();
            rev.push(Fork { best_block: None, head: e });
        }
        let mut unfinalized: Vec<Fork<T>> = Vec::new();
        while rev.len() > 0
            invariant
                rev@.len() + unfinalized@.len() == all.len(),
                forall|i: int| 0 <= i < rev@.len() ==> {
                    &&& (#[trigger] rev@[i]).best_block is None
                    &&& rev@[i].head == all[all.len() - 1 - i]
                },
                forall|i: int| 0 <= i < unfinalized@.len() ==> {
                    &&& (#[trigger] unfinalized@[i]).best_block is None
                    &&& unfinalized@[i].head == all[i]
                },
            decreases rev@.len(),
        {
            let f = rev.pop().unwrap();
            unfinalized.push(f);
        }
        ListCache { pruning_strategy, best_finalized_block, best_finalized_entry, unfinalized }
    }

    /// The unfinalized forks.
    pub fn unfinalized(&self) -> (r: &Vec<Fork<T>>)
        ensures
            r@ == self@.unfinalized,
    {
        &self.unfinalized
    }

    /// The best finalized block.
    pub fn best_finalized_block(&self) -> (r: ComplexBlockId)
        ensures
            r == self@.best_finalized_block,
    {
        self.best_finalized_block
    }

    /// The best finalized entry, if any.
    pub fn best_finalized_entry(&self) -> (r: &Option<Entry<T>>)
        ensures
            *r == self@.best_finalized_entry,
    {
        &self.best_finalized_entry
    }

    /// Carries out one committed operation.
    fn apply(&mut self, op: CommitOperation<T>)
        requires
            operation_applicable(old(self)@, op),
        ensures
            final(self)@ == apply_operation(old(self)@, op),
    {
        let ghost op0 = op;
        match op {
            CommitOperation::AppendNewBlock(index, best_block) => {
                let fork = self.unfinalized.remove(index);
                let ghost removed = self.unfinalized@;
                self.unfinalized.insert(index, Fork { best_block: Some(best_block), head: fork.head });
                assert(self.unfinalized@ =~= old(self)@.unfinalized.update(
                    index as int, Fork { best_block: Some(best_block), head: old(self)@.unfinalized[index as int].head }));
                assert(self@ == apply_operation(old(self)@, op0));
            },
            CommitOperation::AppendNewEntry(index, entry) => {
                let _ = self.unfinalized.remove(index);
                let ghost e = entry;
                self.unfinalized.insert(index, Fork { best_block: Some(entry.valid_from), head: entry });
                assert(self.unfinalized@ =~= old(self)@.unfinalized.update(
                    index as int, Fork { best_block: Some(e.valid_from), head: e }));
                assert(self@ == apply_operation(old(self)@, op0));
            },
            CommitOperation::AddNewFork(entry) => {
                self.unfinalized.push(Fork { best_block: Some(entry.valid_from), head: entry });
            },
            CommitOperation::BlockFinalized(block, finalizing_entry, forks) => {
                self.best_finalized_block = block;
                match finalizing_entry {
                    Some(e) => {
                        self.best_finalized_entry = Some(e);
                    },
                    None => {},
                }
                let order = set_in_order(&forks);
                let mut j = order.len();
                assert(order@.subrange(0, j as int) =~= order@);
                let ghost fields = (self.pruning_strategy, self.best_finalized_block, self.best_finalized_entry);
                while j > 0
                    invariant
                        (self.pruning_strategy, self.best_finalized_block, self.best_finalized_entry) == fields,
                        j <= order@.len(),
                        removals_in_range(self.unfinalized@, order@.subrange(0, j as int)),
                        remove_indices(self.unfinalized@, order@.subrange(0, j as int))
                            == remove_indices(old(self)@.unfinalized, order@),
                    decreases j,
                {
                    let ghost sub = order@.subrange(0, j as int);
                    assert(sub.drop_last() =~= order@.subrange(0, j as int - 1));
                    assert(sub.last() == order@[j as int - 1]);
                    let _ = self.unfinalized.remove(order[j - 1]);
                    j = j - 1;
                }
                assert(order@.subrange(0, 0) =~= Seq::<usize>::empty());
                assert(self@.unfinalized == apply_operation(old(self)@, op0).unfinalized);
                assert(self@ == apply_operation(old(self)@, op0));
            },
            CommitOperation::BlockReverted(updates) => {
                let mut updates = map_in_order(updates);
                let ghost all = updates@;
                assert(all.subrange(0, all.len() as int) =~= all);
                while updates.len() > 0
                    invariant
                        self.pruning_strategy == old(self).pruning_strategy,
                        self.best_finalized_block == old(self).best_finalized_block,
                        self.best_finalized_entry == old(self).best_finalized_entry,
                        updates@.len() <= all.len(),
                        updates@ == all.subrange(0, updates@.len() as int),
                        reverts_valid(self.unfinalized@, updates@),
                        revert_forks(self.unfinalized@, updates@) == revert_forks(old(self)@.unfinalized, all),
                    decreases updates@.len(),
                {
                    let ghost before = updates@;
                    let (index, updated) = updates.pop().unwrap();
                    let ghost last = (index, updated);
                    assert(before.last() == last);
                    assert(before.drop_last() =~= updates@);
                    assert(updates@ =~= all.subrange(0, updates@.len() as int));
                    let ghost cur = self.unfinalized@;
                    match updated {
                        Some(f) => {
                            let _ = self.unfinalized.remove(index);
                            let ghost g = f;
                            let ghost removed = self.unfinalized@;
                            self.unfinalized.insert(index, f);
                            assert(self.unfinalized@ =~= cur.update(index as int, g));
                        },
                        None => {
                            let _ = self.unfinalized.remove(index);
                        },
                    }
                }
                assert(updates@ =~= Seq::<(usize, Option<Fork<T>>)>::empty());
                assert(self@ == apply_operation(old(self)@, op0));
            },
        }
    }
}

impl<T> ListCache<T> {
    /// Carries out the operations of a committed transaction, in order.
    pub fn on_transaction_commit(&mut self, ops: CommitOperations<T>)
        requires
            operations_applicable(old(self)@, ops@),
        ensures
            final(self)@ == apply_operations(old(self)@, ops@),
    {
        let mut rest = ops.operations;
        let ghost all = rest@;
        let ghost start = self@;
        assert(all.subrange(0, 0) =~= Seq::<CommitOperation<T>>::empty());
        assert(all.subrange(0, all.len() as int) =~= all);
        while rest.len() > 0
            invariant
                rest@.len() <= all.len(),
                rest@ == all.subrange(all.len() - rest@.len(), all.len() as int),
                self@ == apply_operations(start, all.subrange(0, all.len() - rest@.len())),
                operations_applicable(start, all),
            decreases rest@.len(),
        {
            let ghost k = all.len() - rest@.len();
            let op = rest.remove(0);
            proof {
                lemma_applicable_prefix(start, all, k + 1);
                assert(all.subrange(0, k + 1).drop_last() =~= all.subrange(0, k));
                assert(op == all[k]);
                assert(rest@ =~= all.subrange(k + 1, all.len() as int));
            }
            self.apply(op);
        }
        assert(all.subrange(0, all.len() as int) =~= all);
    }
}

/// The operations up to any point could be applied when all of them could.
proof fn lemma_applicable_prefix<T>(s: ListCacheView<T>, ops: Seq<CommitOperation<T>>, k: int)
    requires
        operations_applicable(s, ops),
        0 <= k <= ops.len(),
    ensures
        operations_applicable(s, ops.subrange(0, k)),
    decreases ops.len() - k,
{
    if k == ops.len() {
        assert(ops.subrange(0, k) =~= ops);
    } else {
        lemma_applicable_prefix(s, ops, k + 1);
        assert(ops.subrange(0, k + 1).drop_last() =~= ops.subrange(0, k));
    }
}

/// Committing operations one transaction after another is committing them
/// all at once.
pub proof fn lemma_commit_in_two_steps<T>(s: ListCacheView<T>, first: Seq<CommitOperation<T>>, second: Seq<CommitOperation<T>>)
    ensures
        apply_operations(apply_operations(s, first), second) == apply_operations(s, first + second),
    decreases second.len(),
{
    if second.len() == 0 {
        assert(first + second =~= first);
    } else {
        lemma_commit_in_two_steps(s, first, second.drop_last());
        assert((first + second).drop_last() =~= first + second.drop_last());
        assert((first + second).last() == second.last());
    }
}

/// A new fork is committed as the last unfinalized fork, with its entry's
/// block as best block; the other forks and the finalized state stay.
pub proof fn lemma_new_fork_is_last<T>(s: ListCacheView<T>, e: Entry<T>)
    ensures
        ({
            let t = apply_operation(s, CommitOperation::AddNewFork(e));
            &&& t.unfinalized.len() == s.unfinalized.len() + 1
            &&& t.unfinalized.last().head == e
            &&& t.unfinalized.last().best_block == Some(e.valid_from)
            &&& t.unfinalized.drop_last() == s.unfinalized
            &&& t.best_finalized_block == s.best_finalized_block
            &&& t.best_finalized_entry == s.best_finalized_entry
        }),
{
    let t = apply_operation(s, CommitOperation::AddNewFork(e));
    assert(t.unfinalized.drop_last() =~= s.unfinalized);
}

} // verus!

verus! {

/// How a block enters the cache.
#[derive(Clone, Copy, Debug, PartialEq, Eq, Structural)]
pub enum EntryType {
    /// A final block.
    Final,
    /// A block that is not final yet.
    NonFinal,
    /// The genesis block.
    Genesis,
}

/// Where a new entry goes relative to an unfinalized fork.
#[derive(Clone, Copy, Debug)]
pub enum ForkAppendResult {
    /// At the end of the fork.
    Append,
    /// In a new fork, forking from the entry at the given block.
    Fork(ComplexBlockId),
}

/// An entry as stored: the value and the block of the previous entry.
#[derive(Debug)]
pub struct StorageEntry {
    /// The block from which the previous value is valid, if any.
    pub prev_valid_from: Option<ComplexBlockId>,
    /// The encoded value.
    pub value: Vec<u8>,
}

/// What a transaction is asked to write.
#[derive(Debug)]
pub enum TxAction {
    /// Store the entry at the block.
    InsertEntry(ComplexBlockId, StorageEntry),
    /// Store the cache's metadata as it will be after the operation.
    UpdateMeta,
    /// Delete the entries of the fork with this head, stopping at the
    /// finalized entry when a finalized block number is given.
    DestroyFork(ComplexBlockId, Option<u64>),
    /// Prune the finalized entries older than the one at the block with
    /// this number: that entry no longer points back, and the entries
    /// before it are deleted.
    PruneAncient(u64),
    /// Delete the entry at the block.
    RemoveEntry(ComplexBlockId),
}

/// The entry to store when `value` differs from the value of entry `e`:
/// it points back at `e`. None when there is no value or it is unchanged.
pub open spec fn try_update_spec(e: Entry<Vec<u8>>, value: Option<Seq<u8>>) -> Option<(Option<ComplexBlockId>, Seq<u8>)> {
    match value {
        Some(v) => if e.value@ == v { None } else { Some((Some(e.valid_from), v)) },
        None => None,
    }
}

/// The view of an optional stored entry: its back pointer and value.
pub open spec fn storage_entry_view(e: Option<StorageEntry>) -> Option<(Option<ComplexBlockId>, Seq<u8>)> {
    match e {
        Some(se) => Some((se.prev_valid_from, se.value@)),
        None => None,
    }
}

/// Whether two byte strings are equal.
fn bytes_vec_eq(a: &Vec<u8>, b: &Vec<u8>) -> (r: bool)
    ensures
        r == (a@ == b@),
{
    crate::state_db::bytes_eq(a.as_slice(), b.as_slice())
}

impl Entry<Vec<u8>> {
    /// The entry to store when `value` differs from this entry's value, as
    /// `try_update_spec` says.
    pub fn try_update(&self, value: Option<Vec<u8>>) -> (r: Option<StorageEntry>)
        ensures
            storage_entry_view(r) == try_update_spec(*self, match value { Some(v) => Some(v@), None => None }),
    {
        match value {
            Some(value) => {
                if bytes_vec_eq(&self.value, &value) {
                    None
                } else {
                    Some(StorageEntry { prev_valid_from: Some(self.valid_from), value })
                }
            },
            None => None,
        }
    }
}

impl StorageEntry {
    /// The entry valid from `block`.
    pub fn into_entry(self, block: ComplexBlockId) -> (r: Entry<Vec<u8>>)
        ensures
            r.valid_from == block,
            r.value@ == self.value@,
    {
        Entry { valid_from: block, value: self.value }
    }
}

} // verus!

verus! {

/// The indices increase strictly, as those of an ordered set.
pub open spec fn strictly_increasing(s: Seq<usize>) -> bool {
    forall|i: int, j: int| 0 <= i < j < s.len() ==> s[i] < s[j]
}

/// The members of a set of indices, in increasing order (when the set is
/// finite, there is one such listing).
pub open spec fn set_order(s: Set<usize>) -> Seq<usize> {
    choose|q: Seq<usize>| strictly_increasing(q) && q.to_set() == s
}

/// Two increasing listings of the same indices are the same.
pub proof fn lemma_increasing_unique(a: Seq<usize>, b: Seq<usize>)
    requires
        strictly_increasing(a),
        strictly_increasing(b),
        a.to_set() == b.to_set(),
    ensures
        a == b,
    decreases a.len(),
{
    if a.len() == 0 {
        if b.len() > 0 {
            assert(b.to_set().contains(b[0]));
        }
        assert(a =~= b);
    } else {
        assert(a.to_set().contains(a.last()));
        assert(b.len() > 0);
        assert(b.to_set().contains(b.last()));
        let x = a.last();
        let y = b.last();
        assert(x <= y) by {
            assert(b.contains(x));
            let k = choose|k: int| 0 <= k < b.len() && b[k] == x;
            if k < b.len() - 1 {
                assert(b[k] < b[b.len() - 1]);
            }
        }
        assert(y <= x) by {
            assert(a.contains(y));
            let k = choose|k: int| 0 <= k < a.len() && a[k] == y;
            if k < a.len() - 1 {
                assert(a[k] < a[a.len() - 1]);
            }
        }
        let a1 = a.drop_last();
        let b1 = b.drop_last();
        assert(a1.to_set() =~= b1.to_set()) by {
            assert forall|z: usize| a1.to_set().contains(z) implies b1.to_set().contains(z) by {
                let k = choose|k: int| 0 <= k < a1.len() && a1[k] == z;
                assert(a[k] < a[a.len() - 1]);
                assert(a[k] == z);
                assert(a.to_set().contains(z));
                assert(b.to_set().contains(z));
                assert(b.contains(z));
                let m = choose|m: int| 0 <= m < b.len() && b[m] == z;
                assert(b1[m] == z);
            }
            assert forall|z: usize| b1.to_set().contains(z) implies a1.to_set().contains(z) by {
                let k = choose|k: int| 0 <= k < b1.len() && b1[k] == z;
                assert(b[k] < b[b.len() - 1]);
                assert(b[k] == z);
                assert(b.to_set().contains(z));
                assert(a.to_set().contains(z));
                assert(a.contains(z));
                let m = choose|m: int| 0 <= m < a.len() && a[m] == z;
                assert(a1[m] == z);
            }
        }
        lemma_increasing_unique(a1, b1);
        assert(a =~= b) by {
            assert(a =~= a1.push(x));
            assert(b =~= b1.push(y));
        }
    }
}

/// An increasing listing of a set is its `set_order`.
pub proof fn lemma_set_order_of(q: Seq<usize>)
    requires
        strictly_increasing(q),
    ensures
        set_order(q.to_set()) == q,
        strictly_increasing(set_order(q.to_set())),
{
    let s = q.to_set();
    assert(exists|r: Seq<usize>| strictly_increasing(r) && r.to_set() == s);
    let r = set_order(s);
    lemma_increasing_unique(r, q);
}

/// The members of a set of indices, in increasing order.
pub fn set_in_order(s: &BTreeSet<usize>) -> (v: Vec<usize>)
    ensures
        strictly_increasing(v@),
        v@.to_set() == s@,
        v@ == set_order(s@),
{
    broadcast use vstd::std_specs::btree::group_btree_axioms;
    broadcast use vstd::laws_cmp::group_laws_cmp;
    proof {
        vstd::std_specs::btree::axiom_spec_btree_keys_iter(s);
    }
    let ghost keys = vstd::std_specs::iter::IteratorSpec::remaining(&vstd::std_specs::btree::spec_btree_keys_iter(s)).map_values(|r: &usize| *r);
    let iter = s.iter();
    let mut v: Vec<usize> = Vec::new();
    for x in it: iter
        invariant
            it.seq().map_values(|r: &usize| *r) == keys,
            v@ == keys.take(it.index()),
    {
        v.push(*x);
    }
    assert(v@ == keys);
    assert(keys =~= vstd::std_specs::iter::IteratorSpec::remaining(&vstd::std_specs::btree::spec_btree_keys_iter(s)).unref());
    assert(keys.to_set() == s@);
    assert forall|i: int, j: int| 0 <= i < j < keys.len() implies keys[i] < keys[j] by {
        let r = vstd::std_specs::iter::IteratorSpec::remaining(&vstd::std_specs::btree::spec_btree_keys_iter(s));
        assert(vstd::std_specs::cmp::OrdSpec::cmp_spec(&r[i], &r[j]) is Less);
        assert(keys[i] == *r[i] && keys[j] == *r[j]);
    }
    proof {
        lemma_set_order_of(v@);
    }
    v
}

/// Indices are ordered as `BTreeSet` and `BTreeMap` need their keys to be.
pub open spec fn usize_keys_ordered() -> bool {
    &&& vstd::std_specs::btree::key_obeys_cmp_spec::<usize>()
    &&& vstd::laws_cmp::obeys_cmp::<usize>()
}

/// Indices are ordered as `BTreeSet` and `BTreeMap` need their keys to be.
proof fn lemma_usize_keys_ordered()
    ensures
        usize_keys_ordered(),
{
    broadcast use vstd::std_specs::btree::group_btree_axioms;
    broadcast use vstd::laws_cmp::group_laws_cmp;
}

/// The indices of a listing of pairs.
pub open spec fn first_of<V>(q: Seq<(usize, V)>) -> Seq<usize> {
    q.map_values(|p: (usize, V)| p.0)
}

/// Whether `q` lists the pairs of `m` by increasing index.
pub open spec fn lists_map<V>(q: Seq<(usize, V)>, m: Map<usize, V>) -> bool {
    &&& strictly_increasing(first_of(q))
    &&& first_of(q).to_set() == m.dom()
    &&& forall|i: int| 0 <= i < q.len() ==> m[(#[trigger] q[i]).0] == q[i].1
}

/// The pairs of a map keyed by indices, by increasing index.
pub open spec fn map_order<V>(m: Map<usize, V>) -> Seq<(usize, V)> {
    choose|q: Seq<(usize, V)>| lists_map(q, m)
}

/// A listing of a map by increasing index is its `map_order`.
pub proof fn lemma_map_order_of<V>(q: Seq<(usize, V)>, m: Map<usize, V>)
    requires
        lists_map(q, m),
    ensures
        map_order(m) == q,
{
    assert(exists|r: Seq<(usize, V)>| lists_map(r, m));
    let r = map_order(m);
    lemma_increasing_unique(first_of(r), first_of(q));
    assert(r.len() == q.len()) by {
        assert(first_of(r).len() == first_of(q).len());
    }
    assert forall|i: int| 0 <= i < q.len() implies r[i] == q[i] by {
        assert(first_of(r)[i] == first_of(q)[i]);
    }
    assert(r =~= q);
}

/// The indices of a map, in increasing order.
fn map_keys_in_order<V>(m: &BTreeMap<usize, V>) -> (v: Vec<usize>)
    ensures
        strictly_increasing(v@),
        v@.to_set() == m@.dom(),
{
    broadcast use vstd::std_specs::btree::group_btree_axioms;
    broadcast use vstd::laws_cmp::group_laws_cmp;
    proof {
        vstd::std_specs::btree::axiom_spec_keys_iter(m);
    }
    let ghost keys = vstd::std_specs::iter::IteratorSpec::remaining(&vstd::std_specs::btree::spec_keys_iter(m)).map_values(|r: &usize| *r);
    let iter = m.keys();
    let mut v: Vec<usize> = Vec::new();
    for x in it: iter
        invariant
            it.seq().map_values(|r: &usize| *r) == keys,
            v@ == keys.take(it.index()),
    {
        v.push(*x);
    }
    assert(v@ == keys);
    assert(keys =~= vstd::std_specs::iter::IteratorSpec::remaining(&vstd::std_specs::btree::spec_keys_iter(m)).unref());
    assert forall|i: int, j: int| 0 <= i < j < keys.len() implies keys[i] < keys[j] by {
        let r = vstd::std_specs::iter::IteratorSpec::remaining(&vstd::std_specs::btree::spec_keys_iter(m));
        assert(vstd::std_specs::cmp::OrdSpec::cmp_spec(&r[i], &r[j]) is Less);
        assert(keys[i] == *r[i] && keys[j] == *r[j]);
    }
    v
}

/// The pairs of a map keyed by indices, taken out by increasing index.
pub fn map_in_order<V>(m: BTreeMap<usize, V>) -> (r: Vec<(usize, V)>)
    ensures
        lists_map(r@, m@),
        r@ == map_order(m@),
{
    broadcast use vstd::std_specs::btree::group_btree_axioms;
    proof {
        lemma_usize_keys_ordered();
    }
    let keys = map_keys_in_order(&m);
    let ghost m0 = m@;
    let mut m = m;
    let mut out: Vec<(usize, V)> = Vec::new();
    let mut i: usize = 0;
    while i < keys.len()
        invariant
            strictly_increasing(keys@),
            keys@.to_set() == m0.dom(),
            i <= keys@.len(),
            out@.len() == i,
            forall|j: int| 0 <= j < i ==> (#[trigger] out@[j]).0 == keys@[j] && out@[j].1 == m0[keys@[j]],
            forall|k: usize| #[trigger] m@.contains_key(k) <==> (m0.contains_key(k) && !keys@.take(i as int).contains(k)),
            forall|k: usize| m@.contains_key(k) ==> #[trigger] m@[k] == m0[k],
            usize_keys_ordered(),
        decreases keys@.len() - i,
    {
        let k = keys[i];
        let ghost before = m@;
        assert(keys@.to_set().contains(k));
        assert(!keys@.take(i as int).contains(k)) by {
            if keys@.take(i as int).contains(k) {
                let j = choose|j: int| 0 <= j < i && keys@.take(i as int)[j] == k;
                assert(keys@[j] < keys@[i as int]);
            }
        }
        match m.remove(&k) {
            Some(v) => {
                out.push((k, v));
            },
            None => {
                assert(false);
            },
        }
        proof {
            assert(m@ == before.remove(k));
            assert forall|x: usize| #[trigger] m@.contains_key(x) <==> (m0.contains_key(x) && !keys@.take(i as int + 1).contains(x)) by {
                let t = keys@.take(i as int);
                let t1 = keys@.take(i as int + 1);
                assert(t1 =~= t.push(k));
                if t1.contains(x) {
                    let j = choose|j: int| 0 <= j < t1.len() && t1[j] == x;
                    if j < t.len() {
                        assert(t[j] == x);
                    }
                }
                if t.contains(x) {
                    let j = choose|j: int| 0 <= j < t.len() && t[j] == x;
                    assert(t1[j] == x);
                }
                if x == k {
                    assert(t1[i as int] == x);
                }
            }
        }
        i = i + 1;
    }
    proof {
        assert(first_of(out@) =~= keys@) by {
            assert forall|j: int| 0 <= j < out@.len() implies first_of(out@)[j] == keys@[j] by {
                assert(out@[j].0 == keys@[j]);
            }
        }
        assert forall|j: int| 0 <= j < out@.len() implies m0[(#[trigger] out@[j]).0] == out@[j].1 by {}
        lemma_map_order_of(out@, m0);
    }
    out
}

/// The set of the indices of an increasing listing.
pub fn set_of_increasing(v: &Vec<usize>) -> (s: BTreeSet<usize>)
    requires
        strictly_increasing(v@),
    ensures
        s@ == v@.to_set(),
        set_order(s@) == v@,
        strictly_increasing(set_order(s@)),
{
    broadcast use vstd::std_specs::btree::group_btree_axioms;
    proof {
        lemma_usize_keys_ordered();
    }
    let mut s: BTreeSet<usize> = BTreeSet::new();
    let mut i: usize = 0;
    while i < v.len()
        invariant
            i <= v@.len(),
            s@ == v@.take(i as int).to_set(),
        decreases v@.len() - i,
    {
        s.insert(v[i]);
        assert(v@.take(i as int + 1).to_set() =~= v@.take(i as int).to_set().insert(v@[i as int])) by {
            let t = v@.take(i as int);
            let t1 = v@.take(i as int + 1);
            assert forall|x: usize| #[trigger] t1.to_set().contains(x) == t.to_set().insert(v@[i as int]).contains(x) by {
                if t1.contains(x) {
                    let k = choose|k: int| 0 <= k < t1.len() && t1[k] == x;
                    if k < t.len() {
                        assert(t[k] == x);
                    }
                }
                if t.contains(x) {
                    let k = choose|k: int| 0 <= k < t.len() && t[k] == x;
                    assert(t1[k] == x);
                }
                if x == v@[i as int] {
                    assert(t1[i as int] == x);
                }
            }
        }
        i = i + 1;
    }
    assert(v@.take(i as int) =~= v@);
    proof {
        lemma_set_order_of(v@);
    }
    s
}

/// Whether the unfinalized fork at `i` is abandoned by finalizing `block`:
/// its head is at the block's number.
pub open spec fn abandoned_at(forks: Seq<Fork<Vec<u8>>>, block: ComplexBlockId, i: int) -> bool {
    0 <= i < forks.len() && forks[i].head.valid_from.number == block.number
}

/// The forks dropped when `block` is finalized: those already dropped by
/// the previous finalization of the transaction, and those abandoned.
pub open spec fn abandoned_forks(forks: Seq<Fork<Vec<u8>>>, block: ComplexBlockId, prev: Seq<usize>) -> Set<usize> {
    prev.to_set().union(Set::new(|i: usize| abandoned_at(forks, block, i as int)))
}

/// The forks whose entries are deleted, in increasing index order: the
/// abandoned ones not dropped before whose head is not the block itself.
pub open spec fn destroyed_heads(forks: Seq<Fork<Vec<u8>>>, block: ComplexBlockId, prev: Seq<usize>, n: int) -> Seq<ComplexBlockId>
    decreases n,
{
    if n <= 0 {
        Seq::empty()
    } else {
        let rest = destroyed_heads(forks, block, prev, n - 1);
        let h = forks[n - 1].head.valid_from;
        if !prev.contains((n - 1) as usize) && abandoned_at(forks, block, n - 1) && h.hash != block.hash {
            rest.push(h)
        } else {
            rest
        }
    }
}

/// The actions deleting the entries of the forks with these heads.
pub open spec fn destroy_actions(heads: Seq<ComplexBlockId>, number: u64) -> Seq<TxAction> {
    heads.map_values(|h: ComplexBlockId| TxAction::DestroyFork(h, Some(number)))
}

impl ListCache<Vec<u8>> {
    /// The forks dropped when `block` is finalized, in increasing order, as
    /// `abandoned_forks` says; asks the transaction to delete the entries
    /// of the abandoned forks, as `destroyed_heads` says. `prev` is what
    /// the previous operation of the transaction dropped, when it was a
    /// finalization.
    pub fn destroy_abandoned_forks(&self, tx: &mut Vec<TxAction>, block: &ComplexBlockId, prev: Option<&BTreeSet<usize>>) -> (r: BTreeSet<usize>)
        ensures
            strictly_increasing(set_order(r@)),
            r@ == abandoned_forks(self@.unfinalized, *block, match prev { Some(p) => set_order(p@), None => Seq::empty() }),
            final(tx)@ == old(tx)@ + destroy_actions(
                destroyed_heads(self@.unfinalized, *block, match prev { Some(p) => set_order(p@), None => Seq::empty() }, self@.unfinalized.len() as int),
                block.number,
            ),
    {
        let pvec: Vec<usize> = match prev {
            Some(p) => set_in_order(p),
            None => Vec::new(),
        };
        let p: &Vec<usize> = &pvec;
        let ghost forks = self@.unfinalized;
        let ghost pv = p@;
        let ghost tx0 = tx@;
        let mut out: Vec<usize> = Vec::new();
        let mut j: usize = 0;
        let mut i: usize = 0;
        assert(destroyed_heads(forks, *block, pv, 0) =~= Seq::<ComplexBlockId>::empty());
        assert(tx@ =~= tx0 + destroy_actions(destroyed_heads(forks, *block, pv, 0), block.number));
        while i < self.unfinalized.len()
            invariant
                forks == self@.unfinalized,
                pv == p@,
                strictly_increasing(pv),
                i <= forks.len(),
                j <= pv.len(),
                forall|k: int| 0 <= k < j ==> pv[k] < i,
                forall|k: int| j <= k < pv.len() ==> pv[k] >= i,
                strictly_increasing(out@),
                forall|k: int| 0 <= k < out@.len() ==> out@[k] < i,
                forall|x: usize| #[trigger] out@.contains(x) <==> (
                    (pv.subrange(0, j as int).contains(x)) || (x < i && abandoned_at(forks, *block, x as int))),
                tx@ == tx0 + destroy_actions(destroyed_heads(forks, *block, pv, i as int), block.number),
            decreases forks.len() - i,
        {
            let h = self.unfinalized[i].head.valid_from;
            let ghost out0 = out@;
            let ghost j0 = j;
            let ghost tx1 = tx@;
            if j < p.len() && p[j] == i {
                out.push(i);
                j = j + 1;
                proof {
                    assert(pv.subrange(0, j as int).drop_last() =~= pv.subrange(0, j0 as int));
                    assert forall|x: usize| #[trigger] out@.contains(x) <==> (
                        (pv.subrange(0, j as int).contains(x)) || (x < i + 1 && abandoned_at(forks, *block, x as int))) by {
                        if out@.contains(x) && x != i {
                            let k = choose|k: int| 0 <= k < out@.len() && out@[k] == x;
                            assert(out0[k] == x);
                            assert(out0.contains(x));
                        }
                        if x == i {
                            assert(out@[out0.len() as int] == x);
                            assert(pv.subrange(0, j as int)[j0 as int] == x);
                        }
                        if pv.subrange(0, j as int).contains(x) && x != i {
                            let k = choose|k: int| 0 <= k < j && pv.subrange(0, j as int)[k] == x;
                            assert(k < j0);
                            assert(pv.subrange(0, j0 as int)[k] == x);
                            assert(out0.contains(x));
                            let m = choose|m: int| 0 <= m < out0.len() && out0[m] == x;
                            assert(out@[m] == x);
                        }
                        if x < i && abandoned_at(forks, *block, x as int) {
                            assert(out0.contains(x));
                            let m = choose|m: int| 0 <= m < out0.len() && out0[m] == x;
                            assert(out@[m] == x);
                        }
                    }
                    assert(pv[j0 as int] == i);
                    assert(pv.contains(i as usize));
                    assert(destroyed_heads(forks, *block, pv, i as int + 1) == destroyed_heads(forks, *block, pv, i as int));
                    assert forall|k: int| j <= k < pv.len() implies pv[k] >= i + 1 by {
                        assert(pv[j0 as int] < pv[k]);
                    }
                }
            } else {
                let is_abandoned = h.number == block.number;
                if is_abandoned {
                    out.push(i);
                    if !account_id_eq(&h.hash, &block.hash) {
                        tx.push(TxAction::DestroyFork(h, Some(block.number)));
                    }
                }
                proof {
                    assert(!pv.contains(i as usize)) by {
                        if pv.contains(i as usize) {
                            let k = choose|k: int| 0 <= k < pv.len() && pv[k] == i;
                            if k > j {
                                assert(pv[j as int] < pv[k]);
                            }
                        }
                    }
                    assert forall|x: usize| #[trigger] out@.contains(x) <==> (
                        (pv.subrange(0, j as int).contains(x)) || (x < i + 1 && abandoned_at(forks, *block, x as int))) by {
                        if out@.contains(x) && x != i {
                            let k = choose|k: int| 0 <= k < out@.len() && out@[k] == x;
                            assert(out0[k] == x);
                            assert(out0.contains(x));
                        }
                        if (pv.subrange(0, j as int).contains(x)) || (x < i && abandoned_at(forks, *block, x as int)) {
                            assert(out0.contains(x));
                            let m = choose|m: int| 0 <= m < out0.len() && out0[m] == x;
                            assert(out@[m] == x);
                        }
                        if x == i && is_abandoned {
                            assert(out@[out0.len() as int] == x);
                        }
                        if x == i && out@.contains(x) && !is_abandoned {
                            let k = choose|k: int| 0 <= k < out@.len() && out@[k] == x;
                            assert(out0[k] == x);
                        }
                        if x == i && pv.subrange(0, j as int).contains(x) {
                            let k = choose|k: int| 0 <= k < j && pv.subrange(0, j as int)[k] == x;
                            assert(pv[k] == x);
                        }
                    }
                    assert forall|k: int| j <= k < pv.len() implies pv[k] >= i + 1 by {
                        if pv[k] == i {
                            assert(pv.contains(i as usize));
                        }
                    }
                    let dh = destroyed_heads(forks, *block, pv, i as int);
                    if is_abandoned && h.hash != block.hash {
                        assert(destroyed_heads(forks, *block, pv, i as int + 1) == dh.push(h));
                        assert(destroy_actions(dh.push(h), block.number)
                            =~= destroy_actions(dh, block.number).push(TxAction::DestroyFork(h, Some(block.number))));
                        assert(tx@ =~= tx0 + destroy_actions(dh.push(h), block.number));
                    } else {
                        assert(destroyed_heads(forks, *block, pv, i as int + 1) == dh);
                    }
                }
            }
            i = i + 1;
        }
        while j < p.len()
            invariant
                forks == self@.unfinalized,
                pv == p@,
                strictly_increasing(pv),
                j <= pv.len(),
                strictly_increasing(out@),
                j < pv.len() ==> forall|k: int| 0 <= k < out@.len() ==> out@[k] < pv[j as int],
                forall|x: usize| #[trigger] out@.contains(x) <==> (
                    (pv.subrange(0, j as int).contains(x)) || abandoned_at(forks, *block, x as int)),
            decreases pv.len() - j,
        {
            let ghost out0 = out@;
            let ghost j0 = j;
            out.push(p[j]);
            j = j + 1;
            proof {
                assert(pv.subrange(0, j as int).drop_last() =~= pv.subrange(0, j0 as int));
                assert forall|x: usize| #[trigger] out@.contains(x) <==> (
                    (pv.subrange(0, j as int).contains(x)) || abandoned_at(forks, *block, x as int)) by {
                    if out@.contains(x) && x != pv[j0 as int] {
                        let k = choose|k: int| 0 <= k < out@.len() && out@[k] == x;
                        assert(out0[k] == x);
                        assert(out0.contains(x));
                    }
                    if x == pv[j0 as int] {
                        assert(out@[out0.len() as int] == x);
                        assert(pv.subrange(0, j as int)[j0 as int] == x);
                    }
                    if pv.subrange(0, j as int).contains(x) && x != pv[j0 as int] {
                        let k = choose|k: int| 0 <= k < j && pv.subrange(0, j as int)[k] == x;
                        assert(pv.subrange(0, j0 as int)[k] == x);
                        assert(out0.contains(x));
                        let m = choose|m: int| 0 <= m < out0.len() && out0[m] == x;
                        assert(out@[m] == x);
                    }
                    if abandoned_at(forks, *block, x as int) {
                        assert(out0.contains(x));
                        let m = choose|m: int| 0 <= m < out0.len() && out0[m] == x;
                        assert(out@[m] == x);
                    }
                }
                if j < pv.len() {
                    assert(pv[j0 as int] < pv[j as int]);
                }
            }
        }
        proof {
            assert(pv.subrange(0, pv.len() as int) =~= pv);
            let want = abandoned_forks(forks, *block, pv);
            assert forall|x: usize| #[trigger] out@.to_set().contains(x) <==> want.contains(x) by {
                if pv.contains(x) {
                    assert(pv.subrange(0, j as int).contains(x));
                }
            }
            assert(out@.to_set() =~= want);
        }
        set_of_increasing(&out)
    }
}

/// The prune action for finalizing a block with number `number`: pruning
/// at `depth` blocks behind it, when the strategy prunes and the chain is
/// that long.
pub open spec fn prune_actions(strategy: PruningStrategy, number: u64) -> Seq<TxAction> {
    match strategy {
        PruningStrategy::ByDepth(depth) => if number >= depth {
            seq![TxAction::PruneAncient((number - depth) as u64)]
        } else {
            Seq::empty()
        },
        PruningStrategy::NeverPrune => Seq::empty(),
    }
}

/// The index of the first fork whose best block is `parent`, or -1.
pub open spec fn first_appendable(forks: Seq<Fork<Vec<u8>>>, parent: ComplexBlockId) -> int
    decreases forks.len(),
{
    if forks.len() == 0 {
        -1
    } else {
        let r = first_appendable(forks.drop_last(), parent);
        if r >= 0 {
            r
        } else if forks.last().best_block == Some(parent) {
            forks.len() - 1
        } else {
            -1
        }
    }
}

/// `after` is `before` with the entry stored at `block` and the metadata
/// updated.
pub open spec fn wrote_entry(before: Seq<TxAction>, after: Seq<TxAction>, block: ComplexBlockId, entry: (Option<ComplexBlockId>, Seq<u8>)) -> bool {
    &&& after.len() == before.len() + 2
    &&& after.subrange(0, before.len() as int) == before
    &&& after[before.len() as int] matches TxAction::InsertEntry(b, se) && b == block
        && se.prev_valid_from == entry.0 && se.value@ == entry.1
    &&& after[before.len() + 1int] is UpdateMeta
}

/// The entry valid from `block` holds `value`.
pub open spec fn entry_is(e: Entry<Vec<u8>>, block: ComplexBlockId, value: Seq<u8>) -> bool {
    e.valid_from == block && e.value@ == value
}

/// The optional value as bytes.
pub open spec fn value_view(value: Option<Vec<u8>>) -> Option<Seq<u8>> {
    match value {
        Some(v) => Some(v@),
        None => None,
    }
}

/// The entry to store when the finalized list is updated with `value`:
/// after the best finalized entry when there is one, or as the first entry.
pub open spec fn finalized_update(best: Option<Entry<Vec<u8>>>, value: Option<Seq<u8>>) -> Option<(Option<ComplexBlockId>, Seq<u8>)> {
    match best {
        Some(e) => try_update_spec(e, value),
        None => match value {
            Some(v) => Some((None, v)),
            None => None,
        },
    }
}

/// The fork a new non-final block with this parent goes to: the first fork
/// whose best block is the parent, otherwise what the storage lookup found.
pub open spec fn fork_for(forks: Seq<Fork<Vec<u8>>>, parent: ComplexBlockId, storage_fork: Option<(usize, ForkAppendResult)>) -> Option<(usize, ForkAppendResult)> {
    if first_appendable(forks, parent) >= 0 {
        Some((first_appendable(forks, parent) as usize, ForkAppendResult::Append))
    } else {
        storage_fork
    }
}

/// The forks dropped by the previous operation, when it finalized a block.
pub open spec fn prev_abandoned(prev_operation: Option<CommitOperation<Vec<u8>>>) -> Seq<usize> {
    match prev_operation {
        Some(CommitOperation::BlockFinalized(_, _, forks)) => set_order(forks@),
        _ => Seq::empty(),
    }
}

/// The previous operation's dropped forks are in increasing order.
pub open spec fn prev_well_formed(prev_operation: Option<CommitOperation<Vec<u8>>>) -> bool {
    strictly_increasing(prev_abandoned(prev_operation))
}

impl ListCache<Vec<u8>> {
    /// Asks the transaction to prune old finalized entries when `block` is
    /// finalized, as `prune_actions` says.
    fn prune_finalized_entries(&self, tx: &mut Vec<TxAction>, block: &ComplexBlockId)
        ensures
            final(tx)@ == old(tx)@ + prune_actions(self@.pruning_strategy, block.number),
    {
        match self.pruning_strategy {
            PruningStrategy::ByDepth(depth) => {
                match block.number.checked_sub(depth) {
                    Some(number) => {
                        tx.push(TxAction::PruneAncient(number));
                        assert(tx@ =~= old(tx)@ + prune_actions(self@.pruning_strategy, block.number));
                    },
                    None => {
                        assert(tx@ =~= old(tx)@ + prune_actions(self@.pruning_strategy, block.number));
                    },
                }
            },
            PruningStrategy::NeverPrune => {
                assert(tx@ =~= old(tx)@ + prune_actions(self@.pruning_strategy, block.number));
            },
        }
    }

    /// The first fork whose best block is `parent`, as `first_appendable`
    /// says.
    fn find_appendable(&self, parent: &ComplexBlockId) -> (r: Option<usize>)
        ensures
            match r {
                Some(i) => i as int == first_appendable(self@.unfinalized, *parent) && i < self@.unfinalized.len(),
                None => first_appendable(self@.unfinalized, *parent) == -1,
            },
    {
        let ghost forks = self@.unfinalized;
        let mut i: usize = 0;
        assert(forks.subrange(0, 0) =~= Seq::<Fork<Vec<u8>>>::empty());
        while i < self.unfinalized.len()
            invariant
                forks == self@.unfinalized,
                i <= forks.len(),
                first_appendable(forks.subrange(0, i as int), *parent) == -1,
            decreases forks.len() - i,
        {
            assert(forks.subrange(0, i as int + 1).drop_last() =~= forks.subrange(0, i as int));
            if self.unfinalized[i].try_append(parent) {
                proof {
                    lemma_first_appendable_prefix(forks, *parent, i as int + 1);
                }
                return Some(i);
            }
            i = i + 1;
        }
        assert(forks.subrange(0, forks.len() as int) =~= forks);
        None
    }
}

/// A fork found in a prefix of the forks is the one found in all of them.
proof fn lemma_first_appendable_prefix(forks: Seq<Fork<Vec<u8>>>, parent: ComplexBlockId, n: int)
    requires
        0 <= n <= forks.len(),
        first_appendable(forks.subrange(0, n), parent) >= 0,
    ensures
        first_appendable(forks, parent) == first_appendable(forks.subrange(0, n), parent),
    decreases forks.len() - n,
{
    if n < forks.len() {
        assert(forks.subrange(0, n + 1).drop_last() =~= forks.subrange(0, n));
        lemma_first_appendable_prefix(forks, parent, n + 1);
    } else {
        assert(forks.subrange(0, n) =~= forks);
    }
}

/// What `first_appendable` finds is a fork whose best block is the parent.
pub proof fn lemma_first_appendable(forks: Seq<Fork<Vec<u8>>>, parent: ComplexBlockId)
    ensures
        first_appendable(forks, parent) >= -1,
        first_appendable(forks, parent) < forks.len(),
        first_appendable(forks, parent) >= 0 ==> forks[first_appendable(forks, parent)].best_block == Some(parent),
    decreases forks.len(),
{
    if forks.len() > 0 {
        lemma_first_appendable(forks.drop_last(), parent);
    }
}

/// The forks dropped by the previous operation, when it finalized a block.
fn prev_forks(prev_operation: Option<&CommitOperation<Vec<u8>>>) -> (r: Option<&BTreeSet<usize>>)
    ensures
        match r {
            Some(f) => set_order(f@) == prev_abandoned(match prev_operation { Some(o) => Some(*o), None => None }),
            None => prev_abandoned(match prev_operation { Some(o) => Some(*o), None => None }) == Seq::<usize>::empty(),
        },
{
    match prev_operation {
        Some(CommitOperation::BlockFinalized(_, _, forks)) => Some(forks),
        _ => None,
    }
}

impl ListCache<Vec<u8>> {
    /// The entry to store for `value` in the finalized list, as
    /// `finalized_update` says.
    fn finalized_update(&self, value: Option<Vec<u8>>) -> (r: Option<StorageEntry>)
        ensures
            storage_entry_view(r) == finalized_update(self@.best_finalized_entry, value_view(value)),
    {
        match &self.best_finalized_entry {
            Some(best) => best.try_update(value),
            None => match value {
                Some(v) => Some(StorageEntry { prev_valid_from: None, value: v }),
                None => None,
            },
        }
    }

    /// Stores `entry` at `block`, updates the metadata, and returns the
    /// entry valid from `block`.
    fn write_entry(tx: &mut Vec<TxAction>, block: ComplexBlockId, entry: StorageEntry) -> (r: Entry<Vec<u8>>)
        ensures
            wrote_entry(old(tx)@, final(tx)@, block, (entry.prev_valid_from, entry.value@)),
            entry_is(r, block, entry.value@),
    {
        let value = entry.value.clone();
        let ghost pv = entry.prev_valid_from;
        let ghost bytes = entry.value@;
        tx.push(TxAction::InsertEntry(block, entry));
        tx.push(TxAction::UpdateMeta);
        assert(tx@.subrange(0, old(tx)@.len() as int) =~= old(tx)@);
        Entry { valid_from: block, value }
    }

    /// Decides what inserting `block` with `value` (none when unchanged
    /// since the parent) does to the cache, and asks the transaction to
    /// store what it must. A non-final block goes to the first fork whose
    /// best block is its parent, otherwise where `storage_fork` says (what
    /// searching the forks' entries in storage found), otherwise it starts
    /// a fork from the finalized list. A final block updates the finalized
    /// list and drops the forks it abandons.
    pub fn do_on_block_insert(
        &self,
        tx: &mut Vec<TxAction>,
        parent: ComplexBlockId,
        block: ComplexBlockId,
        value: Option<Vec<u8>>,
        entry_type: EntryType,
        prev_operation: Option<&CommitOperation<Vec<u8>>>,
        storage_fork: Option<(usize, ForkAppendResult)>,
    ) -> (r: Option<CommitOperation<Vec<u8>>>)
        requires
            prev_well_formed(match prev_operation { Some(o) => Some(*o), None => None }),
            storage_fork matches Some((i, _)) ==> i < self@.unfinalized.len(),
        ensures
            ({
                let s = self@;
                let fin = entry_type == EntryType::Final || entry_type == EntryType::Genesis;
                let v = value_view(value);
                let prev = prev_abandoned(match prev_operation { Some(o) => Some(*o), None => None });
                if block.number != 0 && s.best_finalized_block.number >= block.number {
                    r is None && final(tx)@ == old(tx)@
                } else if !fin {
                    if v is None {
                        r is None && final(tx)@ == old(tx)@
                    } else {
                        match fork_for(s.unfinalized, parent, storage_fork) {
                            Some((i, ForkAppendResult::Append)) => match try_update_spec(s.unfinalized[i as int].head, v) {
                                None => r == Some(CommitOperation::<Vec<u8>>::AppendNewBlock(i, block)) && final(tx)@ == old(tx)@,
                                Some(se) => (r matches Some(CommitOperation::AppendNewEntry(j, e)) && j == i && entry_is(e, block, se.1))
                                    && wrote_entry(old(tx)@, final(tx)@, block, se),
                            },
                            Some((_, ForkAppendResult::Fork(pvf))) => (r matches Some(CommitOperation::AddNewFork(e)) && entry_is(e, block, v->0))
                                && wrote_entry(old(tx)@, final(tx)@, block, (Some(pvf), v->0)),
                            None => match finalized_update(s.best_finalized_entry, v) {
                                None => r is None && final(tx)@ == old(tx)@,
                                Some(se) => (r matches Some(CommitOperation::AddNewFork(e)) && entry_is(e, block, se.1))
                                    && wrote_entry(old(tx)@, final(tx)@, block, se),
                            },
                        }
                    }
                } else {
                    let mid = old(tx)@ + destroy_actions(destroyed_heads(s.unfinalized, block, prev, s.unfinalized.len() as int), block.number)
                        + prune_actions(s.pruning_strategy, block.number);
                    &&& r matches Some(CommitOperation::BlockFinalized(b, fe, forks)) && b == block
                        && strictly_increasing(set_order(forks@)) && forks@ == abandoned_forks(s.unfinalized, block, prev)
                        && match finalized_update(s.best_finalized_entry, v) {
                            None => fe is None && final(tx)@ == mid,
                            Some(se) => fe matches Some(e) && entry_is(e, block, se.1) && wrote_entry(mid, final(tx)@, block, se),
                        }
                }
            }),
    {
        if block.number != 0 && self.best_finalized_block.number >= block.number {
            return None;
        }
        let is_final = entry_type == EntryType::Final || entry_type == EntryType::Genesis;
        if !is_final {
            let v = match value {
                Some(v) => v,
                None => return None,
            };
            let fork_and_action = match self.find_appendable(&parent) {
                Some(i) => Some((i, ForkAppendResult::Append)),
                None => storage_fork,
            };
            match fork_and_action {
                Some((index, ForkAppendResult::Append)) => {
                    match self.unfinalized[index].head.try_update(Some(v)) {
                        None => return Some(CommitOperation::AppendNewBlock(index, block)),
                        Some(new_storage_entry) => {
                            let entry = ListCache::write_entry(tx, block, new_storage_entry);
                            return Some(CommitOperation::AppendNewEntry(index, entry));
                        },
                    }
                },
                Some((_, ForkAppendResult::Fork(prev_valid_from))) => {
                    let new_storage_entry = StorageEntry { prev_valid_from: Some(prev_valid_from), value: v };
                    let entry = ListCache::write_entry(tx, block, new_storage_entry);
                    return Some(CommitOperation::AddNewFork(entry));
                },
                None => {
                    return match self.finalized_update(Some(v)) {
                        Some(new_storage_entry) => {
                            let entry = ListCache::write_entry(tx, block, new_storage_entry);
                            Some(CommitOperation::AddNewFork(entry))
                        },
                        None => None,
                    };
                },
            }
        }
        let new_storage_entry = self.finalized_update(value);
        let abandoned = self.destroy_abandoned_forks(tx, &block, prev_forks(prev_operation));
        self.prune_finalized_entries(tx, &block);
        match new_storage_entry {
            Some(new_storage_entry) => {
                let entry = ListCache::write_entry(tx, block, new_storage_entry);
                Some(CommitOperation::BlockFinalized(block, Some(entry), abandoned))
            },
            None => Some(CommitOperation::BlockFinalized(block, None, abandoned)),
        }
    }

    /// Decides what finalizing `block` does to the cache: the entry stored
    /// at the block, if any (`stored_entry`), becomes the best finalized
    /// one, and the forks it abandons are dropped.
    pub fn do_on_block_finalize(
        &self,
        tx: &mut Vec<TxAction>,
        block: ComplexBlockId,
        prev_operation: Option<&CommitOperation<Vec<u8>>>,
        stored_entry: Option<StorageEntry>,
    ) -> (r: CommitOperation<Vec<u8>>)
        requires
            prev_well_formed(match prev_operation { Some(o) => Some(*o), None => None }),
        ensures
            ({
                let s = self@;
                let prev = prev_abandoned(match prev_operation { Some(o) => Some(*o), None => None });
                &&& r matches CommitOperation::BlockFinalized(b, fe, forks) && b == block
                    && strictly_increasing(set_order(forks@)) && forks@ == abandoned_forks(s.unfinalized, block, prev)
                    && match stored_entry {
                        None => fe is None,
                        Some(se) => fe matches Some(e) && entry_is(e, block, se.value@),
                    }
                &&& final(tx)@ == old(tx)@
                    + destroy_actions(destroyed_heads(s.unfinalized, block, prev, s.unfinalized.len() as int), block.number)
                    + prune_actions(s.pruning_strategy, block.number)
                    + seq![TxAction::UpdateMeta]
            }),
    {
        let finalizing_entry = match stored_entry {
            Some(se) => Some(se.into_entry(block)),
            None => None,
        };
        let abandoned = self.destroy_abandoned_forks(tx, &block, prev_forks(prev_operation));
        self.prune_finalized_entries(tx, &block);
        let ghost before = tx@;
        tx.push(TxAction::UpdateMeta);
        assert(tx@ =~= before + seq![TxAction::UpdateMeta]);
        CommitOperation::BlockFinalized(block, finalizing_entry, abandoned)
    }
}

} // verus!

verus! {

/// The forks whose positions are not listed in `idx`, in order.
pub open spec fn drop_listed<T>(forks: Seq<Fork<T>>, idx: Seq<usize>) -> Seq<Fork<T>>
    decreases forks.len(),
{
    if forks.len() == 0 {
        Seq::empty()
    } else {
        let prev = drop_listed(forks.drop_last(), idx);
        if idx.contains((forks.len() - 1) as usize) { prev } else { prev.push(forks.last()) }
    }
}

/// `drop_listed` reads the list only at positions of the forks.
proof fn lemma_drop_listed_reads_positions<T>(forks: Seq<Fork<T>>, a: Seq<usize>, b: Seq<usize>)
    requires
        forall|p: usize| p < forks.len() ==> (a.contains(p) <==> b.contains(p)),
    ensures
        drop_listed(forks, a) == drop_listed(forks, b),
    decreases forks.len(),
{
    if forks.len() > 0 {
        lemma_drop_listed_reads_positions(forks.drop_last(), a, b);
    }
}

/// Removing the fork at the largest listed position `m` and dropping the
/// others listed drops exactly the listed forks.
proof fn lemma_remove_largest<T>(forks: Seq<Fork<T>>, rest: Seq<usize>, m: usize)
    requires
        m < forks.len(),
        forks.len() <= usize::MAX,
        forall|i: int| 0 <= i < rest.len() ==> rest[i] < m,
    ensures
        drop_listed(forks.remove(m as int), rest) == drop_listed(forks, rest.push(m)),
    decreases forks.len(),
{
    let n = forks.len();
    let all = rest.push(m);
    if m == n - 1 {
        assert(forks.remove(m as int) =~= forks.drop_last());
        assert(all.contains(m)) by {
            assert(all[rest.len() as int] == m);
        }
        assert forall|p: usize| p < forks.drop_last().len() implies (rest.contains(p) <==> all.contains(p)) by {
            if all.contains(p) {
                let k = choose|k: int| 0 <= k < all.len() && all[k] == p;
                if k < rest.len() {
                    assert(rest[k] == p);
                }
            }
            if rest.contains(p) {
                let k = choose|k: int| 0 <= k < rest.len() && rest[k] == p;
                assert(all[k] == p);
            }
        }
        lemma_drop_listed_reads_positions(forks.drop_last(), rest, all);
    } else {
        let shorter = forks.drop_last();
        lemma_remove_largest(shorter, rest, m);
        let removed = forks.remove(m as int);
        assert(removed.drop_last() =~= shorter.remove(m as int));
        assert(removed.last() == forks.last());
        assert(!rest.contains((removed.len() - 1) as usize)) by {
            if rest.contains((removed.len() - 1) as usize) {
                let k = choose|k: int| 0 <= k < rest.len() && rest[k] == (removed.len() - 1) as usize;
                assert(rest[k] < m);
            }
        }
        assert(!all.contains((n - 1) as usize)) by {
            if all.contains((n - 1) as usize) {
                let k = choose|k: int| 0 <= k < all.len() && all[k] == (n - 1) as usize;
                if k < rest.len() {
                    assert(rest[k] < m);
                } else {
                    assert(all[k] == m);
                }
            }
        }
    }
}

/// Finalizing a block drops exactly the forks it abandons: removing the
/// listed positions one by one, from the largest to the smallest, leaves
/// the forks at the positions that are not listed, in order.
pub proof fn lemma_remove_indices_drops_listed<T>(forks: Seq<Fork<T>>, idx: Seq<usize>)
    requires
        forks.len() <= usize::MAX,
        strictly_increasing(idx),
        forall|i: int| 0 <= i < idx.len() ==> idx[i] < forks.len(),
    ensures
        removals_valid(forks, idx),
        remove_indices(forks, idx) == drop_listed(forks, idx),
    decreases idx.len(),
{
    if idx.len() == 0 {
        assert(drop_listed(forks, idx) =~= forks) by {
            lemma_drop_nothing(forks, idx);
        }
    } else {
        let m = idx.last();
        let rest = idx.drop_last();
        let smaller = forks.remove(m as int);
        assert forall|i: int| 0 <= i < rest.len() implies rest[i] < m by {
            assert(idx[i] < idx[idx.len() - 1]);
        }
        assert forall|i: int| 0 <= i < rest.len() implies rest[i] < smaller.len() by {
            assert(idx[i] < idx[idx.len() - 1]);
        }
        assert(strictly_increasing(rest)) by {
            assert forall|i: int, j: int| 0 <= i < j < rest.len() implies rest[i] < rest[j] by {
                assert(idx[i] < idx[j]);
            }
        }
        lemma_remove_indices_drops_listed(smaller, rest);
        lemma_remove_largest(forks, rest, m);
        assert(rest.push(m) =~= idx);
    }
}

/// With nothing listed, every fork stays.
proof fn lemma_drop_nothing<T>(forks: Seq<Fork<T>>, idx: Seq<usize>)
    requires
        idx.len() == 0,
    ensures
        drop_listed(forks, idx) == forks,
    decreases forks.len(),
{
    if forks.len() > 0 {
        lemma_drop_nothing(forks.drop_last(), idx);
        assert(forks.drop_last().push(forks.last()) =~= forks);
    }
}

} // verus!

verus! {

/// Whether a block is finalized: it is not after the best finalized block,
/// and it is the canonical block at its number (`canonical_hash` is the
/// stored hash there, read when the block is not after).
pub fn is_finalized_block(block: &ComplexBlockId, best_finalized_block: u64, canonical_hash: Option<[u8; 32]>) -> (r: bool)
    ensures
        r == (block.number <= best_finalized_block && canonical_hash == Some(block.hash)),
{
    if block.number > best_finalized_block {
        return false;
    }
    match canonical_hash {
        Some(h) => account_id_eq(&h, &block.hash),
        None => false,
    }
}

/// The ends of the walk that tells whether two blocks are on one chain:
/// the lower block, and the higher one, from which parents are followed
/// down to the lower block's number; the two are connected when the block
/// reached there is the lower one.
pub fn connection_ends(block1: ComplexBlockId, block2: ComplexBlockId) -> (r: (ComplexBlockId, ComplexBlockId))
    ensures
        r == if block1.number > block2.number { (block2, block1) } else { (block1, block2) },
{
    if block1.number > block2.number { (block2, block1) } else { (block1, block2) }
}

/// One step of the walk down the higher block's ancestry.
#[derive(Clone, Copy, Debug)]
pub enum ConnectionStep {
    /// The block reached is still above the lower block: read the header
    /// of its parent, by this hash, and step again from there.
    ReadParent([u8; 32]),
    /// The walk reached the lower block's number: whether the block there
    /// is the lower block.
    Connected(bool),
}

/// What the walk does at the block `current_hash`, numbered
/// `current_number`, whose parent is `current_parent`, on the way down to
/// `begin`, the lower of the two blocks.
pub fn connection_step(begin: ComplexBlockId, current_hash: [u8; 32], current_number: u64, current_parent: [u8; 32]) -> (r: ConnectionStep)
    ensures
        r == if current_number > begin.number {
            ConnectionStep::ReadParent(current_parent)
        } else {
            ConnectionStep::Connected(begin.hash == current_hash)
        },
{
    if current_number > begin.number {
        ConnectionStep::ReadParent(current_parent)
    } else {
        ConnectionStep::Connected(account_id_eq(&begin.hash, &current_hash))
    }
}

/// One step of truncating a fork down to the blocks before
/// `reverting_block`, at the entry of block `current` (its stored entry is
/// `entry`).
#[derive(Debug)]
pub enum TruncateStep {
    /// The walk is over: the fork, truncated, when it still has entries
    /// after the finalized ones.
    Done(Option<Fork<Vec<u8>>>),
    /// The entry was deleted; go on with the previous entry, if any (none
    /// ends the walk with no fork left).
    Removed(Option<ComplexBlockId>),
}

impl Fork<Vec<u8>> {
    /// One step of truncating a fork down to the blocks before
    /// `reverting_block`: an entry before that block ends the walk, with no
    /// fork left when the entry is finalized and the fork starting there
    /// otherwise; a later entry is deleted and the walk goes on with the
    /// entry before it.
    pub fn truncate_step(tx: &mut Vec<TxAction>, current: ComplexBlockId, entry: StorageEntry, reverting_block: u64, current_is_finalized: bool) -> (r: TruncateStep)
        ensures
            current.number < reverting_block ==> final(tx)@ == old(tx)@ && (if current_is_finalized {
                r matches TruncateStep::Done(None)
            } else {
                r matches TruncateStep::Done(Some(f)) && f.best_block is None && f.head.valid_from == current
                    && f.head.value@ == entry.value@
            }),
            current.number >= reverting_block ==> final(tx)@ == old(tx)@.push(TxAction::RemoveEntry(current))
                && (r matches TruncateStep::Removed(p) && p == entry.prev_valid_from),
    {
        if current.number < reverting_block {
            if current_is_finalized {
                return TruncateStep::Done(None);
            }
            return TruncateStep::Done(Some(Fork { best_block: None, head: entry.into_entry(current) }));
        }
        tx.push(TxAction::RemoveEntry(current));
        TruncateStep::Removed(entry.prev_valid_from)
    }
}

/// The positions of the forks that reverting `reverted` may truncate:
/// those whose head is not before the reverted block.
pub open spec fn revert_candidates_spec(forks: Seq<Fork<Vec<u8>>>, reverted: ComplexBlockId) -> Seq<usize>
    decreases forks.len(),
{
    if forks.len() == 0 {
        Seq::empty()
    } else {
        let prev = revert_candidates_spec(forks.drop_last(), reverted);
        if forks.last().head.valid_from.number >= reverted.number {
            prev.push((forks.len() - 1) as usize)
        } else {
            prev
        }
    }
}

impl ListCache<Vec<u8>> {
    /// The positions of the forks that reverting the block may truncate,
    /// in increasing order; each is then truncated when its head is on the
    /// reverted block's chain.
    pub fn revert_candidates(&self, reverted: &ComplexBlockId) -> (r: Vec<usize>)
        ensures
            r@ == revert_candidates_spec(self@.unfinalized, *reverted),
    {
        let ghost forks = self@.unfinalized;
        let mut out: Vec<usize> = Vec::new();
        let mut i: usize = 0;
        assert(forks.take(0) =~= Seq::<Fork<Vec<u8>>>::empty());
        while i < self.unfinalized.len()
            invariant
                forks == self@.unfinalized,
                i <= forks.len(),
                out@ == revert_candidates_spec(forks.take(i as int), *reverted),
            decreases forks.len() - i,
        {
            assert(forks.take(i as int + 1).drop_last() =~= forks.take(i as int));
            assert(forks.take(i as int + 1).last() == forks[i as int]);
            if self.unfinalized[i].head.valid_from.number >= reverted.number {
                out.push(i);
            }
            i = i + 1;
        }
        assert(forks.take(forks.len() as int) =~= forks);
        out
    }

    /// Reverting a block: the truncated forks (by position, increasing),
    /// once the metadata is updated, become the operation to commit.
    pub fn do_on_block_revert(&self, tx: &mut Vec<TxAction>, reverted: &ComplexBlockId, updated: BTreeMap<usize, Option<Fork<Vec<u8>>>>) -> (r: CommitOperation<Vec<u8>>)
        requires
            self@.best_finalized_block.number < reverted.number,
        ensures
            r matches CommitOperation::BlockReverted(u) && u@ == updated@,
            final(tx)@ == old(tx)@.push(TxAction::UpdateMeta),
    {
        tx.push(TxAction::UpdateMeta);
        CommitOperation::BlockReverted(updated)
    }
}


} // verus!
