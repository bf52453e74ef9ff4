use std::collections::{BTreeMap, BTreeSet};
use vertic::list_cache::{
    connection_ends, connection_step, is_finalized_block, ConnectionStep, CommitOperation, CommitOperations, ComplexBlockId, Entry, EntryType, Fork,
    ForkAppendResult, ListCache, PruningStrategy, StorageEntry, TruncateStep, TxAction,
};

fn blk(n: u64, h: u8) -> ComplexBlockId {
    ComplexBlockId { hash: [h; 32], number: n }
}

fn entry(n: u64, h: u8, v: u8) -> Entry<Vec<u8>> {
    Entry { valid_from: blk(n, h), value: vec![v] }
}

fn cache_with_fork() -> ListCache<Vec<u8>> {
    let mut c = ListCache::new(PruningStrategy::ByDepth(10), blk(2, 2), Some(entry(1, 1, 10)), vec![]);
    c.on_transaction_commit(CommitOperations::from_vec(vec![CommitOperation::AddNewFork(entry(4, 4, 20))]));
    c
}

#[test]
fn appended_finalizations_merge() {
    let mut ops: CommitOperations<Vec<u8>> = CommitOperations::default();
    ops.append(None);
    assert!(ops.operations().is_empty());
    ops.append(Some(CommitOperation::AddNewFork(entry(3, 3, 1))));
    ops.append(Some(CommitOperation::BlockFinalized(blk(3, 3), None, set(&[]))));
    ops.append(Some(CommitOperation::BlockFinalized(blk(4, 4), None, set(&[0]))));
    assert_eq!(ops.operations().len(), 2);
    assert!(matches!(ops.operations()[0], CommitOperation::AddNewFork(_)));
    assert!(matches!(&ops.operations()[1], CommitOperation::BlockFinalized(b, None, f) if b.number == 4 && f == &set(&[0])));
    ops.append(Some(CommitOperation::AppendNewBlock(0, blk(5, 5))));
    assert_eq!(ops.operations().len(), 3);
}

#[test]
fn committed_operations_update_forks() {
    let mut c = cache_with_fork();
    assert_eq!(c.unfinalized().len(), 1);
    assert_eq!(c.unfinalized()[0].best_block.unwrap().number, 4);
    c.on_transaction_commit(CommitOperations::from_vec(vec![
        CommitOperation::AppendNewBlock(0, blk(5, 5)),
        CommitOperation::AddNewFork(entry(5, 6, 30)),
    ]));
    assert_eq!(c.unfinalized().len(), 2);
    assert_eq!(c.unfinalized()[0].best_block.unwrap().number, 5);
    assert_eq!(c.unfinalized()[0].head.value, vec![20]);
    c.on_transaction_commit(CommitOperations::from_vec(vec![CommitOperation::AppendNewEntry(1, entry(6, 7, 40))]));
    assert_eq!(c.unfinalized()[1].head.value, vec![40]);
    c.on_transaction_commit(CommitOperations::from_vec(vec![CommitOperation::BlockFinalized(
        blk(5, 5),
        Some(entry(5, 5, 50)),
        set(&[0, 1]),
    )]));
    assert!(c.unfinalized().is_empty());
    assert_eq!(c.best_finalized_block().number, 5);
    assert_eq!(c.best_finalized_entry().as_ref().unwrap().value, vec![50]);
}

#[test]
fn reverted_forks_are_replaced_or_dropped() {
    let mut c = ListCache::new(PruningStrategy::NeverPrune, blk(1, 1), None, vec![entry(3, 3, 1), entry(4, 4, 2), entry(5, 5, 3)]);
    assert!(c.unfinalized()[0].best_block.is_none());
    let mut updates = BTreeMap::new();
    updates.insert(2, Some(Fork::new(None, entry(2, 9, 7))));
    updates.insert(0, None);
    c.on_transaction_commit(CommitOperations::from_vec(vec![CommitOperation::BlockReverted(updates)]));
    assert_eq!(c.unfinalized().len(), 2);
    assert_eq!(c.unfinalized()[0].head.value, vec![2]);
    assert_eq!(c.unfinalized()[1].head.value, vec![7]);
}

#[test]
fn fork_appends_only_after_its_best_block() {
    let c = cache_with_fork();
    assert!(c.unfinalized()[0].try_append(&blk(4, 4)));
    assert!(!c.unfinalized()[0].try_append(&blk(4, 5)));
    let f = Fork::new(None, entry(4, 4, 1));
    assert!(!f.try_append(&blk(4, 4)));
    assert_eq!(f.head().valid_from.number, 4);
}

#[test]
fn blocks_behind_finalized_are_ignored() {
    let c = cache_with_fork();
    let mut tx = vec![];
    let r = c.do_on_block_insert(&mut tx, blk(1, 1), blk(2, 9), Some(vec![1]), EntryType::NonFinal, None, None);
    assert!(r.is_none());
    let r = c.do_on_block_insert(&mut tx, blk(4, 4), blk(5, 5), None, EntryType::NonFinal, None, None);
    assert!(r.is_none());
    assert!(tx.is_empty());
}

#[test]
fn block_after_fork_best_appends() {
    let c = cache_with_fork();
    let mut tx = vec![];
    let r = c.do_on_block_insert(&mut tx, blk(4, 4), blk(5, 5), Some(vec![20]), EntryType::NonFinal, None, None);
    assert!(matches!(r, Some(CommitOperation::AppendNewBlock(0, b)) if b.number == 5));
    assert!(tx.is_empty());
    let r = c.do_on_block_insert(&mut tx, blk(4, 4), blk(5, 5), Some(vec![21]), EntryType::NonFinal, None, None);
    assert!(matches!(&r, Some(CommitOperation::AppendNewEntry(0, e)) if e.value == vec![21] && e.valid_from.number == 5));
    assert_eq!(tx.len(), 2);
    assert!(matches!(&tx[0], TxAction::InsertEntry(b, se) if b.number == 5 && se.prev_valid_from.unwrap().number == 4));
    assert!(matches!(tx[1], TxAction::UpdateMeta));
}

#[test]
fn block_forking_a_fork_starts_one() {
    let c = cache_with_fork();
    let mut tx = vec![];
    let r = c.do_on_block_insert(
        &mut tx, blk(3, 3), blk(4, 8), Some(vec![9]), EntryType::NonFinal, None,
        Some((0, ForkAppendResult::Fork(blk(3, 3)))),
    );
    assert!(matches!(&r, Some(CommitOperation::AddNewFork(e)) if e.value == vec![9] && e.valid_from.hash == [8; 32]));
    assert!(matches!(&tx[0], TxAction::InsertEntry(_, se) if se.prev_valid_from.unwrap().number == 3));
}

#[test]
fn unknown_fork_starts_from_finalized_entry() {
    let c = cache_with_fork();
    let mut tx = vec![];
    let r = c.do_on_block_insert(&mut tx, blk(3, 3), blk(4, 8), Some(vec![11]), EntryType::NonFinal, None, None);
    assert!(matches!(&r, Some(CommitOperation::AddNewFork(e)) if e.value == vec![11]));
    assert!(matches!(&tx[0], TxAction::InsertEntry(_, se) if se.prev_valid_from.unwrap().number == 1));
    let mut tx = vec![];
    let r = c.do_on_block_insert(&mut tx, blk(3, 3), blk(4, 8), Some(vec![10]), EntryType::NonFinal, None, None);
    assert!(r.is_none());
    assert!(tx.is_empty());
}

#[test]
fn final_block_drops_abandoned_forks_and_prunes() {
    let c = cache_with_fork();
    let mut tx = vec![];
    let r = c.do_on_block_insert(&mut tx, blk(3, 3), blk(4, 9), Some(vec![12]), EntryType::Final, None, None);
    match &r {
        Some(CommitOperation::BlockFinalized(b, Some(e), forks)) => {
            assert_eq!(b.number, 4);
            assert_eq!(e.value, vec![12]);
            assert_eq!(forks, &set(&[0]));
        },
        _ => panic!("expected a finalization"),
    }
    assert!(matches!(tx[0], TxAction::DestroyFork(h, Some(4)) if h.hash == [4; 32]));
    assert!(matches!(tx[1], TxAction::InsertEntry(_, _)));
    assert!(matches!(tx[2], TxAction::UpdateMeta));
}

#[test]
fn finalizing_far_enough_prunes() {
    let c = ListCache::new(PruningStrategy::ByDepth(10), blk(20, 20), None, vec![]);
    let mut tx = vec![];
    let op = c.do_on_block_finalize(&mut tx, blk(25, 25), None, Some(StorageEntry { prev_valid_from: None, value: vec![1] }));
    assert!(matches!(&op, CommitOperation::BlockFinalized(b, Some(e), f) if b.number == 25 && e.value == vec![1] && f.is_empty()));
    assert!(matches!(tx[0], TxAction::PruneAncient(15)));
    assert!(matches!(tx[1], TxAction::UpdateMeta));
}

#[test]
fn abandoned_forks_merge_with_earlier_ones() {
    let c = ListCache::new(PruningStrategy::NeverPrune, blk(1, 1), None, vec![entry(5, 1, 1), entry(7, 2, 2), entry(5, 3, 3)]);
    let mut tx = vec![];
    let prev = set(&[1, 8]);
    let r = c.destroy_abandoned_forks(&mut tx, &blk(5, 3), Some(&prev));
    assert_eq!(r, set(&[0, 1, 2, 8]));
    assert_eq!(tx.len(), 1);
    assert!(matches!(tx[0], TxAction::DestroyFork(h, Some(5)) if h.hash == [1; 32]));
}

#[test]
fn finalization_drops_exactly_the_listed_forks() {
    let mut c = ListCache::new(
        PruningStrategy::NeverPrune,
        blk(1, 1),
        None,
        vec![entry(3, 3, 1), entry(4, 4, 2), entry(5, 5, 3), entry(6, 6, 4)],
    );
    c.on_transaction_commit(CommitOperations::from_vec(vec![CommitOperation::BlockFinalized(blk(2, 2), None, set(&[0, 2]))]));
    let left: Vec<Vec<u8>> = c.unfinalized().iter().map(|f| f.head.value.clone()).collect();
    assert_eq!(left, vec![vec![2], vec![4]]);
}

#[test]
fn finalized_blocks_are_canonical_and_not_after_best() {
    assert!(is_finalized_block(&blk(3, 3), 5, Some([3; 32])));
    assert!(!is_finalized_block(&blk(3, 3), 5, Some([4; 32])));
    assert!(!is_finalized_block(&blk(3, 3), 5, None));
    assert!(!is_finalized_block(&blk(6, 6), 5, Some([6; 32])));
}

#[test]
fn connection_walks_down_from_the_higher_block() {
    let (begin, end) = connection_ends(blk(7, 7), blk(3, 3));
    assert_eq!((begin.number, end.number), (3, 7));
    let (begin, end) = connection_ends(blk(3, 3), blk(7, 7));
    assert_eq!((begin.number, end.number), (3, 7));
}

#[test]
fn truncation_removes_entries_from_the_reverted_block_on() {
    let mut tx = vec![];
    let step = Fork::truncate_step(&mut tx, blk(6, 6), StorageEntry { prev_valid_from: Some(blk(4, 4)), value: vec![2] }, 5, false);
    assert!(matches!(step, TruncateStep::Removed(Some(b)) if b.number == 4));
    assert!(matches!(tx[0], TxAction::RemoveEntry(b) if b.number == 6));
    let step = Fork::truncate_step(&mut tx, blk(4, 4), StorageEntry { prev_valid_from: None, value: vec![1] }, 5, false);
    match step {
        TruncateStep::Done(Some(f)) => {
            assert!(f.best_block.is_none());
            assert_eq!(f.head.valid_from.number, 4);
            assert_eq!(f.head.value, vec![1]);
        }
        _ => panic!("expected the truncated fork"),
    }
    let step = Fork::truncate_step(&mut tx, blk(4, 4), StorageEntry { prev_valid_from: None, value: vec![1] }, 5, true);
    assert!(matches!(step, TruncateStep::Done(None)));
    assert_eq!(tx.len(), 1);
}

#[test]
fn revert_looks_at_forks_not_before_the_block() {
    let c = ListCache::new(PruningStrategy::NeverPrune, blk(1, 1), None, vec![entry(3, 3, 1), entry(6, 6, 2), entry(5, 5, 3)]);
    assert_eq!(c.revert_candidates(&blk(5, 9)), vec![1, 2]);
    let mut tx = vec![];
    let mut updates = BTreeMap::new();
    updates.insert(1, None);
    let op = c.do_on_block_revert(&mut tx, &blk(5, 9), updates);
    assert!(matches!(op, CommitOperation::BlockReverted(u) if u.len() == 1 && u[&1].is_none()));
    assert!(matches!(tx[0], TxAction::UpdateMeta));
}

#[test]
fn connection_walk_steps() {
    let begin = blk(5, 1);
    assert!(matches!(connection_step(begin, [9; 32], 7, [8; 32]), ConnectionStep::ReadParent(h) if h == [8; 32]));
    assert!(matches!(connection_step(begin, [1; 32], 5, [0; 32]), ConnectionStep::Connected(true)));
    assert!(matches!(connection_step(begin, [2; 32], 5, [0; 32]), ConnectionStep::Connected(false)));
    assert!(matches!(connection_step(begin, [1; 32], 4, [0; 32]), ConnectionStep::Connected(true)));
}

fn set(items: &[usize]) -> BTreeSet<usize> {
    items.iter().copied().collect()
}
