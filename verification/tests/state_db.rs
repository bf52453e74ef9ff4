use std::collections::HashMap;
use vertic::state_db::{
    last_pruned_key, to_journal_key, CommitSet, MemoryMetaDb, MetaDb, PruningError, RefWindow,
};

struct TestDb {
    meta: MemoryMetaDb,
    data: HashMap<u64, Vec<u8>>,
}

impl TestDb {
    fn default() -> TestDb {
        TestDb { meta: MemoryMetaDb::new(), data: HashMap::new() }
    }

    fn commit(&mut self, commit: &CommitSet) {
        for (k, v) in commit.data.inserted.iter() {
            self.data.insert(*k, v.clone());
        }
        for k in commit.data.deleted.iter() {
            self.data.remove(k);
        }
        self.meta.commit(commit);
    }
}

fn commit_set(inserted: &[u64], deleted: &[u64]) -> CommitSet {
    let mut c = CommitSet::new();
    for k in inserted {
        c.data.inserted.push((*k, vec![*k as u8]));
    }
    for k in deleted {
        c.data.deleted.push(*k);
    }
    c
}

#[test]
fn journal_key_is_le_block_number_then_suffix() {
    let mut expected = 5u64.to_le_bytes().to_vec();
    expected.extend_from_slice(b"pruning_journal");
    assert_eq!(to_journal_key(5), expected);
    assert_eq!(last_pruned_key(), b"last_pruned".to_vec());
}

#[test]
fn created_from_empty_db() {
    let db = TestDb::default();
    let pruning = RefWindow::new(&db.meta, true).ok().unwrap();
    assert_eq!(pruning.window_size(), 0);
    assert_eq!(pruning.pending(), 0);
    assert_eq!(pruning.next_hash(), None);
    assert_eq!(pruning.mem_used(), 0);
}

#[test]
fn prune_empty_is_noop() {
    let db = TestDb::default();
    let mut pruning = RefWindow::new(&db.meta, true).ok().unwrap();
    let mut commit = CommitSet::new();
    pruning.prune_one(&mut commit);
    assert_eq!(pruning.pending(), 0);
    assert!(commit.data.deleted.is_empty());
    assert!(commit.meta.inserted.is_empty());
    assert!(commit.meta.deleted.is_empty());
}

#[test]
fn prune_one_deletes_death_row() {
    let mut db = TestDb::default();
    for k in [1u64, 2, 3] {
        db.data.insert(k, vec![k as u8]);
    }
    let mut pruning = RefWindow::new(&db.meta, true).ok().unwrap();
    let mut commit = commit_set(&[4, 5], &[1, 3]);
    pruning.note_canonical(7, &mut commit);
    assert!(commit.data.deleted.is_empty());
    db.commit(&commit);
    assert!(pruning.have_block(7));
    pruning.apply_pending();
    assert!(pruning.have_block(7));
    assert_eq!(pruning.window_size(), 1);
    assert_eq!(pruning.next_hash(), Some(7));

    let mut commit = CommitSet::new();
    pruning.prune_one(&mut commit);
    assert!(!pruning.have_block(7));
    let mut deleted = commit.data.deleted.clone();
    deleted.sort();
    assert_eq!(deleted, vec![1, 3]);
    assert_eq!(commit.meta.inserted, vec![(last_pruned_key(), 0u64.to_le_bytes().to_vec())]);
    assert_eq!(commit.meta.deleted, vec![to_journal_key(0)]);
    db.commit(&commit);
    pruning.apply_pending();
    assert_eq!(pruning.pending(), 1);
    assert_eq!(pruning.window_size(), 0);
    let mut left: Vec<u64> = db.data.keys().cloned().collect();
    left.sort();
    assert_eq!(left, vec![2, 4, 5]);
}

#[test]
fn reinserted_key_survives_pruning() {
    let mut db = TestDb::default();
    let mut pruning = RefWindow::new(&db.meta, true).ok().unwrap();
    let mut commit = commit_set(&[], &[2]);
    pruning.note_canonical(1, &mut commit);
    db.commit(&commit);
    let mut commit = commit_set(&[2], &[]);
    pruning.note_canonical(2, &mut commit);
    db.commit(&commit);
    pruning.apply_pending();
    let mut commit = CommitSet::new();
    pruning.prune_one(&mut commit);
    assert!(commit.data.deleted.is_empty());
}

#[test]
fn without_insertion_counting_reinserted_key_is_pruned() {
    let db = TestDb::default();
    let mut pruning = RefWindow::new(&db.meta, false).ok().unwrap();
    let mut commit = commit_set(&[], &[2]);
    pruning.note_canonical(1, &mut commit);
    let mut commit = commit_set(&[2], &[]);
    pruning.note_canonical(2, &mut commit);
    pruning.apply_pending();
    let mut commit = CommitSet::new();
    pruning.prune_one(&mut commit);
    assert_eq!(commit.data.deleted, vec![2]);
}

#[test]
fn revert_pending_drops_new_rows() {
    let db = TestDb::default();
    let mut pruning = RefWindow::new(&db.meta, true).ok().unwrap();
    let mut commit = commit_set(&[], &[2]);
    pruning.note_canonical(1, &mut commit);
    pruning.apply_pending();
    let mut commit = commit_set(&[], &[3]);
    pruning.note_canonical(2, &mut commit);
    let mut commit = CommitSet::new();
    pruning.prune_one(&mut commit);
    assert_eq!(pruning.window_size(), 1);
    pruning.revert_pending();
    assert_eq!(pruning.window_size(), 1);
    assert_eq!(pruning.pending(), 0);
    assert!(pruning.have_block(1));
    assert!(!pruning.have_block(2));
}

#[test]
fn window_is_restored_from_journal() {
    let mut db = TestDb::default();
    let mut pruning = RefWindow::new(&db.meta, true).ok().unwrap();
    let mut commit = commit_set(&[10], &[1]);
    pruning.note_canonical(11, &mut commit);
    db.commit(&commit);
    let mut commit = commit_set(&[1], &[10]);
    pruning.note_canonical(12, &mut commit);
    db.commit(&commit);
    pruning.apply_pending();
    let mut commit = CommitSet::new();
    pruning.prune_one(&mut commit);
    db.commit(&commit);
    pruning.apply_pending();

    let restored = RefWindow::new(&db.meta, true).ok().unwrap();
    assert_eq!(restored.pending(), 1);
    assert_eq!(restored.window_size(), 1);
    assert_eq!(restored.next_hash(), Some(12));
    assert!(restored.have_block(12));
    assert!(!restored.have_block(11));
}

#[test]
fn short_last_pruned_value_fails_to_decode() {
    let mut db = TestDb::default();
    db.meta.insert(last_pruned_key(), vec![1, 2, 3]);
    assert_eq!(db.meta.get_meta(&last_pruned_key()), Ok(Some(vec![1, 2, 3])));
    match RefWindow::new(&db.meta, true) {
        Err(PruningError::Decode) => {}
        _ => panic!("expected a decoding error"),
    }
}

#[test]
fn corrupt_journal_record_fails_to_decode() {
    let mut db = TestDb::default();
    db.meta.insert(to_journal_key(0), vec![1, 2, 3]);
    match RefWindow::new(&db.meta, true) {
        Err(PruningError::Decode) => {}
        _ => panic!("expected a decoding error"),
    }
}

#[test]
fn reading_a_database_that_answers_gives_a_window() {
    let mut db = TestDb::default();
    db.meta.insert(last_pruned_key(), 6u64.to_le_bytes().to_vec());
    let pruning = RefWindow::new(&db.meta, false).ok().unwrap();
    assert_eq!(pruning.pending(), 7);
    assert_eq!(pruning.window_size(), 0);
    assert_eq!(pruning.next_hash(), None);
}

#[test]
fn window_size_counts_notes_and_prunes() {
    let db = TestDb::default();
    let mut pruning = RefWindow::new(&db.meta, true).ok().unwrap();
    for (hash, key) in [(1u64, 10u64), (2, 20), (3, 30)] {
        let mut commit = commit_set(&[], &[key]);
        pruning.note_canonical(hash, &mut commit);
    }
    let mut commit = CommitSet::new();
    pruning.prune_one(&mut commit);
    assert_eq!(pruning.window_size(), 2);
    pruning.prune_one(&mut commit);
    pruning.prune_one(&mut commit);
    assert_eq!(pruning.window_size(), 0);
    assert_eq!(pruning.next_hash(), None);
}

#[test]
fn oldest_block_is_pruned_first() {
    let db = TestDb::default();
    let mut pruning = RefWindow::new(&db.meta, true).ok().unwrap();
    let mut commit = commit_set(&[], &[1]);
    pruning.note_canonical(41, &mut commit);
    let mut commit = commit_set(&[], &[2]);
    pruning.note_canonical(42, &mut commit);
    assert_eq!(pruning.next_hash(), Some(41));
    let mut commit = CommitSet::new();
    pruning.prune_one(&mut commit);
    assert_eq!(pruning.next_hash(), Some(42));
    assert!(!pruning.have_block(41));
    assert!(pruning.have_block(42));
    pruning.apply_pending();
    assert_eq!(pruning.next_hash(), Some(42));
    pruning.prune_one(&mut commit);
    assert_eq!(pruning.next_hash(), None);
}

#[test]
fn revert_after_several_steps_restores_window() {
    let db = TestDb::default();
    let mut pruning = RefWindow::new(&db.meta, false).ok().unwrap();
    let mut commit = commit_set(&[], &[1]);
    pruning.note_canonical(1, &mut commit);
    pruning.apply_pending();
    for hash in [2u64, 3, 4] {
        let mut commit = commit_set(&[], &[hash]);
        pruning.note_canonical(hash, &mut commit);
    }
    let mut commit = CommitSet::new();
    pruning.prune_one(&mut commit);
    pruning.prune_one(&mut commit);
    pruning.revert_pending();
    assert_eq!(pruning.window_size(), 1);
    assert_eq!(pruning.pending(), 0);
    assert_eq!(pruning.next_hash(), Some(1));
    assert!(pruning.have_block(1));
    assert!(!pruning.have_block(3));
}

#[test]
fn prune_deletes_keys_not_reinserted_later() {
    let db = TestDb::default();
    let mut pruning = RefWindow::new(&db.meta, true).ok().unwrap();
    let mut commit = commit_set(&[], &[1, 2, 3]);
    pruning.note_canonical(1, &mut commit);
    let mut commit = commit_set(&[2], &[]);
    pruning.note_canonical(2, &mut commit);
    let mut commit = commit_set(&[3, 9], &[]);
    pruning.note_canonical(3, &mut commit);
    let mut commit = CommitSet::new();
    pruning.prune_one(&mut commit);
    assert_eq!(commit.data.deleted, vec![1]);
}

#[test]
fn window_restored_after_several_commits() {
    let mut db = TestDb::default();
    let mut pruning = RefWindow::new(&db.meta, true).ok().unwrap();
    for (hash, key) in [(5u64, 50u64), (6, 60), (7, 70)] {
        let mut commit = commit_set(&[], &[key]);
        pruning.note_canonical(hash, &mut commit);
        db.commit(&commit);
    }
    let restored = RefWindow::new(&db.meta, true).ok().unwrap();
    assert_eq!(restored.window_size(), 3);
    assert_eq!(restored.pending(), 0);
    assert_eq!(restored.next_hash(), Some(5));
    assert!(restored.have_block(7));
}

