//! Pruning window of the state database.
//!
//! For each canonicalized block the window keeps the set of trie nodes that
//! became unreferenced in it ("death row"); pruning a block deletes them.
//! A global index maps each such key to the block whose row holds it; when a
//! key is inserted again it is taken off its death row. All changes are
//! journaled in the meta column of the database.

use vstd::prelude::*;
use std::collections::{HashMap, HashSet, VecDeque};
use vstd::std_specs::iter::IteratorSpec;
use crate::scale::{
    decode_journal_record, decode_u64, encode_journal_record, encode_u64, encode_unit,
    journal_record_decoding, journal_record_encoding, le_value, u64_encoding,
};

verus! {

pub open spec fn last_pruned_suffix() -> Seq<u8> {
    seq![108u8, 97, 115, 116, 95, 112, 114, 117, 110, 101, 100]
}

pub open spec fn pruning_journal_suffix() -> Seq<u8> {
    seq![112u8, 114, 117, 110, 105, 110, 103, 95, 106, 111, 117, 114, 110, 97, 108]
}

/// Suffix of the meta key under which the last pruned block number is kept
/// (`b"last_pruned"`).
pub fn last_pruned_suffix_bytes() -> (r: Vec<u8>)
    ensures
        r@ == last_pruned_suffix(),
{
    let r: Vec<u8> = vec![108u8, 97, 115, 116, 95, 112, 114, 117, 110, 101, 100];
    assert(r@ =~= last_pruned_suffix());
    r
}

/// Suffix of the meta keys of the pruning journal records
/// (`b"pruning_journal"`).
pub fn pruning_journal_suffix_bytes() -> (r: Vec<u8>)
    ensures
        r@ == pruning_journal_suffix(),
{
    let r: Vec<u8> = vec![112u8, 114, 117, 110, 105, 110, 103, 95, 106, 111, 117, 114, 110, 97, 108];
    assert(r@ =~= pruning_journal_suffix());
    r
}

/// The meta key of the journal record of block `block`.
pub open spec fn journal_key_spec(block: u64) -> Seq<u8> {
    u64_encoding(block) + pruning_journal_suffix()
}

/// The meta key of the last pruned block number.
pub open spec fn last_pruned_key_spec() -> Seq<u8> {
    last_pruned_suffix()
}

fn append_bytes(buffer: &mut Vec<u8>, suffix: &[u8])
    ensures
        final(buffer)@ == old(buffer)@ + suffix@,
{
    let mut i: usize = 0;
    while i < suffix.len()
        invariant
            i <= suffix@.len(),
            buffer@ == old(buffer)@ + suffix@.subrange(0, i as int),
        decreases suffix@.len() - i,
    {
        buffer.push(suffix[i]);
        i = i + 1;
    }
    assert(suffix@.subrange(0, suffix@.len() as int) =~= suffix@);
}

/// Meta key made of the encoding of `data` followed by `suffix`.
pub fn to_meta_key(suffix: &[u8], data: u64) -> (key: Vec<u8>)
    ensures
        key@ == u64_encoding(data) + suffix@,
{
    let mut buffer = encode_u64(data);
    append_bytes(&mut buffer, suffix);
    buffer
}

/// Meta key of the journal record of block `block`.
pub fn to_journal_key(block: u64) -> (key: Vec<u8>)
    ensures
        key@ == journal_key_spec(block),
{
    let suffix = pruning_journal_suffix_bytes();
    to_meta_key(suffix.as_slice(), block)
}

} // verus!

verus! {

broadcast use vstd::std_specs::hash::group_hash_axioms;

/// The keys of a set, listed once each in the order the set hands them out.
fn set_to_vec(s: &HashSet<u64>) -> (v: Vec<u64>)
    ensures
        v@.to_set() == s@,
        v@.no_duplicates(),
{
    let ghost keys = vstd::std_specs::hash::spec_hash_keys_iter(s).remaining().unref();
    let mut v: Vec<u64> = Vec::new();
    for k in it: s.iter()
        invariant
            it.seq().unref() == keys,
            v@ == keys.take(it.index()),
    {
        v.push(*k);
        assert(keys.take(it.index() + 1) =~= v@);
    }
    assert(keys.take(keys.len() as int) =~= keys);
    v
}

} // verus!

verus! {

/// The keys of a map, listed once each.
fn map_keys_to_vec(m: &HashMap<u64, u64>) -> (v: Vec<u64>)
    ensures
        v@.to_set() == m@.dom(),
        v@.no_duplicates(),
{
    let ghost keys = vstd::std_specs::hash::spec_keys_iter(m).remaining().unref();
    let mut v: Vec<u64> = Vec::new();
    for k in it: m.keys()
        invariant
            it.seq().unref() == keys,
            v@ == keys.take(it.index()),
    {
        v.push(*k);
        assert(keys.take(it.index() + 1) =~= v@);
    }
    assert(keys.take(keys.len() as int) =~= keys);
    v
}

/// Changes to one column of the database: values inserted under keys, and
/// keys deleted.
pub struct ChangeSet<H> {
    /// Inserted key-value pairs.
    pub inserted: Vec<(H, Vec<u8>)>,
    /// Deleted keys.
    pub deleted: Vec<H>,
}

/// A set of changes to the backing database: to the trie nodes (`data`) and
/// to the meta column (`meta`).
pub struct CommitSet {
    /// Changes to the trie node column.
    pub data: ChangeSet<u64>,
    /// Changes to the meta column.
    pub meta: ChangeSet<Vec<u8>>,
}

impl<H> ChangeSet<H> {
    /// An empty change set.
    pub fn new() -> (r: Self)
        ensures
            r.inserted@.len() == 0,
            r.deleted@.len() == 0,
    {
        ChangeSet { inserted: Vec::new(), deleted: Vec::new() }
    }
}

impl CommitSet {
    /// An empty commit set.
    pub fn new() -> (r: Self)
        ensures
            r.data.inserted@.len() == 0,
            r.data.deleted@.len() == 0,
            r.meta.inserted@.len() == 0,
            r.meta.deleted@.len() == 0,
    {
        CommitSet { data: ChangeSet::new(), meta: ChangeSet::new() }
    }
}

/// The keys to delete when a block is pruned, with the block's hash and the
/// meta key of its journal record.
pub struct DeathRow {
    hash: u64,
    journal_key: Vec<u8>,
    deleted: HashSet<u64>,
}

/// What a death row holds.
pub struct RowView {
    pub hash: u64,
    pub journal_key: Seq<u8>,
    pub deleted: Set<u64>,
}

impl View for DeathRow {
    type V = RowView;

    closed spec fn view(&self) -> RowView {
        RowView { hash: self.hash, journal_key: self.journal_key@, deleted: self.deleted@ }
    }
}

/// The pruning window.
///
/// `death_rows[i]` belongs to block `pending_number + i`. The first
/// `pending_prunings` rows are pruned but not yet applied; the last
/// `pending_canonicalizations` rows were added since the last
/// `apply_pending` or `revert_pending`.
pub struct RefWindow {
    death_rows: VecDeque<DeathRow>,
    death_index: HashMap<u64, u64>,
    pending_number: u64,
    pending_canonicalizations: usize,
    pending_prunings: usize,
    count_insertions: bool,
}

/// One step in the history of a pruning window: a block noted as
/// canonical, with the keys its commit inserted and deleted, or a prune.
pub enum WindowOp {
    Note { hash: u64, inserted: Seq<u64>, deleted: Seq<u64> },
    Prune,
}

/// What a pruning window holds.
pub struct WindowView {
    /// One row per block, starting at block `pending_number`.
    pub rows: Seq<RowView>,
    /// For each key on a death row, the block whose row holds it.
    pub index: Map<u64, u64>,
    /// Block number of the first row.
    pub pending_number: u64,
    /// Rows added since the last apply or revert.
    pub pending_canonicalizations: nat,
    /// Rows pruned since the last apply or revert.
    pub pending_prunings: nat,
    /// Whether re-inserted keys are taken off their death rows.
    pub count_insertions: bool,
}

impl View for RefWindow {
    type V = WindowView;

    closed spec fn view(&self) -> WindowView {
        WindowView {
            rows: self.death_rows@.map_values(|r: DeathRow| r@),
            index: self.death_index@,
            pending_number: self.pending_number,
            pending_canonicalizations: self.pending_canonicalizations as nat,
            pending_prunings: self.pending_prunings as nat,
            count_insertions: self.count_insertions,
        }
    }
}

impl WindowView {
    /// The window's invariant.
    pub open spec fn wf(self) -> bool {
        &&& self.pending_prunings <= self.rows.len()
        &&& self.pending_canonicalizations <= self.rows.len()
        &&& self.pending_number + self.rows.len() <= u64::MAX
        &&& !self.count_insertions ==> self.index.dom() == Set::<u64>::empty()
        &&& forall|i: int| 0 <= i < self.rows.len() ==>
            #[trigger] self.rows[i].journal_key == journal_key_spec((self.pending_number + i) as u64)
        &&& forall|k: u64| #[trigger]
            self.index.contains_key(k) ==> {
                &&& self.pending_number <= self.index[k] < self.pending_number + self.rows.len()
                &&& self.rows[self.index[k] - self.pending_number].deleted.contains(k)
            }
    }

    /// Number of blocks in the window that are not pruned.
    pub open spec fn window_size(self) -> int {
        self.rows.len() - self.pending_prunings
    }

    /// Hash of the next block to prune, if there is one.
    pub open spec fn next_hash(self) -> Option<u64> {
        if self.pending_prunings < self.rows.len() {
            Some(self.rows[self.pending_prunings as int].hash)
        } else {
            None
        }
    }

    /// Whether a block with hash `hash` is in the window and not pruned.
    pub open spec fn have_block(self, hash: u64) -> bool {
        exists|i: int| self.pending_prunings <= i < self.rows.len() && #[trigger] self.rows[i].hash == hash
    }

    /// The window after one step of its history.
    pub open spec fn step(self, op: WindowOp) -> WindowView {
        match op {
            WindowOp::Note { hash, inserted, deleted } => self.note_canonical(hash, inserted, deleted),
            WindowOp::Prune => self.prune_one(),
        }
    }

    /// Number of the next block the window would hold.
    pub open spec fn next_block(self) -> int {
        self.pending_number + self.rows.len()
    }

    /// The rows after re-inserting `inserted`: each key the index points to a
    /// row is taken off that row.
    pub open spec fn rows_after_reinsert(self, inserted: Seq<u64>) -> Seq<RowView> {
        Seq::new(
            self.rows.len(),
            |i: int|
                RowView {
                    deleted: self.rows[i].deleted.filter(
                        |k: u64|
                            !(inserted.contains(k) && self.index.contains_key(k) && self.index[k]
                                == self.pending_number + i),
                    ),
                    ..self.rows[i]
                },
        )
    }

    /// The window after importing one block's changes.
    pub open spec fn import(
        self,
        hash: u64,
        journal_key: Seq<u8>,
        inserted: Seq<u64>,
        deleted: Seq<u64>,
    ) -> WindowView {
        let row = RowView { hash, journal_key, deleted: deleted.to_set() };
        if self.count_insertions {
            WindowView {
                rows: self.rows_after_reinsert(inserted).push(row),
                index: Map::new(
                    |k: u64| deleted.contains(k) || (self.index.contains_key(k) && !inserted.contains(k)),
                    |k: u64|
                        if deleted.contains(k) {
                            self.next_block() as u64
                        } else {
                            self.index[k]
                        },
                ),
                ..self
            }
        } else {
            WindowView { rows: self.rows.push(row), ..self }
        }
    }

    /// The window after noting a canonical block.
    pub open spec fn note_canonical(
        self,
        hash: u64,
        inserted: Seq<u64>,
        deleted: Seq<u64>,
    ) -> WindowView {
        let w = self.import(hash, journal_key_spec(self.next_block() as u64), inserted, deleted);
        WindowView { pending_canonicalizations: self.pending_canonicalizations + 1, ..w }
    }

    /// The window after pruning the next block.
    pub open spec fn prune_one(self) -> WindowView {
        if self.pending_prunings < self.rows.len() {
            WindowView { pending_prunings: self.pending_prunings + 1, ..self }
        } else {
            self
        }
    }

    /// Keys on the first `n` rows.
    pub open spec fn keys_on_rows(self, n: int) -> Set<u64> {
        Set::new(|k: u64| exists|i: int| 0 <= i < n && #[trigger] self.rows[i].deleted.contains(k))
    }

    /// The window after applying the pending prunings.
    pub open spec fn apply_pending(self) -> WindowView {
        let n = self.pending_prunings as int;
        WindowView {
            rows: self.rows.subrange(n, self.rows.len() as int),
            index: if self.count_insertions {
                self.index.remove_keys(self.keys_on_rows(n))
            } else {
                self.index
            },
            pending_number: (self.pending_number + n) as u64,
            pending_canonicalizations: 0,
            pending_prunings: 0,
            ..self
        }
    }

    /// The window after reverting the pending canonicalizations and prunings.
    pub open spec fn revert_pending(self) -> WindowView {
        let len = self.rows.len() - self.pending_canonicalizations;
        WindowView {
            rows: self.rows.subrange(0, len),
            index: if self.count_insertions {
                self.index.restrict(
                    Set::new(|k: u64| self.index.contains_key(k) && self.index[k] < self.pending_number + len),
                )
            } else {
                self.index
            },
            pending_canonicalizations: 0,
            pending_prunings: 0,
            ..self
        }
    }
}

} // verus!

verus! {

impl RefWindow {
    /// Takes `k` off row `idx`.
    fn remove_from_row(&mut self, idx: usize, k: u64)
        requires
            idx < old(self)@.rows.len(),
        ensures
            final(self)@ == (WindowView {
                rows: old(self)@.rows.update(
                    idx as int,
                    RowView { deleted: old(self)@.rows[idx as int].deleted.remove(k), ..old(self)@.rows[idx as int] },
                ),
                ..old(self)@
            }),
    {
        let ghost old_rows = self.death_rows@;
        let mut row = self.death_rows.remove(idx).unwrap();
        row.deleted.remove(&k);
        self.death_rows.insert(idx, row);
        proof {
            assert(self.death_rows@ =~= old_rows.update(idx as int, row));
            assert(self@.rows =~= old(self)@.rows.update(
                idx as int,
                RowView { deleted: old(self)@.rows[idx as int].deleted.remove(k), ..old(self)@.rows[idx as int] },
            ));
        }
    }

    /// Adds one block's changes at the end of the window.
    fn import(&mut self, hash: u64, journal_key: Vec<u8>, inserted: Vec<u64>, deleted: Vec<u64>)
        requires
            old(self)@.wf(),
            old(self)@.next_block() < u64::MAX,
            journal_key@ == journal_key_spec(old(self)@.next_block() as u64),
        ensures
            final(self)@ == old(self)@.import(hash, journal_key@, inserted@, deleted@),
            final(self)@.wf(),
    {
        let ghost w0 = self@;
        if self.count_insertions {
            proof {
                assert(inserted@.take(0).to_set() =~= Set::<u64>::empty());
                assert forall|i: int| 0 <= i < w0.rows.len() implies
                    #[trigger] w0.rows_after_reinsert(inserted@.take(0))[i] == w0.rows[i] by {
                    assert(w0.rows_after_reinsert(inserted@.take(0))[i].deleted =~= w0.rows[i].deleted);
                }
                assert(w0.rows_after_reinsert(inserted@.take(0)) =~= w0.rows);
                assert(w0.index.remove_keys(Set::<u64>::empty()) =~= w0.index);
            }
            let mut j: usize = 0;
            while j < inserted.len()
                invariant
                    w0 == old(self)@,
                    w0.wf(),
                    w0.count_insertions,
                    w0.next_block() < u64::MAX,
                    j <= inserted@.len(),
                    self@ == (WindowView {
                        rows: w0.rows_after_reinsert(inserted@.take(j as int)),
                        index: w0.index.remove_keys(inserted@.take(j as int).to_set()),
                        ..w0
                    }),
                decreases inserted@.len() - j,
            {
                let k = inserted[j];
                let ghost pre = inserted@.take(j as int);
                let ghost post = inserted@.take(j as int + 1);
                proof {
                    assert(post =~= pre.push(k));
                    pre.lemma_push_to_set_commute(k);
                }
                let ghost before = self@;
                let n_rows = self.death_rows.len();
                assert(before.rows.len() == n_rows);
                assert(before.rows.len() == w0.rows.len());
                match self.death_index.remove(&k) {
                    Some(block) => {
                        assert(w0.index.contains_key(k) && w0.index[k] == block && !pre.contains(k));
                        assert(w0.pending_number <= block < w0.pending_number + w0.rows.len());
                        assert(self.pending_number == w0.pending_number);
                        assert(self.death_rows@.len() == w0.rows.len());
                        assert(block - self.pending_number < self.death_rows@.len());
                        let idx = (block - self.pending_number) as usize;
                        assert(idx == block - w0.pending_number);
                        self.remove_from_row(idx, k);
                        proof {
                            assert forall|i: int| 0 <= i < w0.rows.len() implies
                                #[trigger] self@.rows[i] == w0.rows_after_reinsert(post)[i] by {
                                if i == idx {
                                    assert(post[pre.len() as int] == k);
                                    assert(post.contains(k));
                                    assert forall|x: u64| x != k implies post.contains(x) == pre.contains(x) by {
                                        assert(post.to_set().contains(x) == pre.to_set().insert(k).contains(x));
                                    }
                                    assert(self@.rows[i].deleted =~= w0.rows_after_reinsert(post)[i].deleted);
                                } else {
                                    assert(self@.rows[i] == before.rows[i]);
                                    assert(self@.rows[i].deleted =~= w0.rows_after_reinsert(post)[i].deleted);
                                }
                            }
                        }
                    },
                    None => {
                        assert(pre.contains(k) || !w0.index.contains_key(k));
                        proof {
                            assert forall|i: int| 0 <= i < w0.rows.len() implies
                                #[trigger] self@.rows[i] == w0.rows_after_reinsert(post)[i] by {
                                assert(self@.rows[i] == before.rows[i]);
                                assert(self@.rows[i].deleted =~= w0.rows_after_reinsert(post)[i].deleted);
                            }
                        }
                    },
                }
                proof {
                    assert(self@.rows =~= w0.rows_after_reinsert(post));
                    assert(self@.index =~= w0.index.remove_keys(post.to_set()));
                }
                j = j + 1;
            }
            assert(self@.rows.len() == w0.rows.len());
            assert(self@.rows.len() == self.death_rows@.len());
            let imported_block = self.pending_number + self.death_rows.len() as u64;
            let ghost after_reinsert = self@;
            proof {
                assert(deleted@.take(0).to_set() =~= Set::<u64>::empty());
                assert(after_reinsert.index =~= Map::new(
                    |k: u64| deleted@.take(0).to_set().contains(k) || after_reinsert.index.contains_key(k),
                    |k: u64| if deleted@.take(0).to_set().contains(k) { imported_block } else { after_reinsert.index[k] },
                ));
            }
            let mut j: usize = 0;
            while j < deleted.len()
                invariant
                    j <= deleted@.len(),
                    imported_block == w0.next_block(),
                    self@ == (WindowView {
                        index: Map::new(
                            |k: u64| deleted@.take(j as int).to_set().contains(k) || after_reinsert.index.contains_key(k),
                            |k: u64| if deleted@.take(j as int).to_set().contains(k) { imported_block } else { after_reinsert.index[k] },
                        ),
                        ..after_reinsert
                    }),
                decreases deleted@.len() - j,
            {
                let k = deleted[j];
                self.death_index.insert(k, imported_block);
                proof {
                    assert(deleted@.take(j as int + 1) =~= deleted@.take(j as int).push(k));
                    deleted@.take(j as int).lemma_push_to_set_commute(k);
                    assert(self@.index =~= Map::new(
                        |k: u64| deleted@.take(j as int + 1).to_set().contains(k) || after_reinsert.index.contains_key(k),
                        |k: u64| if deleted@.take(j as int + 1).to_set().contains(k) { imported_block } else { after_reinsert.index[k] },
                    ));
                }
                j = j + 1;
            }
            proof {
                assert(inserted@.take(inserted@.len() as int) =~= inserted@);
                assert(deleted@.take(deleted@.len() as int) =~= deleted@);
            }
        }
        let mut set: HashSet<u64> = HashSet::new();
        let mut j: usize = 0;
        proof {
            assert(deleted@.take(0).to_set() =~= Set::<u64>::empty());
        }
        while j < deleted.len()
            invariant
                j <= deleted@.len(),
                set@ == deleted@.take(j as int).to_set(),
            decreases deleted@.len() - j,
        {
            let k = deleted[j];
            set.insert(k);
            proof {
                assert(deleted@.take(j as int + 1) =~= deleted@.take(j as int).push(k));
                deleted@.take(j as int).lemma_push_to_set_commute(k);
            }
            j = j + 1;
        }
        proof {
            assert(deleted@.take(deleted@.len() as int) =~= deleted@);
        }
        let ghost before_push = self@;
        self.death_rows.push_back(DeathRow { hash, journal_key, deleted: set });
        proof {
            let target = old(self)@.import(hash, journal_key@, inserted@, deleted@);
            assert(self@.rows =~= before_push.rows.push(RowView { hash, journal_key: journal_key@, deleted: deleted@.to_set() }));
            assert(self@.index =~= target.index);
            assert(self@.rows =~= target.rows);
        }
    }
}

} // verus!

verus! {

/// A copy of `v`.
fn copy_bytes(v: &Vec<u8>) -> (r: Vec<u8>)
    ensures
        r@ == v@,
{
    let mut r: Vec<u8> = Vec::new();
    let mut i: usize = 0;
    while i < v.len()
        invariant
            i <= v@.len(),
            r@ == v@.subrange(0, i as int),
        decreases v@.len() - i,
    {
        r.push(v[i]);
        i = i + 1;
    }
    assert(v@.subrange(0, v@.len() as int) =~= v@);
    r
}

/// Meta key under which the number of the last pruned block is stored.
pub fn last_pruned_key() -> (key: Vec<u8>)
    ensures
        key@ == last_pruned_key_spec(),
{
    let mut key = encode_unit();
    let suffix = last_pruned_suffix_bytes();
    append_bytes(&mut key, suffix.as_slice());
    key
}

/// Keys of the inserted pairs of a change set.
pub open spec fn inserted_keys(inserted: Seq<(u64, Vec<u8>)>) -> Seq<u64> {
    inserted.map_values(|p: (u64, Vec<u8>)| p.0)
}

/// `new` is `old` with `key` and `value` appended.
pub open spec fn pushed_pair(
    old: Seq<(Vec<u8>, Vec<u8>)>,
    new: Seq<(Vec<u8>, Vec<u8>)>,
    key: Seq<u8>,
    value: Seq<u8>,
) -> bool {
    &&& new.len() == old.len() + 1
    &&& new.subrange(0, old.len() as int) == old
    &&& new[old.len() as int].0@ == key
    &&& new[old.len() as int].1@ == value
}

/// `new` is `old` with `key` appended.
pub open spec fn pushed_key(old: Seq<Vec<u8>>, new: Seq<Vec<u8>>, key: Seq<u8>) -> bool {
    &&& new.len() == old.len() + 1
    &&& new.subrange(0, old.len() as int) == old
    &&& new[old.len() as int]@ == key
}

impl RefWindow {
    /// Number of blocks in the window that are not pruned.
    pub fn window_size(&self) -> (r: u64)
        requires
            self@.wf(),
        ensures
            r == self@.window_size(),
    {
        (self.death_rows.len() - self.pending_prunings) as u64
    }

    /// Hash of the next block to prune, if there is one.
    pub fn next_hash(&self) -> (r: Option<u64>)
        requires
            self@.wf(),
        ensures
            r == self@.next_hash(),
    {
        if self.pending_prunings < self.death_rows.len() {
            Some(self.death_rows[self.pending_prunings].hash)
        } else {
            None
        }
    }

    /// Memory used by the window; not measured.
    pub fn mem_used(&self) -> (r: usize)
        ensures
            r == 0,
    {
        0
    }

    /// Number of the next block to prune.
    pub fn pending(&self) -> (r: u64)
        requires
            self@.wf(),
        ensures
            r == self@.pending_number + self@.pending_prunings,
    {
        self.pending_number + self.pending_prunings as u64
    }

    /// Whether a block with hash `hash` is in the window and not pruned.
    pub fn have_block(&self, hash: u64) -> (r: bool)
        requires
            self@.wf(),
        ensures
            r == self@.have_block(hash),
    {
        let mut i = self.pending_prunings;
        while i < self.death_rows.len()
            invariant
                self@.wf(),
                self@.pending_prunings <= i <= self@.rows.len(),
                forall|j: int| self@.pending_prunings <= j < i ==> #[trigger] self@.rows[j].hash != hash,
            decreases self@.rows.len() - i,
        {
            if self.death_rows[i].hash == hash {
                assert(self@.rows[i as int].hash == hash);
                return true;
            }
            i = i + 1;
        }
        false
    }

    /// Prunes the next block: adds the deletion of its keys and of its
    /// journal record to `commit`, and records it as the last pruned block.
    /// Does nothing when every block in the window is pruned already.
    pub fn prune_one(&mut self, commit: &mut CommitSet)
        requires
            old(self)@.wf(),
        ensures
            final(self)@ == old(self)@.prune_one(),
            final(self)@.wf(),
            final(commit).data.inserted@ == old(commit).data.inserted@,
            old(self)@.pending_prunings < old(self)@.rows.len() ==> {
                let row = old(self)@.rows[old(self)@.pending_prunings as int];
                let n = old(commit).data.deleted@.len() as int;
                let added = final(commit).data.deleted@.subrange(n, final(commit).data.deleted@.len() as int);
                &&& final(commit).data.deleted@.subrange(0, n) == old(commit).data.deleted@
                &&& final(commit).data.deleted@.len() >= n
                &&& added.to_set() == row.deleted
                &&& added.no_duplicates()
                &&& pushed_pair(
                    old(commit).meta.inserted@,
                    final(commit).meta.inserted@,
                    last_pruned_key_spec(),
                    u64_encoding((old(self)@.pending_number + old(self)@.pending_prunings) as u64),
                )
                &&& pushed_key(old(commit).meta.deleted@, final(commit).meta.deleted@,
                    journal_key_spec((old(self)@.pending_number + old(self)@.pending_prunings) as u64))
            },
            old(self)@.pending_prunings >= old(self)@.rows.len() ==> *final(commit) == *old(commit),
    {
        if self.pending_prunings < self.death_rows.len() {
            let index = self.pending_number + self.pending_prunings as u64;
            let mut keys = set_to_vec(&self.death_rows[self.pending_prunings].deleted);
            let ghost keys0 = keys@;
            let ghost n = commit.data.deleted@.len() as int;
            commit.data.deleted.append(&mut keys);
            assert(commit.data.deleted@.subrange(0, n) =~= old(commit).data.deleted@);
            assert(commit.data.deleted@.subrange(n, commit.data.deleted@.len() as int) =~= keys0);
            let key = last_pruned_key();
            let value = encode_u64(index);
            commit.meta.inserted.push((key, value));
            assert(commit.meta.inserted@.subrange(0, old(commit).meta.inserted@.len() as int) =~= old(commit).meta.inserted@);
            assert(old(self)@.rows[self.pending_prunings as int].journal_key
                == journal_key_spec((old(self)@.pending_number + old(self)@.pending_prunings) as u64));
            let journal_key = copy_bytes(&self.death_rows[self.pending_prunings].journal_key);
            commit.meta.deleted.push(journal_key);
            assert(commit.meta.deleted@.subrange(0, old(commit).meta.deleted@.len() as int) =~= old(commit).meta.deleted@);
            self.pending_prunings = self.pending_prunings + 1;
            assert(self@.rows == old(self)@.rows && self@.index == old(self)@.index);
        }
    }

    /// Applies the pending prunings: drops the pruned rows and their keys
    /// from the index. Pending canonicalizations become permanent.
    pub fn apply_pending(&mut self)
        requires
            old(self)@.wf(),
        ensures
            final(self)@ == old(self)@.apply_pending(),
            final(self)@.wf(),
    {
        let ghost w0 = self@;
        self.pending_canonicalizations = 0;
        let mut i: usize = 0;
        while i < self.pending_prunings
            invariant
                w0 == old(self)@,
                w0.wf(),
                i <= w0.pending_prunings,
                self.pending_prunings == w0.pending_prunings,
                self.count_insertions == w0.count_insertions,
                self.pending_canonicalizations == 0,
                self.pending_number == w0.pending_number + i,
                self@.rows == w0.rows.subrange(i as int, w0.rows.len() as int),
                self@.index == if w0.count_insertions {
                    w0.index.remove_keys(w0.keys_on_rows(i as int))
                } else {
                    w0.index
                },
            decreases w0.pending_prunings - i,
        {
            let ghost before = self@;
            let ghost rows_before = self.death_rows@;
            assert(before.rows.len() == rows_before.len());
            assert(before.rows[0] == w0.rows[i as int]);
            assert(rows_before[0]@ == before.rows[0]);
            let pruned = self.death_rows.pop_front().unwrap();
            assert(pruned@ == w0.rows[i as int]);
            assert(self.death_rows@ == rows_before.subrange(1, rows_before.len() as int));
            assert(self@.rows =~= before.rows.subrange(1, before.rows.len() as int));
            let ghost after_pop = self@;
            if self.count_insertions {
                let keys = set_to_vec(&pruned.deleted);
                let mut j: usize = 0;
                while j < keys.len()
                    invariant
                        j <= keys@.len(),
                        self@ == (WindowView { index: self@.index, ..after_pop }),
                        self@.index == before.index.remove_keys(keys@.take(j as int).to_set()),
                    decreases keys@.len() - j,
                {
                    let k = keys[j];
                    self.death_index.remove(&k);
                    proof {
                        assert(keys@.take(j as int + 1) =~= keys@.take(j as int).push(k));
                        keys@.take(j as int).lemma_push_to_set_commute(k);
                        assert(self@.index =~= before.index.remove_keys(keys@.take(j as int + 1).to_set()));
                    }
                    j = j + 1;
                }
                proof {
                    assert(keys@.take(keys@.len() as int) =~= keys@);
                    assert forall|k: u64| #[trigger] w0.keys_on_rows(i as int + 1).contains(k) ==
                        (w0.keys_on_rows(i as int).contains(k) || pruned@.deleted.contains(k)) by {
                        if w0.keys_on_rows(i as int + 1).contains(k) {
                            let r = choose|r: int| 0 <= r < i + 1 && #[trigger] w0.rows[r].deleted.contains(k);
                            if r < i {
                                assert(w0.keys_on_rows(i as int).contains(k));
                            }
                        }
                        if w0.keys_on_rows(i as int).contains(k) {
                            let r = choose|r: int| 0 <= r < i && #[trigger] w0.rows[r].deleted.contains(k);
                            assert(w0.rows[r].deleted.contains(k));
                        }
                        if pruned@.deleted.contains(k) {
                            assert(w0.rows[i as int].deleted.contains(k));
                        }
                    }
                    assert(self@.index =~= w0.index.remove_keys(w0.keys_on_rows(i as int + 1)));
                }
            } else {
                proof {
                    assert(self@.index == w0.index);
                }
            }
            self.pending_number = self.pending_number + 1;
            proof {
                assert(self@.rows =~= w0.rows.subrange(i as int + 1, w0.rows.len() as int));
            }
            i = i + 1;
        }
        self.pending_prunings = 0;
        proof {
            let target = w0.apply_pending();
            assert(self@.rows =~= target.rows);
            assert(self@.index =~= target.index);
            if w0.count_insertions {
                assert forall|k: u64| #[trigger] self@.index.contains_key(k) implies {
                    &&& self@.pending_number <= self@.index[k] < self@.pending_number + self@.rows.len()
                    &&& self@.rows[self@.index[k] - self@.pending_number].deleted.contains(k)
                } by {
                    let b = w0.index[k];
                    assert(w0.index.contains_key(k));
                    if b < w0.pending_number + w0.pending_prunings {
                        assert(w0.rows[b - w0.pending_number].deleted.contains(k));
                        assert(w0.keys_on_rows(w0.pending_prunings as int).contains(k));
                    }
                }
            }
        }
    }

    /// Reverts the pending canonicalizations and prunings.
    ///
    /// Keys taken off death rows by the reverted canonicalizations are not
    /// put back.
    pub fn revert_pending(&mut self)
        requires
            old(self)@.wf(),
        ensures
            final(self)@ == old(self)@.revert_pending(),
            final(self)@.wf(),
    {
        let ghost w0 = self@;
        let new_len = self.death_rows.len() - self.pending_canonicalizations;
        self.death_rows.truncate(new_len);
        assert(self@.rows =~= w0.rows.subrange(0, new_len as int));
        if self.count_insertions {
            let new_max_block = self.death_rows.len() as u64 + self.pending_number;
            let keys = map_keys_to_vec(&self.death_index);
            let ghost before = self@;
            let mut j: usize = 0;
            while j < keys.len()
                invariant
                    j <= keys@.len(),
                    keys@.to_set() == before.index.dom(),
                    keys@.no_duplicates(),
                    self@ == (WindowView { index: self@.index, ..before }),
                    forall|k: u64| #[trigger] self@.index.contains_key(k) <==> (before.index.contains_key(k)
                        && !(keys@.take(j as int).to_set().contains(k) && before.index[k] >= new_max_block)),
                    forall|k: u64| #[trigger] self@.index.contains_key(k) ==> self@.index[k] == before.index[k],
                decreases keys@.len() - j,
            {
                let k = keys[j];
                let keep = match self.death_index.get(&k) {
                    Some(block) => *block < new_max_block,
                    None => true,
                };
                if !keep {
                    self.death_index.remove(&k);
                }
                proof {
                    assert(keys@.take(j as int + 1) =~= keys@.take(j as int).push(k));
                    keys@.take(j as int).lemma_push_to_set_commute(k);
                    assert(keys@[j as int] == k);
                    assert(before.index.contains_key(k)) by {
                        assert(keys@.to_set().contains(k));
                    }
                    assert(!keys@.take(j as int).contains(k)) by {
                        if keys@.take(j as int).contains(k) {
                            let r = choose|r: int| 0 <= r < j && #[trigger] keys@.take(j as int)[r] == k;
                            assert(keys@[r] == keys@[j as int]);
                        }
                    }
                }
                j = j + 1;
            }
            proof {
                assert(keys@.take(keys@.len() as int) =~= keys@);
                assert forall|k: u64| before.index.contains_key(k) implies keys@.contains(k) by {
                    assert(keys@.to_set().contains(k));
                }
                assert(self@.index =~= w0.revert_pending().index);
            }
        }
        self.pending_canonicalizations = 0;
        self.pending_prunings = 0;
        proof {
            let target = w0.revert_pending();
            assert(self@.rows =~= target.rows);
            assert(self@.index =~= target.index);
        }
    }
}

} // verus!

verus! {

/// Read access to the meta column of the database.
pub trait MetaDb {
    /// Error of the database.
    type Error;

    /// What the meta column holds.
    spec fn meta(&self) -> Map<Seq<u8>, Seq<u8>>;

    /// Whether every read of the database succeeds.
    spec fn reads_succeed(&self) -> bool;

    /// Whether reading `key` can fail with the error `e`.
    spec fn read_fails_with(&self, key: Seq<u8>, e: Self::Error) -> bool;

    /// Reads the value stored under `key`.
    fn get_meta(&self, key: &[u8]) -> (r: Result<Option<Vec<u8>>, Self::Error>)
        ensures
            self.reads_succeed() ==> r is Ok,
            r matches Err(e) ==> self.read_fails_with(key@, e),
            r matches Ok(v) ==> match v {
                Some(x) => self.meta().contains_key(key@) && self.meta()[key@] == x@,
                None => !self.meta().contains_key(key@),
            };
}

/// Errors of the pruning window.
pub enum PruningError<E> {
    /// The database failed.
    Db(E),
    /// A stored value could not be decoded.
    Decode,
}

/// An empty window whose first block is `pending_number`.
pub open spec fn empty_window(pending_number: u64, count_insertions: bool) -> WindowView {
    WindowView {
        rows: Seq::empty(),
        index: Map::empty(),
        pending_number,
        pending_canonicalizations: 0,
        pending_prunings: 0,
        count_insertions,
    }
}

/// The window after replaying the journal records stored for blocks
/// `block`, `block + 1`, ... up to the first block without a record; `None`
/// when a record does not decode.
pub open spec fn replay_journal(w: WindowView, meta: Map<Seq<u8>, Seq<u8>>, block: u64) -> Option<WindowView>
    decreases u64::MAX - block,
{
    let key = journal_key_spec(block);
    if block == u64::MAX || !meta.contains_key(key) {
        Some(w)
    } else {
        match journal_record_decoding(meta[key]) {
            None => None,
            Some((hash, inserted, deleted)) => replay_journal(
                w.import(hash, key, inserted, deleted),
                meta,
                (block + 1) as u64,
            ),
        }
    }
}

/// The window stored in the meta column; `None` when a stored value does
/// not decode.
pub open spec fn window_from_meta(meta: Map<Seq<u8>, Seq<u8>>, count_insertions: bool) -> Option<WindowView> {
    let key = last_pruned_key_spec();
    if !meta.contains_key(key) {
        replay_journal(empty_window(0, count_insertions), meta, 0)
    } else if meta[key].len() < 8 {
        None
    } else {
        let first = (le_value(meta[key].subrange(0, 8)) + 1) % 0x1_0000_0000_0000_0000;
        replay_journal(empty_window(first as u64, count_insertions), meta, first as u64)
    }
}

impl RefWindow {
    /// Reads the window from the meta column: the number of the last pruned
    /// block, then the journal records of the blocks after it.
    pub fn new<D: MetaDb>(db: &D, count_insertions: bool) -> (r: Result<RefWindow, PruningError<D::Error>>)
        ensures
            r matches Ok(w) ==> {
                &&& w@.wf()
                &&& window_from_meta(db.meta(), count_insertions) == Some(w@)
            },
            r matches Err(PruningError::Decode) ==> window_from_meta(db.meta(), count_insertions) is None,
            db.reads_succeed() ==> !(r matches Err(PruningError::Db(_))),
            r matches Err(PruningError::Db(e)) ==> db.read_fails_with(last_pruned_key_spec(), e)
                || exists|b: u64| db.read_fails_with(#[trigger] journal_key_spec(b), e),
            db.reads_succeed() ==> (r is Ok <==> window_from_meta(db.meta(), count_insertions) is Some),
    {
        let key = last_pruned_key();
        let last_pruned = match db.get_meta(key.as_slice()) {
            Ok(v) => v,
            Err(e) => return Err(PruningError::Db(e)),
        };
        let pending_number: u64 = match last_pruned {
            Some(buffer) => match decode_u64(buffer.as_slice()) {
                Ok(n) => {
                    assert(buffer@.subrange(0, 8) =~= buffer@.subrange(0, 8));
                    n.wrapping_add(1)
                },
                Err(_) => return Err(PruningError::Decode),
            },
            None => 0,
        };
        let mut block = pending_number;
        let mut pruning = RefWindow {
            death_rows: VecDeque::new(),
            death_index: HashMap::new(),
            pending_number,
            pending_canonicalizations: 0,
            pending_prunings: 0,
            count_insertions,
        };
        proof {
            assert(pruning@.rows =~= Seq::<RowView>::empty());
            assert(pruning@ == empty_window(pending_number, count_insertions));
        }
        loop
            invariant
                pruning@.wf(),
                pruning@.next_block() == block,
                window_from_meta(db.meta(), count_insertions) == replay_journal(pruning@, db.meta(), block),
            decreases u64::MAX - block,
        {
            if block == u64::MAX {
                assert(replay_journal(pruning@, db.meta(), block) == Some(pruning@));
                return Ok(pruning);
            }
            let journal_key = to_journal_key(block);
            match db.get_meta(journal_key.as_slice()) {
                Err(e) => return Err(PruningError::Db(e)),
                Ok(None) => {
                    assert(!db.meta().contains_key(journal_key_spec(block)));
                    assert(replay_journal(pruning@, db.meta(), block) == Some(pruning@));
                    return Ok(pruning);
                },
                Ok(Some(record)) => {
                    match decode_journal_record(record.as_slice()) {
                        Err(_) => return Err(PruningError::Decode),
                        Ok((hash, inserted, deleted)) => {
                            pruning.import(hash, journal_key, inserted, deleted);
                        },
                    }
                },
            }
            block = block + 1;
        }
    }

    /// Adds a canonical block to the window: records its journal entry in
    /// `commit` and moves the keys it deleted onto a new death row.
    pub fn note_canonical(&mut self, hash: u64, commit: &mut CommitSet)
        requires
            old(self)@.wf(),
            old(self)@.next_block() < u64::MAX,
            old(self)@.rows.len() < usize::MAX,
            old(commit).data.inserted@.len() <= u32::MAX,
            old(commit).data.deleted@.len() <= u32::MAX,
        ensures
            final(self)@ == old(self)@.note_canonical(
                hash,
                if old(self)@.count_insertions { inserted_keys(old(commit).data.inserted@) } else { Seq::empty() },
                old(commit).data.deleted@,
            ),
            final(self)@.wf(),
            final(commit).data.inserted@ == old(commit).data.inserted@,
            final(commit).data.deleted@ == Seq::<u64>::empty(),
            final(commit).meta.deleted@ == old(commit).meta.deleted@,
            pushed_pair(
                old(commit).meta.inserted@,
                final(commit).meta.inserted@,
                journal_key_spec(old(self)@.next_block() as u64),
                journal_record_encoding(
                    hash,
                    if old(self)@.count_insertions { inserted_keys(old(commit).data.inserted@) } else { Seq::empty() },
                    old(commit).data.deleted@,
                ),
            ),
            journal_record_decoding(final(commit).meta.inserted@[old(commit).meta.inserted@.len() as int].1@)
                == Some((
                    hash,
                    if old(self)@.count_insertions { inserted_keys(old(commit).data.inserted@) } else { Seq::empty() },
                    old(commit).data.deleted@,
                )),
    {
        let mut inserted: Vec<u64> = Vec::new();
        if self.count_insertions {
            let mut i: usize = 0;
            while i < commit.data.inserted.len()
                invariant
                    i <= commit.data.inserted@.len(),
                    inserted@ == inserted_keys(commit.data.inserted@).take(i as int),
                decreases commit.data.inserted@.len() - i,
            {
                inserted.push(commit.data.inserted[i].0);
                assert(inserted@ =~= inserted_keys(commit.data.inserted@).take(i as int + 1));
                i = i + 1;
            }
            assert(inserted@ =~= inserted_keys(commit.data.inserted@));
        } else {
            assert(inserted@ =~= Seq::<u64>::empty());
        }
        let mut deleted: Vec<u64> = Vec::new();
        std::mem::swap(&mut deleted, &mut commit.data.deleted);
        let record = encode_journal_record(hash, &inserted, &deleted);
        let block = self.pending_number + self.death_rows.len() as u64;
        let journal_key = to_journal_key(block);
        let meta_key = copy_bytes(&journal_key);
        commit.meta.inserted.push((meta_key, record));
        assert(commit.meta.inserted@.subrange(0, old(commit).meta.inserted@.len() as int) =~= old(commit).meta.inserted@);
        self.import(hash, journal_key, inserted, deleted);
        self.pending_canonicalizations = self.pending_canonicalizations + 1;
    }
}

} // verus!

verus! {

/// Whether two byte strings are equal.
pub fn bytes_eq(a: &[u8], b: &[u8]) -> (r: bool)
    ensures
        r == (a@ == b@),
{
    if a.len() != b.len() {
        return false;
    }
    let mut i: usize = 0;
    while i < a.len()
        invariant
            a@.len() == b@.len(),
            i <= a@.len(),
            a@.subrange(0, i as int) == b@.subrange(0, i as int),
        decreases a@.len() - i,
    {
        if a[i] != b[i] {
            assert(a@.subrange(0, i as int + 1)[i as int] != b@.subrange(0, i as int + 1)[i as int]);
            assert(a@ != b@) by {
                if a@ == b@ {
                    assert(a@[i as int] == b@[i as int]);
                }
            }
            return false;
        }
        assert(a@.subrange(0, i as int + 1) =~= a@.subrange(0, i as int).push(a@[i as int]));
        assert(b@.subrange(0, i as int + 1) =~= b@.subrange(0, i as int).push(b@[i as int]));
        i = i + 1;
    }
    assert(a@ =~= a@.subrange(0, i as int));
    assert(b@ =~= b@.subrange(0, i as int));
    true
}

/// The meta column after a log of writes: `Some` stores a value, `None`
/// deletes the key; later writes win.
pub open spec fn meta_of_log(log: Seq<(Vec<u8>, Option<Vec<u8>>)>) -> Map<Seq<u8>, Seq<u8>>
    decreases log.len(),
{
    if log.len() == 0 {
        Map::empty()
    } else {
        let m = meta_of_log(log.drop_last());
        match log.last().1 {
            Some(v) => m.insert(log.last().0@, v@),
            None => m.remove(log.last().0@),
        }
    }
}

/// The meta column after inserting `inserted` in order, then deleting
/// `deleted` in order.
pub open spec fn apply_meta_inserts(m: Map<Seq<u8>, Seq<u8>>, inserted: Seq<(Vec<u8>, Vec<u8>)>) -> Map<Seq<u8>, Seq<u8>>
    decreases inserted.len(),
{
    if inserted.len() == 0 {
        m
    } else {
        apply_meta_inserts(m, inserted.drop_last()).insert(inserted.last().0@, inserted.last().1@)
    }
}

pub open spec fn apply_meta_deletes(m: Map<Seq<u8>, Seq<u8>>, deleted: Seq<Vec<u8>>) -> Map<Seq<u8>, Seq<u8>>
    decreases deleted.len(),
{
    if deleted.len() == 0 {
        m
    } else {
        apply_meta_deletes(m, deleted.drop_last()).remove(deleted.last()@)
    }
}

/// The meta column after committing `meta`.
pub open spec fn apply_meta(m: Map<Seq<u8>, Seq<u8>>, meta: ChangeSet<Vec<u8>>) -> Map<Seq<u8>, Seq<u8>> {
    apply_meta_deletes(apply_meta_inserts(m, meta.inserted@), meta.deleted@)
}

/// An in-memory meta column.
pub struct MemoryMetaDb {
    log: Vec<(Vec<u8>, Option<Vec<u8>>)>,
}

impl MemoryMetaDb {
    /// An empty meta column.
    pub fn new() -> (r: Self)
        ensures
            r.meta() == Map::<Seq<u8>, Seq<u8>>::empty(),
    {
        MemoryMetaDb { log: Vec::new() }
    }

    /// Stores `value` under `key`.
    pub fn insert(&mut self, key: Vec<u8>, value: Vec<u8>)
        ensures
            final(self).meta() == old(self).meta().insert(key@, value@),
    {
        let ghost k = key@;
        let ghost v = value@;
        self.log.push((key, Some(value)));
        assert(self.log@.drop_last() =~= old(self).log@);
    }

    /// Deletes `key`.
    pub fn remove(&mut self, key: Vec<u8>)
        ensures
            final(self).meta() == old(self).meta().remove(key@),
    {
        self.log.push((key, None));
        assert(self.log@.drop_last() =~= old(self).log@);
    }

    /// Applies the meta changes of `commit`: insertions first, then
    /// deletions.
    pub fn commit(&mut self, commit: &CommitSet)
        ensures
            final(self).meta() == apply_meta(old(self).meta(), commit.meta),
    {
        let mut i: usize = 0;
        while i < commit.meta.inserted.len()
            invariant
                i <= commit.meta.inserted@.len(),
                self.meta() == apply_meta_inserts(old(self).meta(), commit.meta.inserted@.take(i as int)),
            decreases commit.meta.inserted@.len() - i,
        {
            let key = copy_bytes(&commit.meta.inserted[i].0);
            let value = copy_bytes(&commit.meta.inserted[i].1);
            self.insert(key, value);
            assert(commit.meta.inserted@.take(i as int + 1).drop_last() =~= commit.meta.inserted@.take(i as int));
            i = i + 1;
        }
        assert(commit.meta.inserted@.take(i as int) =~= commit.meta.inserted@);
        let ghost after_inserts = self.meta();
        let mut i: usize = 0;
        while i < commit.meta.deleted.len()
            invariant
                i <= commit.meta.deleted@.len(),
                self.meta() == apply_meta_deletes(after_inserts, commit.meta.deleted@.take(i as int)),
            decreases commit.meta.deleted@.len() - i,
        {
            let key = copy_bytes(&commit.meta.deleted[i]);
            self.remove(key);
            assert(commit.meta.deleted@.take(i as int + 1).drop_last() =~= commit.meta.deleted@.take(i as int));
            i = i + 1;
        }
        assert(commit.meta.deleted@.take(i as int) =~= commit.meta.deleted@);
    }
}

impl MetaDb for MemoryMetaDb {
    type Error = ();

    closed spec fn meta(&self) -> Map<Seq<u8>, Seq<u8>> {
        meta_of_log(self.log@)
    }

    /// Reading memory never fails.
    open spec fn reads_succeed(&self) -> bool {
        true
    }

    /// Reading memory never fails.
    open spec fn read_fails_with(&self, key: Seq<u8>, e: ()) -> bool {
        false
    }

    /// Reading memory never fails.
    fn get_meta(&self, key: &[u8]) -> (r: Result<Option<Vec<u8>>, ()>)
        ensures
            r is Ok,
    {
        let mut i = self.log.len();
        assert(self.log@.take(i as int) =~= self.log@);
        while i > 0
            invariant
                i <= self.log@.len(),
                meta_of_log(self.log@.take(i as int)).contains_key(key@) == self.meta().contains_key(key@),
                meta_of_log(self.log@.take(i as int)).contains_key(key@) ==>
                    meta_of_log(self.log@.take(i as int))[key@] == self.meta()[key@],
            decreases i,
        {
            assert(self.log@.take(i as int).drop_last() =~= self.log@.take(i as int - 1));
            if bytes_eq(self.log[i - 1].0.as_slice(), key) {
                return match &self.log[i - 1].1 {
                    Some(v) => Ok(Some(copy_bytes(v))),
                    None => Ok(None),
                };
            }
            i = i - 1;
        }
        assert(self.log@.take(0) =~= Seq::<(Vec<u8>, Option<Vec<u8>>)>::empty());
        Ok(None)
    }
}

} // verus!

verus! {

/// Different blocks have different journal keys.
pub proof fn lemma_journal_key_injective(a: u64, b: u64)
    requires
        journal_key_spec(a) == journal_key_spec(b),
    ensures
        a == b,
{
    crate::scale::lemma_u64_roundtrip(a);
    crate::scale::lemma_u64_roundtrip(b);
    assert(journal_key_spec(a).subrange(0, 8) =~= u64_encoding(a).subrange(0, 8));
    assert(journal_key_spec(b).subrange(0, 8) =~= u64_encoding(b).subrange(0, 8));
}

/// Replaying the journal only adds rows: it stops at the first block
/// without a record, which is then the next block of the result.
pub proof fn lemma_replay_stops(v: WindowView, meta: Map<Seq<u8>, Seq<u8>>, b: u64)
    requires
        v.wf(),
        v.next_block() == b,
        replay_journal(v, meta, b) is Some,
    ensures
        replay_journal(v, meta, b)->Some_0.wf(),
        replay_journal(v, meta, b)->Some_0.next_block() >= b,
        replay_journal(v, meta, b)->Some_0.next_block() == u64::MAX
            || !meta.contains_key(journal_key_spec(replay_journal(v, meta, b)->Some_0.next_block() as u64)),
        replay_journal(v, meta, b)->Some_0.pending_canonicalizations == v.pending_canonicalizations,
        replay_journal(v, meta, b)->Some_0.pending_prunings == v.pending_prunings,
        replay_journal(v, meta, b)->Some_0.pending_number == v.pending_number,
        replay_journal(v, meta, b)->Some_0.count_insertions == v.count_insertions,
    decreases u64::MAX - b,
{
    let key = journal_key_spec(b);
    if b == u64::MAX || !meta.contains_key(key) {
    } else {
        let (hash, inserted, deleted) = journal_record_decoding(meta[key])->Some_0;
        lemma_import_wf(v, hash, key, inserted, deleted);
        lemma_replay_stops(v.import(hash, key, inserted, deleted), meta, (b + 1) as u64);
    }
}

/// Importing a block keeps the window's invariant and adds one row.
pub proof fn lemma_import_wf(v: WindowView, hash: u64, key: Seq<u8>, inserted: Seq<u64>, deleted: Seq<u64>)
    requires
        v.wf(),
        v.next_block() < u64::MAX,
        key == journal_key_spec(v.next_block() as u64),
    ensures
        v.import(hash, key, inserted, deleted).wf(),
        v.import(hash, key, inserted, deleted).rows.len() == v.rows.len() + 1,
{
    let w = v.import(hash, key, inserted, deleted);
    if v.count_insertions {
        assert forall|k: u64| #[trigger] w.index.contains_key(k) implies {
            &&& w.pending_number <= w.index[k] < w.pending_number + w.rows.len()
            &&& w.rows[w.index[k] - w.pending_number].deleted.contains(k)
        } by {
            if deleted.contains(k) {
                assert(w.rows[w.rows.len() - 1].deleted == deleted.to_set());
            } else {
                assert(v.index.contains_key(k));
            }
        }
    } else {
        assert(w.index.dom() =~= Set::<u64>::empty());
    }
}

/// Replaying the journal of a meta column with one more record, written at
/// the block where the replay stopped, continues from there.
proof fn lemma_replay_with_record(
    v: WindowView,
    meta: Map<Seq<u8>, Seq<u8>>,
    b: u64,
    nb: u64,
    record: Seq<u8>,
)
    requires
        v.wf(),
        v.next_block() == b,
        replay_journal(v, meta, b) is Some,
        replay_journal(v, meta, b)->Some_0.next_block() == nb,
    ensures
        replay_journal(v, meta.insert(journal_key_spec(nb), record), b) == replay_journal(
            replay_journal(v, meta, b)->Some_0,
            meta.insert(journal_key_spec(nb), record),
            nb,
        ),
    decreases u64::MAX - b,
{
    let key = journal_key_spec(b);
    let meta2 = meta.insert(journal_key_spec(nb), record);
    if b == u64::MAX || !meta.contains_key(key) {
        assert(replay_journal(v, meta, b) == Some(v));
    } else {
        let (hash, inserted, deleted) = journal_record_decoding(meta[key])->Some_0;
        let v2 = v.import(hash, key, inserted, deleted);
        lemma_import_wf(v, hash, key, inserted, deleted);
        lemma_replay_stops(v2, meta, (b + 1) as u64);
        if nb == b {
            assert(false);
        }
        if key == journal_key_spec(nb) {
            lemma_journal_key_injective(b, nb);
        }
        assert(meta2[key] == meta[key]);
        lemma_replay_with_record(v2, meta, (b + 1) as u64, nb, record);
    }
}

/// A window read back from the meta column after a block was noted as
/// canonical holds that block: the journal record that `note_canonical`
/// writes replays to the same row, and the block after it has no record
/// yet.
pub proof fn lemma_journal_restores_note_canonical(
    meta: Map<Seq<u8>, Seq<u8>>,
    w: WindowView,
    hash: u64,
    inserted: Seq<u64>,
    deleted: Seq<u64>,
    record: Seq<u8>,
)
    requires
        w.wf(),
        replay_journal(empty_window(w.pending_number, w.count_insertions), meta, w.pending_number) == Some(w),
        w.next_block() + 1 < u64::MAX,
        !meta.contains_key(journal_key_spec((w.next_block() + 1) as u64)),
        journal_record_decoding(record) == Some((hash, inserted, deleted)),
    ensures
        replay_journal(
            empty_window(w.pending_number, w.count_insertions),
            meta.insert(journal_key_spec(w.next_block() as u64), record),
            w.pending_number,
        ) == Some(WindowView { pending_canonicalizations: 0, ..w.note_canonical(hash, inserted, deleted) }),
{
    let e = empty_window(w.pending_number, w.count_insertions);
    let nb = w.next_block() as u64;
    let meta2 = meta.insert(journal_key_spec(nb), record);
    assert(e.rows.len() == 0);
    assert(e.wf()) by {
        assert(e.index.dom() =~= Set::<u64>::empty());
    }
    lemma_replay_stops(e, meta, w.pending_number);
    lemma_replay_with_record(e, meta, w.pending_number, nb, record);
    let key = journal_key_spec(nb);
    let w2 = w.import(hash, key, inserted, deleted);
    lemma_import_wf(w, hash, key, inserted, deleted);
    let key1 = journal_key_spec((nb + 1) as u64);
    if key1 == key {
        lemma_journal_key_injective((nb + 1) as u64, nb);
    }
    assert(!meta2.contains_key(key1));
    assert(replay_journal(w2, meta2, (nb + 1) as u64) == Some(w2));
    assert(replay_journal(w, meta2, nb) == Some(w2));
}

/// Reverting right after pruning undoes the pruning.
pub proof fn lemma_revert_undoes_prune_one(w: WindowView)
    requires
        w.wf(),
    ensures
        w.prune_one().revert_pending() == w.revert_pending(),
{
}

/// Applying pending prunings moves the window's start forward by the
/// number of pruned blocks and keeps its end; the number of the next block
/// to prune does not change.
pub proof fn lemma_apply_pending_keeps_ends(w: WindowView)
    requires
        w.wf(),
    ensures
        w.apply_pending().next_block() == w.next_block(),
        w.apply_pending().pending_number == w.pending_number + w.pending_prunings,
        w.apply_pending().rows.len() == w.rows.len() - w.pending_prunings,
        w.apply_pending().wf(),
{
    let a = w.apply_pending();
    if w.count_insertions {
        assert forall|k: u64| #[trigger] a.index.contains_key(k) implies {
            &&& a.pending_number <= a.index[k] < a.pending_number + a.rows.len()
            &&& a.rows[a.index[k] - a.pending_number].deleted.contains(k)
        } by {
            let b = w.index[k];
            if b < w.pending_number + w.pending_prunings {
                assert(w.rows[b - w.pending_number].deleted.contains(k));
                assert(w.keys_on_rows(w.pending_prunings as int).contains(k));
            }
        }
    }
}

/// Noting a canonical block and then reverting gives back the window's
/// blocks: the same rows by hash and journal key, the same start, and
/// without insertion counting exactly the same window.
pub proof fn lemma_revert_undoes_note_canonical(w: WindowView, hash: u64, inserted: Seq<u64>, deleted: Seq<u64>)
    requires
        w.wf(),
        w.pending_canonicalizations == 0,
        w.pending_prunings == 0,
        w.next_block() < u64::MAX,
    ensures
        w.note_canonical(hash, inserted, deleted).revert_pending().rows.len() == w.rows.len(),
        forall|i: int| 0 <= i < w.rows.len() ==> {
            &&& #[trigger] w.note_canonical(hash, inserted, deleted).revert_pending().rows[i].hash == w.rows[i].hash
            &&& w.note_canonical(hash, inserted, deleted).revert_pending().rows[i].journal_key == w.rows[i].journal_key
            &&& w.note_canonical(hash, inserted, deleted).revert_pending().rows[i].deleted.subset_of(w.rows[i].deleted)
        },
        w.note_canonical(hash, inserted, deleted).revert_pending().pending_number == w.pending_number,
        !w.count_insertions ==> w.note_canonical(hash, inserted, deleted).revert_pending() == w,
{
    let r = w.note_canonical(hash, inserted, deleted).revert_pending();
    if !w.count_insertions {
        assert(r.rows =~= w.rows);
    }
}

/// The window after a history of steps, taken in order.
pub open spec fn run(w: WindowView, ops: Seq<WindowOp>) -> WindowView
    decreases ops.len(),
{
    if ops.len() == 0 {
        w
    } else {
        run(w, ops.drop_last()).step(ops.last())
    }
}

/// Number of blocks noted in a history.
pub open spec fn notes_in(ops: Seq<WindowOp>) -> nat
    decreases ops.len(),
{
    if ops.len() == 0 {
        0
    } else {
        notes_in(ops.drop_last()) + if ops.last() is Note { 1nat } else { 0nat }
    }
}

/// Number of prunes in a history.
pub open spec fn prunes_in(ops: Seq<WindowOp>) -> nat
    decreases ops.len(),
{
    if ops.len() == 0 {
        0
    } else {
        prunes_in(ops.drop_last()) + if ops.last() is Prune { 1nat } else { 0nat }
    }
}

/// Each block of the history is noted while the block counter has room.
pub open spec fn notes_fit(w: WindowView, ops: Seq<WindowOp>) -> bool
    decreases ops.len(),
{
    ops.len() == 0 || {
        &&& notes_fit(w, ops.drop_last())
        &&& (ops.last() is Note ==> run(w, ops.drop_last()).next_block() < u64::MAX)
    }
}

/// Each prune of the history is made while a block is left to prune.
pub open spec fn prunes_fit(w: WindowView, ops: Seq<WindowOp>) -> bool
    decreases ops.len(),
{
    ops.len() == 0 || {
        &&& prunes_fit(w, ops.drop_last())
        &&& (ops.last() is Prune ==> run(w, ops.drop_last()).window_size() > 0)
    }
}

/// Noting a block keeps the window's invariant and adds one row; the
/// rows before it keep their hash and journal key, and lose keys only.
pub proof fn lemma_note_keeps_rows(w: WindowView, hash: u64, inserted: Seq<u64>, deleted: Seq<u64>)
    requires
        w.wf(),
        w.next_block() < u64::MAX,
    ensures
        w.note_canonical(hash, inserted, deleted).wf(),
        w.note_canonical(hash, inserted, deleted).rows.len() == w.rows.len() + 1,
        w.note_canonical(hash, inserted, deleted).rows[w.rows.len() as int].hash == hash,
        w.note_canonical(hash, inserted, deleted).pending_number == w.pending_number,
        w.note_canonical(hash, inserted, deleted).pending_prunings == w.pending_prunings,
        w.note_canonical(hash, inserted, deleted).pending_canonicalizations == w.pending_canonicalizations + 1,
        w.note_canonical(hash, inserted, deleted).count_insertions == w.count_insertions,
        forall|i: int| 0 <= i < w.rows.len() ==> {
            &&& #[trigger] w.note_canonical(hash, inserted, deleted).rows[i].hash == w.rows[i].hash
            &&& w.note_canonical(hash, inserted, deleted).rows[i].journal_key == w.rows[i].journal_key
            &&& w.note_canonical(hash, inserted, deleted).rows[i].deleted.subset_of(w.rows[i].deleted)
        },
        !w.count_insertions ==> w.note_canonical(hash, inserted, deleted).rows.subrange(0, w.rows.len() as int) == w.rows,
        !w.count_insertions ==> w.note_canonical(hash, inserted, deleted).index == w.index,
{
    let key = journal_key_spec(w.next_block() as u64);
    lemma_import_wf(w, hash, key, inserted, deleted);
    let n = w.note_canonical(hash, inserted, deleted);
    if !w.count_insertions {
        assert(n.rows.subrange(0, w.rows.len() as int) =~= w.rows);
    }
}

/// Along a history, the window keeps its invariant and its first block;
/// each noted block adds a row and a pending canonicalization, each prune
/// of a block left adds a pending pruning; the rows held before keep their
/// hash and journal key and lose keys only.
pub proof fn lemma_run_shape(w: WindowView, ops: Seq<WindowOp>)
    requires
        w.wf(),
        notes_fit(w, ops),
    ensures
        run(w, ops).wf(),
        run(w, ops).rows.len() == w.rows.len() + notes_in(ops),
        run(w, ops).pending_number == w.pending_number,
        run(w, ops).pending_canonicalizations == w.pending_canonicalizations + notes_in(ops),
        run(w, ops).pending_prunings <= w.pending_prunings + prunes_in(ops),
        prunes_fit(w, ops) ==> run(w, ops).pending_prunings == w.pending_prunings + prunes_in(ops),
        run(w, ops).count_insertions == w.count_insertions,
        forall|i: int| 0 <= i < w.rows.len() ==> {
            &&& #[trigger] run(w, ops).rows[i].hash == w.rows[i].hash
            &&& run(w, ops).rows[i].journal_key == w.rows[i].journal_key
            &&& run(w, ops).rows[i].deleted.subset_of(w.rows[i].deleted)
        },
        !w.count_insertions ==> run(w, ops).rows.subrange(0, w.rows.len() as int) == w.rows,
        !w.count_insertions ==> run(w, ops).index == w.index,
    decreases ops.len(),
{
    if ops.len() > 0 {
        let prev = ops.drop_last();
        lemma_run_shape(w, prev);
        let v = run(w, prev);
        match ops.last() {
            WindowOp::Note { hash, inserted, deleted } => {
                lemma_note_keeps_rows(v, hash, inserted, deleted);
                let n = v.note_canonical(hash, inserted, deleted);
                assert forall|i: int| 0 <= i < w.rows.len() implies {
                    &&& #[trigger] n.rows[i].hash == w.rows[i].hash
                    &&& n.rows[i].journal_key == w.rows[i].journal_key
                    &&& n.rows[i].deleted.subset_of(w.rows[i].deleted)
                } by {
                    assert(v.rows[i].hash == w.rows[i].hash);
                    assert(n.rows[i].hash == v.rows[i].hash);
                }
                if !w.count_insertions {
                    assert(n.rows.subrange(0, w.rows.len() as int) =~= v.rows.subrange(0, w.rows.len() as int)) by {
                        assert(n.rows.subrange(0, v.rows.len() as int) == v.rows);
                    }
                }
            },
            WindowOp::Prune => {},
        }
    }
}

/// The window size over a history: with every prune made while a block is
/// left to prune, it grows by one per noted block and shrinks by one per
/// prune; it is zero exactly when no block is left to prune.
pub proof fn lemma_window_size_over_history(w: WindowView, ops: Seq<WindowOp>)
    requires
        w.wf(),
        notes_fit(w, ops),
        prunes_fit(w, ops),
    ensures
        run(w, ops).wf(),
        run(w, ops).window_size() == w.window_size() + notes_in(ops) - prunes_in(ops),
        run(w, ops).window_size() >= 0,
        (run(w, ops).window_size() == 0) == (run(w, ops).next_hash() is None),
{
    lemma_run_shape(w, ops);
}

/// Reverting after a history of noted blocks and prunes that started right
/// after an apply or a revert gives back the window's blocks: the same
/// rows by hash and journal key (keys taken off rows by re-insertion stay
/// off), the same start, size, next block to prune and blocks held; without
/// insertion counting, exactly the same window.
pub proof fn lemma_revert_restores_window(w: WindowView, ops: Seq<WindowOp>)
    requires
        w.wf(),
        w.pending_canonicalizations == 0,
        w.pending_prunings == 0,
        notes_fit(w, ops),
    ensures
        run(w, ops).revert_pending().rows.len() == w.rows.len(),
        run(w, ops).revert_pending().pending_number == w.pending_number,
        run(w, ops).revert_pending().window_size() == w.window_size(),
        run(w, ops).revert_pending().next_hash() == w.next_hash(),
        forall|h: u64| #[trigger] run(w, ops).revert_pending().have_block(h) == w.have_block(h),
        forall|i: int| 0 <= i < w.rows.len() ==> {
            &&& #[trigger] run(w, ops).revert_pending().rows[i].hash == w.rows[i].hash
            &&& run(w, ops).revert_pending().rows[i].journal_key == w.rows[i].journal_key
            &&& run(w, ops).revert_pending().rows[i].deleted.subset_of(w.rows[i].deleted)
        },
        !w.count_insertions ==> run(w, ops).revert_pending() == w,
{
    lemma_run_shape(w, ops);
    let v = run(w, ops);
    let r = v.revert_pending();
    assert(r.rows.len() == w.rows.len());
    assert forall|i: int| 0 <= i < w.rows.len() implies #[trigger] r.rows[i] == v.rows[i] by {}
    assert forall|h: u64| #[trigger] r.have_block(h) == w.have_block(h) by {
        if r.have_block(h) {
            let i = choose|i: int| r.pending_prunings <= i < r.rows.len() && #[trigger] r.rows[i].hash == h;
            assert(w.rows[i].hash == h);
        }
        if w.have_block(h) {
            let i = choose|i: int| w.pending_prunings <= i < w.rows.len() && #[trigger] w.rows[i].hash == h;
            assert(r.rows[i].hash == h);
        }
    }
    if w.rows.len() > 0 {
        assert(r.rows[0].hash == w.rows[0].hash);
    }
    if !w.count_insertions {
        assert(r.rows =~= w.rows) by {
            assert(v.rows.subrange(0, w.rows.len() as int) == w.rows);
        }
    }
}

/// Blocks are pruned oldest first: after noting two blocks in an empty
/// window, the first is the next to prune, then the second, then none;
/// applying the pending prunings in between changes nothing of that.
pub proof fn lemma_next_hash_in_order(
    w: WindowView,
    h1: u64,
    inserted1: Seq<u64>,
    deleted1: Seq<u64>,
    h2: u64,
    inserted2: Seq<u64>,
    deleted2: Seq<u64>,
)
    requires
        w.wf(),
        w.window_size() == 0,
        w.next_block() + 1 < u64::MAX,
    ensures
        w.note_canonical(h1, inserted1, deleted1).note_canonical(h2, inserted2, deleted2).next_hash() == Some(h1),
        w.note_canonical(h1, inserted1, deleted1).note_canonical(h2, inserted2, deleted2).prune_one().next_hash() == Some(h2),
        w.note_canonical(h1, inserted1, deleted1).note_canonical(h2, inserted2, deleted2).prune_one().prune_one().next_hash() is None,
        w.note_canonical(h1, inserted1, deleted1).note_canonical(h2, inserted2, deleted2).prune_one().apply_pending().next_hash()
            == Some(h2),
        w.note_canonical(h1, inserted1, deleted1).note_canonical(h2, inserted2, deleted2).prune_one().apply_pending().prune_one().next_hash() is None,
{
    lemma_note_keeps_rows(w, h1, inserted1, deleted1);
    let a = w.note_canonical(h1, inserted1, deleted1);
    lemma_note_keeps_rows(a, h2, inserted2, deleted2);
    let b = a.note_canonical(h2, inserted2, deleted2);
    assert(b.rows[w.rows.len() as int].hash == h1);
    let c = b.prune_one();
    assert(c.wf());
    lemma_apply_pending_keeps_ends(c);
    let d = c.apply_pending();
    assert(d.rows[0] == c.rows[c.pending_prunings as int]);
}

/// Noting a block makes it held, and leaves every other block held or not
/// as before.
pub proof fn lemma_note_holds_block(w: WindowView, hash: u64, inserted: Seq<u64>, deleted: Seq<u64>)
    requires
        w.wf(),
        w.next_block() < u64::MAX,
    ensures
        forall|h: u64| #[trigger] w.note_canonical(hash, inserted, deleted).have_block(h) == (w.have_block(h) || h == hash),
{
    lemma_note_keeps_rows(w, hash, inserted, deleted);
    let n = w.note_canonical(hash, inserted, deleted);
    assert forall|h: u64| #[trigger] n.have_block(h) == (w.have_block(h) || h == hash) by {
        if n.have_block(h) {
            let i = choose|i: int| n.pending_prunings <= i < n.rows.len() && #[trigger] n.rows[i].hash == h;
            if i < w.rows.len() {
                assert(w.rows[i].hash == h);
            }
        }
        if w.have_block(h) {
            let i = choose|i: int| w.pending_prunings <= i < w.rows.len() && #[trigger] w.rows[i].hash == h;
            assert(n.rows[i].hash == h);
        }
        if h == hash {
            assert(n.rows[w.rows.len() as int].hash == h);
        }
    }
}

/// The blocks left to prune have different hashes.
pub open spec fn hashes_distinct(w: WindowView) -> bool {
    forall|i: int, j: int|
        w.pending_prunings <= i < j < w.rows.len() ==> #[trigger] w.rows[i].hash != #[trigger] w.rows[j].hash
}

/// Pruning drops the next block to prune from the blocks held, and only
/// it, when the blocks left have different hashes.
pub proof fn lemma_prune_drops_block(w: WindowView)
    requires
        w.wf(),
        hashes_distinct(w),
    ensures
        forall|h: u64| #[trigger] w.prune_one().have_block(h) == (w.have_block(h) && w.next_hash() != Some(h)),
{
    let p = w.prune_one();
    assert forall|h: u64| #[trigger] p.have_block(h) == (w.have_block(h) && w.next_hash() != Some(h)) by {
        if p.have_block(h) {
            let i = choose|i: int| p.pending_prunings <= i < p.rows.len() && #[trigger] p.rows[i].hash == h;
            assert(w.rows[i].hash == h);
            if w.pending_prunings < w.rows.len() {
                let f = w.pending_prunings as int;
                assert(w.rows[f].hash != w.rows[i].hash);
            }
        }
        if w.have_block(h) && w.next_hash() != Some(h) {
            let i = choose|i: int| w.pending_prunings <= i < w.rows.len() && #[trigger] w.rows[i].hash == h;
            assert(p.rows[i].hash == h);
        }
    }
}

/// The keys that the blocks noted in a history inserted.
pub open spec fn inserted_in(ops: Seq<WindowOp>) -> Set<u64>
    decreases ops.len(),
{
    if ops.len() == 0 {
        Set::empty()
    } else {
        inserted_in(ops.drop_last()).union(
            match ops.last() {
                WindowOp::Note { inserted, .. } => inserted.to_set(),
                WindowOp::Prune => Set::empty(),
            },
        )
    }
}

/// No block noted in a history deletes one of `keys`.
pub open spec fn deletes_none_of(ops: Seq<WindowOp>, keys: Seq<u64>) -> bool {
    forall|j: int, k: u64|
        #![trigger ops[j], keys.contains(k)]
        0 <= j < ops.len() && keys.contains(k) ==> !(ops[j] matches WindowOp::Note { deleted, .. } && deleted.contains(k))
}

/// With insertion counting, the row of a noted block keeps the keys it
/// deleted that no later block re-inserted, and the index still points
/// them to that row.
proof fn lemma_row_keys_counted(w: WindowView, hash: u64, inserted: Seq<u64>, deleted: Seq<u64>, ops: Seq<WindowOp>)
    requires
        w.wf(),
        w.count_insertions,
        w.next_block() < u64::MAX,
        notes_fit(w.note_canonical(hash, inserted, deleted), ops),
        deletes_none_of(ops, deleted),
    ensures
        run(w.note_canonical(hash, inserted, deleted), ops).rows[w.rows.len() as int].deleted
            == deleted.to_set().difference(inserted_in(ops)),
        forall|k: u64| #[trigger] run(w.note_canonical(hash, inserted, deleted), ops).rows[w.rows.len() as int].deleted.contains(k) ==> {
            &&& run(w.note_canonical(hash, inserted, deleted), ops).index.contains_key(k)
            &&& run(w.note_canonical(hash, inserted, deleted), ops).index[k] == w.next_block()
        },
    decreases ops.len(),
{
    let n = w.note_canonical(hash, inserted, deleted);
    let r0 = w.rows.len() as int;
    lemma_note_keeps_rows(w, hash, inserted, deleted);
    if ops.len() == 0 {
        assert(n.rows[r0].deleted =~= deleted.to_set().difference(inserted_in(ops)));
    } else {
        let prev = ops.drop_last();
        assert(deletes_none_of(prev, deleted)) by {
            assert forall|j: int, k: u64| #![trigger prev[j], deleted.contains(k)] 0 <= j < prev.len() && deleted.contains(k) implies
                !(prev[j] matches WindowOp::Note { deleted: d, .. } && d.contains(k)) by {
                assert(prev[j] == ops[j]);
            }
        }
        lemma_row_keys_counted(w, hash, inserted, deleted, prev);
        lemma_run_shape(n, prev);
        let v = run(n, prev);
        assert(v.rows.len() > r0);
        match ops.last() {
            WindowOp::Note { hash: h2, inserted: i2, deleted: d2 } => {
                lemma_note_keeps_rows(v, h2, i2, d2);
                let x = v.note_canonical(h2, i2, d2);
                assert(ops[ops.len() - 1] == ops.last());
                assert forall|k: u64| deleted.contains(k) implies !d2.contains(k) by {
                    assert(!(ops[ops.len() - 1] matches WindowOp::Note { deleted: d, .. } && d.contains(k)));
                }
                assert(x.rows[r0].deleted =~= deleted.to_set().difference(inserted_in(ops))) by {
                    assert forall|k: u64| #[trigger] x.rows[r0].deleted.contains(k)
                        == deleted.to_set().difference(inserted_in(ops)).contains(k) by {
                        if v.rows[r0].deleted.contains(k) {
                            assert(v.index.contains_key(k) && v.index[k] == v.pending_number + r0);
                        }
                    }
                }
                assert forall|k: u64| #[trigger] x.rows[r0].deleted.contains(k) implies {
                    &&& x.index.contains_key(k)
                    &&& x.index[k] == w.next_block()
                } by {
                    assert(v.rows[r0].deleted.contains(k));
                    assert(deleted.to_set().contains(k));
                    assert(deleted.contains(k));
                    assert(!d2.contains(k));
                    assert(!i2.contains(k));
                }
            },
            WindowOp::Prune => {
                assert(inserted_in(ops) =~= inserted_in(prev));
            },
        }
    }
}

/// The keys pruning a block will delete, over a history: when no later
/// block deletes one of the keys the block deleted, its row keeps exactly
/// those keys, less the ones later blocks re-inserted when insertion
/// counting is on, and all of them when it is off. Pruning the block then
/// deletes exactly these keys, as `RefWindow::prune_one` says.
pub proof fn lemma_row_keys_over_history(w: WindowView, hash: u64, inserted: Seq<u64>, deleted: Seq<u64>, ops: Seq<WindowOp>)
    requires
        w.wf(),
        w.next_block() < u64::MAX,
        notes_fit(w.note_canonical(hash, inserted, deleted), ops),
        deletes_none_of(ops, deleted),
    ensures
        run(w.note_canonical(hash, inserted, deleted), ops).rows.len() > w.rows.len(),
        run(w.note_canonical(hash, inserted, deleted), ops).rows[w.rows.len() as int].hash == hash,
        run(w.note_canonical(hash, inserted, deleted), ops).rows[w.rows.len() as int].deleted == if w.count_insertions {
            deleted.to_set().difference(inserted_in(ops))
        } else {
            deleted.to_set()
        },
{
    let n = w.note_canonical(hash, inserted, deleted);
    let r0 = w.rows.len() as int;
    lemma_note_keeps_rows(w, hash, inserted, deleted);
    lemma_run_shape(n, ops);
    assert(run(n, ops).rows[r0].hash == n.rows[r0].hash);
    if w.count_insertions {
        lemma_row_keys_counted(w, hash, inserted, deleted, ops);
    } else {
        assert(run(n, ops).rows[r0] == n.rows[r0]) by {
            assert(run(n, ops).rows.subrange(0, n.rows.len() as int) == n.rows);
            assert(run(n, ops).rows.subrange(0, n.rows.len() as int)[r0] == run(n, ops).rows[r0]);
        }
    }
}

/// The step that a journal record stands for: the block it notes.
pub open spec fn note_of_record(record: Seq<u8>) -> WindowOp {
    match journal_record_decoding(record) {
        Some((hash, inserted, deleted)) => WindowOp::Note { hash, inserted, deleted },
        None => WindowOp::Prune,
    }
}

/// The meta column after the journal records `records` were written for
/// blocks `first`, `first + 1`, ...
pub open spec fn meta_with_records(meta: Map<Seq<u8>, Seq<u8>>, first: u64, records: Seq<Seq<u8>>) -> Map<Seq<u8>, Seq<u8>>
    decreases records.len(),
{
    if records.len() == 0 {
        meta
    } else {
        meta_with_records(meta, first, records.drop_last()).insert(
            journal_key_spec((first + records.len() - 1) as u64),
            records.last(),
        )
    }
}

/// Reading a window back from the meta column after several blocks were
/// noted as canonical, their journal records written in turn, gives the
/// window with all of those blocks: the same as noting them in order, with
/// nothing pending. The blocks after them must have no record yet.
pub proof fn lemma_journal_restores_history(meta: Map<Seq<u8>, Seq<u8>>, w: WindowView, records: Seq<Seq<u8>>)
    requires
        w.wf(),
        replay_journal(empty_window(w.pending_number, w.count_insertions), meta, w.pending_number) == Some(w),
        w.next_block() + records.len() < u64::MAX,
        forall|j: int| 0 <= j < records.len() ==> #[trigger] journal_record_decoding(records[j]) is Some,
        forall|j: int| 1 <= j <= records.len() ==> !meta.contains_key(#[trigger] journal_key_spec((w.next_block() + j) as u64)),
    ensures
        notes_fit(w, records.map_values(|r: Seq<u8>| note_of_record(r))),
        notes_in(records.map_values(|r: Seq<u8>| note_of_record(r))) == records.len(),
        replay_journal(
            empty_window(w.pending_number, w.count_insertions),
            meta_with_records(meta, w.next_block() as u64, records),
            w.pending_number,
        ) == Some(WindowView { pending_canonicalizations: 0, ..run(w, records.map_values(|r: Seq<u8>| note_of_record(r))) }),
    decreases records.len(),
{
    let ops = records.map_values(|r: Seq<u8>| note_of_record(r));
    let nb = w.next_block() as u64;
    let e = empty_window(w.pending_number, w.count_insertions);
    assert(e.wf()) by {
        assert(e.index.dom() =~= Set::<u64>::empty());
    }
    lemma_replay_stops(e, meta, w.pending_number);
    if records.len() == 0 {
        assert(meta_with_records(meta, nb, records) == meta);
        assert(run(w, ops) == w);
        assert(notes_in(ops) == 0);
        assert(WindowView { pending_canonicalizations: 0, ..w } == w);
    } else {
        let prev = records.drop_last();
        let prev_ops = prev.map_values(|r: Seq<u8>| note_of_record(r));
        assert(prev_ops =~= ops.drop_last());
        assert forall|j: int| 0 <= j < prev.len() implies #[trigger] journal_record_decoding(prev[j]) is Some by {
            assert(prev[j] == records[j]);
        }
        lemma_journal_restores_history(meta, w, prev);
        lemma_run_shape(w, prev_ops);
        let v = run(w, prev_ops);
        let v0 = WindowView { pending_canonicalizations: 0, ..v };
        let meta_p = meta_with_records(meta, nb, prev);
        let k = prev.len();
        assert(v0.wf());
        assert(v0.next_block() == nb + k);
        let rec = records.last();
        assert(rec == records[records.len() - 1]);
        let (hash, inserted, deleted) = journal_record_decoding(rec)->Some_0;
        assert(ops.last() == WindowOp::Note { hash, inserted, deleted });
        // The block after the new record has none yet.
        let key_next = journal_key_spec((nb + k + 1) as u64);
        assert(!meta.contains_key(key_next)) by {
            assert(key_next == journal_key_spec((w.next_block() + (k + 1)) as u64));
        }
        assert(!meta_p.contains_key(key_next)) by {
            lemma_meta_with_records_keys(meta, nb, prev, (nb + k + 1) as u64);
        }
        lemma_journal_restores_note_canonical(meta_p, v0, hash, inserted, deleted, rec);
        assert(meta_with_records(meta, nb, records) == meta_p.insert(journal_key_spec((nb + k) as u64), rec));
        let x0 = v0.note_canonical(hash, inserted, deleted);
        let x = v.note_canonical(hash, inserted, deleted);
        assert(run(w, ops) == x);
        assert(WindowView { pending_canonicalizations: 0, ..x0 } == WindowView { pending_canonicalizations: 0, ..x });
        assert(notes_fit(w, ops)) by {
            assert(ops.drop_last() == prev_ops);
        }
        assert(notes_in(ops) == notes_in(prev_ops) + 1);
    }
}

/// The records written from block `first` add the journal keys of those
/// blocks only: a later block's key is there only if it was before.
proof fn lemma_meta_with_records_keys(meta: Map<Seq<u8>, Seq<u8>>, first: u64, records: Seq<Seq<u8>>, block: u64)
    requires
        first + records.len() <= block,
    ensures
        meta_with_records(meta, first, records).contains_key(journal_key_spec(block)) == meta.contains_key(journal_key_spec(block)),
    decreases records.len(),
{
    if records.len() > 0 {
        lemma_meta_with_records_keys(meta, first, records.drop_last(), block);
        let b = (first + records.len() - 1) as u64;
        if journal_key_spec(b) == journal_key_spec(block) {
            lemma_journal_key_injective(b, block);
        }
    }
}

} // verus!
