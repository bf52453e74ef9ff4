//! Named accounts and their permissions: an account name is hashed into a
//! 32-byte account id carrying the `VTC` prefix, public keys point at the
//! account they own, and each account keeps a list of permission groups,
//! each with the calls it allows and the keys that may authorise them.

use vstd::prelude::*;
use crate::common::{ensure_signed, DispatchError, RawOrigin};
use crate::state_db::bytes_eq;

verus! {

/// A 32-byte account id.
pub type AccountId32 = [u8; 32];

/// Whether two account ids are equal.
pub fn account_id_eq(a: &AccountId32, b: &AccountId32) -> (r: bool)
    ensures
        r == (*a == *b),
{
    let r = bytes_eq(a.as_slice(), b.as_slice());
    proof {
        if r {
            assert(forall|i: int| 0 <= i < 32 ==> a[i] == b[i]);
            assert(*a =~= *b);
        }
    }
    r
}

/// Whether two five-byte names are equal.
pub fn name_eq(a: &[u8; 5], b: &[u8; 5]) -> (r: bool)
    ensures
        r == (*a == *b),
{
    let r = bytes_eq(a.as_slice(), b.as_slice());
    proof {
        if r {
            assert(forall|i: int| 0 <= i < 5 ==> a[i] == b[i]);
            assert(*a =~= *b);
        }
    }
    r
}

/// A map keyed by account id, stored as a list of entries with distinct
/// keys.
pub struct KeyMap<V> {
    entries: Vec<(AccountId32, V)>,
}

impl<V> KeyMap<V> {
    /// No key occurs twice.
    #[verifier::type_invariant]
    closed spec fn keys_distinct(self) -> bool {
        forall|i: int, j: int|
            0 <= i < j < self.entries@.len() ==> #[trigger] self.entries@[i].0 != #[trigger] self.entries@[j].0
    }

    /// Whether some entry is under `k`.
    closed spec fn has_entry(self, k: AccountId32) -> bool {
        exists|i: int| 0 <= i < self.entries@.len() && #[trigger] self.entries@[i].0 == k
    }

    /// The index of the entry under `k`.
    closed spec fn entry_index(self, k: AccountId32) -> int {
        choose|i: int| 0 <= i < self.entries@.len() && #[trigger] self.entries@[i].0 == k
    }
}

impl<V> View for KeyMap<V> {
    type V = Map<AccountId32, V>;

    closed spec fn view(&self) -> Map<AccountId32, V> {
        Map::new(|k: AccountId32| self.has_entry(k), |k: AccountId32| self.entries@[self.entry_index(k)].1)
    }
}

impl<V> KeyMap<V> {
    /// The entry under `k` is at index `i`.
    proof fn lemma_at(self, k: AccountId32, i: int)
        requires
            0 <= i < self.entries@.len(),
            self.entries@[i].0 == k,
            forall|a: int, b: int|
                0 <= a < b < self.entries@.len() ==> #[trigger] self.entries@[a].0 != #[trigger] self.entries@[b].0,
        ensures
            self@.contains_key(k),
            self@[k] == self.entries@[i].1,
    {
        assert(self.has_entry(k));
        let c = self.entry_index(k);
        assert(self.entries@[c].0 == k);
        if c < i {
            assert(self.entries@[c].0 != self.entries@[i].0);
        } else if i < c {
            assert(self.entries@[i].0 != self.entries@[c].0);
        }
    }

    /// An empty map.
    pub fn new() -> (r: Self)
        ensures
            r@ == Map::<AccountId32, V>::empty(),
    {
        let r = KeyMap { entries: Vec::new() };
        assert(r@ =~= Map::<AccountId32, V>::empty());
        r
    }

    /// The index of the entry under `k`, if any.
    fn index_of(&self, k: &AccountId32) -> (r: Option<usize>)
        ensures
            match r {
                Some(i) => i < self.entries@.len() && self.entries@[i as int].0 == *k,
                None => forall|i: int| 0 <= i < self.entries@.len() ==> self.entries@[i].0 != *k,
            },
    {
        let mut i: usize = 0;
        while i < self.entries.len()
            invariant
                i <= self.entries@.len(),
                forall|j: int| 0 <= j < i ==> self.entries@[j].0 != *k,
            decreases self.entries@.len() - i,
        {
            if account_id_eq(&self.entries[i].0, k) {
                return Some(i);
            }
            i = i + 1;
        }
        None
    }

    /// Whether an entry is under `k`.
    pub fn contains_key(&self, k: &AccountId32) -> (r: bool)
        ensures
            r == self@.contains_key(*k),
    {
        match self.index_of(k) {
            Some(i) => {
                proof {
                    use_type_invariant(self);
                    self.lemma_at(*k, i as int);
                }
                true
            },
            None => false,
        }
    }

    /// The value under `k`, if any.
    pub fn get(&self, k: &AccountId32) -> (r: Option<&V>)
        ensures
            match r {
                Some(v) => self@.contains_key(*k) && *v == self@[*k],
                None => !self@.contains_key(*k),
            },
    {
        match self.index_of(k) {
            Some(i) => {
                proof {
                    use_type_invariant(self);
                    self.lemma_at(*k, i as int);
                }
                Some(&self.entries[i].1)
            },
            None => None,
        }
    }

    /// Puts `v` under `k`, replacing what was there.
    pub fn insert(&mut self, k: AccountId32, v: V)
        ensures
            final(self)@ == old(self)@.insert(k, v),
    {
        proof {
            use_type_invariant(&*self);
        }
        let ghost old_entries = self.entries@;
        match self.index_of(&k) {
            Some(i) => {
                let mut entries: Vec<(AccountId32, V)> = Vec::new();
                std::mem::swap(&mut entries, &mut self.entries);
                entries.set(i, (k, v));
                self.entries = entries;
                proof {
                    assert forall|a: AccountId32| #[trigger] self@.contains_key(a) == old(self)@.insert(k, v).contains_key(a) by {
                        if a == k {
                            assert(self.entries@[i as int].0 == k);
                        } else {
                            if old(self)@.contains_key(a) {
                                let c = old(self).entry_index(a);
                                assert(self.entries@[c].0 == a);
                            }
                            if self@.contains_key(a) {
                                let c = self.entry_index(a);
                                assert(old_entries[c].0 == a);
                            }
                        }
                    }
                    assert forall|a: AccountId32| #[trigger] self@.contains_key(a) implies self@[a] == old(self)@.insert(k, v)[a] by {
                        if a == k {
                            self.lemma_at(k, i as int);
                        } else {
                            let c = old(self).entry_index(a);
                            old(self).lemma_at(a, c);
                            self.lemma_at(a, c);
                        }
                    }
                    assert(self@ =~= old(self)@.insert(k, v));
                }
            },
            None => {
                let mut entries: Vec<(AccountId32, V)> = Vec::new();
                std::mem::swap(&mut entries, &mut self.entries);
                entries.push((k, v));
                self.entries = entries;
                proof {
                    assert forall|a: AccountId32| #[trigger] self@.contains_key(a) == old(self)@.insert(k, v).contains_key(a) by {
                        if a == k {
                            assert(self.entries@[old_entries.len() as int].0 == k);
                        } else if old(self)@.contains_key(a) {
                            let c = old(self).entry_index(a);
                            assert(self.entries@[c].0 == a);
                        }
                    }
                    assert forall|a: AccountId32| #[trigger] self@.contains_key(a) implies self@[a] == old(self)@.insert(k, v)[a] by {
                        if a == k {
                            self.lemma_at(k, old_entries.len() as int);
                        } else {
                            let c = old(self).entry_index(a);
                            old(self).lemma_at(a, c);
                            self.lemma_at(a, c);
                        }
                    }
                    assert(self@ =~= old(self)@.insert(k, v));
                }
            },
        }
    }

    /// The keys of the map, each once.
    pub fn keys(&self) -> (r: Vec<AccountId32>)
        ensures
            r@.to_set() == self@.dom(),
            r@.no_duplicates(),
    {
        proof {
            use_type_invariant(self);
        }
        let mut out: Vec<AccountId32> = Vec::new();
        let mut i: usize = 0;
        while i < self.entries.len()
            invariant
                i <= self.entries@.len(),
                out@.len() == i,
                forall|j: int| 0 <= j < i ==> #[trigger] out@[j] == self.entries@[j].0,
                forall|a: int, b: int|
                    0 <= a < b < self.entries@.len() ==> #[trigger] self.entries@[a].0 != #[trigger] self.entries@[b].0,
            decreases self.entries@.len() - i,
        {
            out.push(self.entries[i].0);
            i = i + 1;
        }
        proof {
            assert forall|k: AccountId32| #[trigger] out@.to_set().contains(k) <==> self@.dom().contains(k) by {
                if out@.contains(k) {
                    let j = choose|j: int| 0 <= j < out@.len() && out@[j] == k;
                    assert(self.entries@[j].0 == k);
                    assert(self.has_entry(k));
                }
                if self@.dom().contains(k) {
                    let j = self.entry_index(k);
                    assert(out@[j] == k);
                }
            }
            assert(out@.to_set() =~= self@.dom());
        }
        out
    }

    /// Takes the value under `k` out of the map, if any.
    pub fn remove(&mut self, k: &AccountId32) -> (r: Option<V>)
        ensures
            final(self)@ == old(self)@.remove(*k),
            match r {
                Some(v) => old(self)@.contains_key(*k) && v == old(self)@[*k],
                None => !old(self)@.contains_key(*k),
            },
    {
        proof {
            use_type_invariant(&*self);
        }
        match self.index_of(k) {
            Some(i) => {
                proof {
                    self.lemma_at(*k, i as int);
                }
                let mut entries: Vec<(AccountId32, V)> = Vec::new();
                std::mem::swap(&mut entries, &mut self.entries);
                let e = entries.remove(i);
                self.entries = entries;
                proof {
                    let o = old(self).entries@;
                    assert forall|a: AccountId32| #[trigger] self@.contains_key(a) == old(self)@.remove(*k).contains_key(a) by {
                        if self@.contains_key(a) {
                            let c = self.entry_index(a);
                            if c < i {
                                assert(o[c].0 == a);
                            } else {
                                assert(o[c + 1].0 == a);
                            }
                        }
                        if a != *k && old(self)@.contains_key(a) {
                            let c = old(self).entry_index(a);
                            if c < i {
                                assert(self.entries@[c].0 == a);
                            } else if c > i {
                                assert(self.entries@[c - 1].0 == a);
                            }
                        }
                    }
                    assert forall|a: AccountId32| #[trigger] self@.contains_key(a) implies self@[a] == old(self)@.remove(*k)[a] by {
                        let c = old(self).entry_index(a);
                        old(self).lemma_at(a, c);
                        if c < i {
                            self.lemma_at(a, c);
                        } else {
                            self.lemma_at(a, c - 1);
                        }
                    }
                    assert(self@ =~= old(self)@.remove(*k));
                }
                Some(e.1)
            },
            None => {
                proof {
                    assert(self@ =~= old(self)@.remove(*k));
                }
                None
            },
        }
    }
}

} // verus!

verus! {

/// Prefix of every account id made from an account name: the bytes of
/// `VTC`.
pub const PREFIX_VTC: [u8; 3] = [86, 84, 67];

/// Coin families an address may belong to.
#[derive(Clone, Copy, Debug, PartialEq, Eq, Structural)]
pub enum CoinType {
    BTC,
    ETH,
    DOT,
    VTC,
}

/// An address of one of the coin families.
#[derive(Clone, Copy, Debug)]
pub enum AddressType {
    BTC([u8; 35]),
    ETH([u8; 20]),
    DOT([u8; 32]),
    VTC([u8; 32]),
}

/// A named account with its address and parent account.
#[derive(Clone, Copy, Debug)]
pub struct Account {
    pub coin_type: CoinType,
    pub address: AddressType,
    pub raw_name: [u8; 32],
    pub account_id: AccountId32,
    pub parent_account: AccountId32,
}

/// An account given by its name.
#[derive(Debug)]
pub struct VerticAccount {
    /// The account name's bytes.
    pub name: Vec<u8>,
}

/// Kinds of permission group: the owner, the active one, or a custom one
/// with a five-byte name.
#[derive(Clone, Copy, Debug)]
pub enum PermType {
    Owner,
    Active,
    Others([u8; 5]),
}

/// Whether a permission allows or forbids.
#[derive(Clone, Copy, Debug, PartialEq, Eq, Structural)]
pub enum Effect {
    Positive,
    Negative,
}

/// The module a permission speaks of: all of them, the account's own, or a
/// named one.
#[derive(Clone, Copy, Debug)]
pub enum PermModule {
    ALL,
    SELF,
    Module([u8; 5]),
}

/// Who may authorise: an account or a key, by five-byte name.
#[derive(Clone, Copy, Debug)]
pub enum AccountOrKey {
    Account([u8; 5]),
    Key([u8; 5]),
}

/// One permission: its effect on a module, and the method when one is
/// named.
#[derive(Clone, Copy, Debug)]
pub struct OnePermissionData {
    pub effect: Effect,
    pub module: PermModule,
    pub method: Option<[u8; 5]>,
}

/// One authoriser with its weight.
#[derive(Clone, Copy, Debug)]
pub struct OneAuthData {
    pub account_key: AccountOrKey,
    pub weight: u32,
}

/// A permission group: its kind, its parent, the permissions it grants,
/// the weight its authorisers must reach, and the authorisers.
#[derive(Debug)]
pub struct PermissionAndOwnerData {
    pub perm_type: PermType,
    pub parent_perm_type: Option<PermType>,
    pub permissions: Vec<OnePermissionData>,
    pub threshold: u32,
    pub auths: Vec<OneAuthData>,
}

/// A permission group as a value.
pub struct PermissionView {
    pub perm_type: PermType,
    pub parent_perm_type: Option<PermType>,
    pub permissions: Seq<OnePermissionData>,
    pub threshold: u32,
    pub auths: Seq<OneAuthData>,
}

impl View for PermissionAndOwnerData {
    type V = PermissionView;

    open spec fn view(&self) -> PermissionView {
        PermissionView {
            perm_type: self.perm_type,
            parent_perm_type: self.parent_perm_type,
            permissions: self.permissions@,
            threshold: self.threshold,
            auths: self.auths@,
        }
    }
}

/// Whether two permission kinds are equal.
pub fn perm_type_eq(a: &PermType, b: &PermType) -> (r: bool)
    ensures
        r == (*a == *b),
{
    match (a, b) {
        (PermType::Owner, PermType::Owner) => true,
        (PermType::Active, PermType::Active) => true,
        (PermType::Others(x), PermType::Others(y)) => name_eq(x, y),
        _ => false,
    }
}

/// Whether two permission modules are equal.
pub fn perm_module_eq(a: &PermModule, b: &PermModule) -> (r: bool)
    ensures
        r == (*a == *b),
{
    match (a, b) {
        (PermModule::ALL, PermModule::ALL) => true,
        (PermModule::SELF, PermModule::SELF) => true,
        (PermModule::Module(x), PermModule::Module(y)) => name_eq(x, y),
        _ => false,
    }
}

/// Whether two authorisers are equal.
pub fn account_or_key_eq(a: &AccountOrKey, b: &AccountOrKey) -> (r: bool)
    ensures
        r == (*a == *b),
{
    match (a, b) {
        (AccountOrKey::Account(x), AccountOrKey::Account(y)) => name_eq(x, y),
        (AccountOrKey::Key(x), AccountOrKey::Key(y)) => name_eq(x, y),
        _ => false,
    }
}

/// `s` with `x` appended, unless it already holds `max` items.
pub open spec fn bounded_push<T>(s: Seq<T>, x: T, max: nat) -> Seq<T> {
    if s.len() < max {
        s.push(x)
    } else {
        s
    }
}

/// `acc` followed by the items of `items` that `keep` accepts, in order,
/// each appended only while fewer than `max` are held.
pub open spec fn push_kept<T>(acc: Seq<T>, items: Seq<T>, keep: spec_fn(T) -> bool, max: nat) -> Seq<T>
    decreases items.len(),
{
    if items.len() == 0 {
        acc
    } else {
        let prev = push_kept(acc, items.drop_last(), keep, max);
        if keep(items.last()) {
            bounded_push(prev, items.last(), max)
        } else {
            prev
        }
    }
}

/// `acc` with `item` appended once for each key of `keys` it does not
/// match, each time only while fewer than `max` are held.
pub open spec fn push_per_key<T, K>(acc: Seq<T>, item: T, keys: Seq<K>, matches: spec_fn(T, K) -> bool, max: nat) -> Seq<T>
    decreases keys.len(),
{
    if keys.len() == 0 {
        acc
    } else {
        let prev = push_per_key(acc, item, keys.drop_last(), matches, max);
        if !matches(item, keys.last()) {
            bounded_push(prev, item, max)
        } else {
            prev
        }
    }
}

/// `push_per_key` applied to each item of `items` in turn, from `acc`.
pub open spec fn push_unmatched<T, K>(acc: Seq<T>, items: Seq<T>, keys: Seq<K>, matches: spec_fn(T, K) -> bool, max: nat) -> Seq<T>
    decreases items.len(),
{
    if items.len() == 0 {
        acc
    } else {
        push_per_key(push_unmatched(acc, items.drop_last(), keys, matches, max), items.last(), keys, matches, max)
    }
}

/// Whether some item matches some key.
pub open spec fn any_match<T, K>(items: Seq<T>, keys: Seq<K>, matches: spec_fn(T, K) -> bool) -> bool {
    exists|i: int, j: int| 0 <= i < items.len() && 0 <= j < keys.len() && #[trigger] matches(items[i], keys[j])
}

/// A permission is about the module `m`.
pub open spec fn perm_on_module(p: OnePermissionData, m: PermModule) -> bool {
    p.module == m
}

/// An authoriser is `k`.
pub open spec fn auth_is(a: OneAuthData, k: AccountOrKey) -> bool {
    a.account_key == k
}

/// The index of the first group of kind `name` in `list`, or -1.
pub open spec fn first_group(list: Seq<(PermType, PermissionView)>, name: PermType) -> int
    decreases list.len(),
{
    if list.len() == 0 {
        -1
    } else {
        let r = first_group(list.drop_last(), name);
        if r >= 0 {
            r
        } else if list.last().0 == name {
            list.len() - 1
        } else {
            -1
        }
    }
}

/// The permission groups of an account as values.
pub open spec fn groups_view(list: Seq<(PermType, PermissionAndOwnerData)>) -> Seq<(PermType, PermissionView)> {
    list.map_values(|e: (PermType, PermissionAndOwnerData)| (e.0, e.1@))
}

} // verus!

verus! {

/// The 32-byte BLAKE2b digest (no key) of `data`, as computed by
/// `blake2-rfc`.
pub uninterp spec fn blake2b_256(data: Seq<u8>) -> Seq<u8>;

/// `blake2_rfc::blake2b::blake2b(32, &[], data)`: the unkeyed BLAKE2b digest
/// of `data` with a 32-byte output, which is what `blake2_256` hashing is.
#[verifier::external_body]
pub(crate) fn blake2_256(data: &[u8]) -> (r: [u8; 32])
    ensures
        r@ == blake2b_256(data@),
{
    let mut r = [0u8; 32];
    r.copy_from_slice(blake2_rfc::blake2b::blake2b(32, &[], data).as_bytes());
    r
}

/// The bytes of the `VTC` prefix.
pub open spec fn vtc_prefix() -> Seq<u8> {
    seq![86u8, 84u8, 67u8]
}

/// The account id made from a 32-byte hash: the `VTC` prefix, then the
/// hash without its first three bytes.
pub open spec fn account_id_of_hash(hash: Seq<u8>) -> Seq<u8> {
    vtc_prefix() + hash.subrange(3, 32)
}

/// The account id made from a 32-byte hash, as `account_id_of_hash` says.
pub fn account_id_from_hash(hash: &[u8; 32]) -> (r: AccountId32)
    ensures
        r@ == account_id_of_hash(hash@),
{
    let mut out = [0u8; 32];
    out[0] = PREFIX_VTC[0];
    out[1] = PREFIX_VTC[1];
    out[2] = PREFIX_VTC[2];
    let mut i: usize = 3;
    while i < 32
        invariant
            3 <= i <= 32,
            out@.len() == 32,
            out@[0] == 86u8,
            out@[1] == 84u8,
            out@[2] == 67u8,
            forall|j: int| 3 <= j < i ==> out@[j] == hash@[j],
        decreases 32 - i,
    {
        out[i] = hash[i];
        i = i + 1;
    }
    assert(out@ =~= account_id_of_hash(hash@));
    out
}

impl VerticAccount {
    /// The account id of an account name: the BLAKE2b-256 digest of the
    /// SCALE-encoded name, with its first three bytes replaced by `VTC`.
    pub open spec fn account_id_spec(name: Seq<u8>) -> Seq<u8> {
        account_id_of_hash(blake2b_256(crate::scale::compact_len_prefix(name.len()) + name))
    }

    /// The account id of this account name, as `account_id_spec` says.
    pub fn to_account_id(&self) -> (r: AccountId32)
        requires
            self.name@.len() <= u32::MAX,
        ensures
            r@ == VerticAccount::account_id_spec(self.name@),
    {
        let encoded = crate::scale::encode_bytes(self.name.as_slice());
        let hash = blake2_256(encoded.as_slice());
        account_id_from_hash(&hash)
    }
}

} // verus!

verus! {

/// Accepts the permissions that are not about module `m`.
pub open spec fn not_on_module(m: PermModule) -> spec_fn(OnePermissionData) -> bool {
    |p: OnePermissionData| !perm_on_module(p, m)
}

/// Accepts the authorisers other than `k`.
pub open spec fn not_auth(k: AccountOrKey) -> spec_fn(OneAuthData) -> bool {
    |a: OneAuthData| !auth_is(a, k)
}

/// A permission matches a module when it is about it.
pub open spec fn module_matcher() -> spec_fn(OnePermissionData, PermModule) -> bool {
    |p: OnePermissionData, m: PermModule| perm_on_module(p, m)
}

/// An authoriser matches a key when it is that key.
pub open spec fn auth_matcher() -> spec_fn(OneAuthData, AccountOrKey) -> bool {
    |a: OneAuthData, k: AccountOrKey| auth_is(a, k)
}

/// Appends `x` to `v` unless it already holds `max` items.
fn push_bounded<T>(v: &mut Vec<T>, x: T, max: u32)
    ensures
        final(v)@ == bounded_push(old(v)@, x, max as nat),
{
    if v.len() < max as usize {
        v.push(x);
    }
}

/// `acc` followed by the permissions of `items` not about `module`.
fn keep_other_modules(acc: Vec<OnePermissionData>, items: &Vec<OnePermissionData>, module: &PermModule, max: u32) -> (r: Vec<OnePermissionData>)
    ensures
        r@ == push_kept(acc@, items@, not_on_module(*module), max as nat),
{
    let mut out = acc;
    let mut i: usize = 0;
    assert(items@.subrange(0, 0) =~= Seq::<OnePermissionData>::empty());
    while i < items.len()
        invariant
            i <= items@.len(),
            out@ == push_kept(acc@, items@.subrange(0, i as int), not_on_module(*module), max as nat),
        decreases items@.len() - i,
    {
        assert(items@.subrange(0, i as int + 1).drop_last() =~= items@.subrange(0, i as int));
        let p = items[i];
        if !perm_module_eq(&p.module, module) {
            push_bounded(&mut out, p, max);
        }
        i = i + 1;
    }
    assert(items@.subrange(0, items@.len() as int) =~= items@);
    out
}

/// `acc` followed by the authorisers of `items` other than `key`.
fn keep_other_auths(acc: Vec<OneAuthData>, items: &Vec<OneAuthData>, key: &AccountOrKey, max: u32) -> (r: Vec<OneAuthData>)
    ensures
        r@ == push_kept(acc@, items@, not_auth(*key), max as nat),
{
    let mut out = acc;
    let mut i: usize = 0;
    assert(items@.subrange(0, 0) =~= Seq::<OneAuthData>::empty());
    while i < items.len()
        invariant
            i <= items@.len(),
            out@ == push_kept(acc@, items@.subrange(0, i as int), not_auth(*key), max as nat),
        decreases items@.len() - i,
    {
        assert(items@.subrange(0, i as int + 1).drop_last() =~= items@.subrange(0, i as int));
        let a = items[i];
        if !account_or_key_eq(&a.account_key, key) {
            push_bounded(&mut out, a, max);
        }
        i = i + 1;
    }
    assert(items@.subrange(0, items@.len() as int) =~= items@);
    out
}

/// For each permission of `items` and each module of `modules`, the
/// permission is kept when it is not about the module; also tells whether
/// some permission was about some module.
fn drop_modules(items: &Vec<OnePermissionData>, modules: &Vec<PermModule>, max: u32) -> (r: (Vec<OnePermissionData>, bool))
    ensures
        r.0@ == push_unmatched(Seq::empty(), items@, modules@, module_matcher(), max as nat),
        r.1 == any_match(items@, modules@, module_matcher()),
{
    let mut out: Vec<OnePermissionData> = Vec::new();
    let mut exist = false;
    let mut i: usize = 0;
    assert(items@.subrange(0, 0) =~= Seq::<OnePermissionData>::empty());
    while i < items.len()
        invariant
            i <= items@.len(),
            out@ == push_unmatched(Seq::empty(), items@.subrange(0, i as int), modules@, module_matcher(), max as nat),
            exist == any_match(items@.subrange(0, i as int), modules@, module_matcher()),
        decreases items@.len() - i,
    {
        let p = items[i];
        let ghost before = out@;
        let ghost exist_before = exist;
        let mut j: usize = 0;
        assert(modules@.subrange(0, 0) =~= Seq::<PermModule>::empty());
        while j < modules.len()
            invariant
                i < items@.len(),
                p == items@[i as int],
                j <= modules@.len(),
                out@ == push_per_key(before, p, modules@.subrange(0, j as int), module_matcher(), max as nat),
                exist == (exist_before || exists|k: int| 0 <= k < j && perm_on_module(p, #[trigger] modules@[k])),
            decreases modules@.len() - j,
        {
            assert(modules@.subrange(0, j as int + 1).drop_last() =~= modules@.subrange(0, j as int));
            if !perm_module_eq(&p.module, &modules[j]) {
                push_bounded(&mut out, p, max);
            } else {
                exist = true;
            }
            j = j + 1;
        }
        assert(modules@.subrange(0, modules@.len() as int) =~= modules@);
        let ghost pre = items@.subrange(0, i as int);
        let ghost post = items@.subrange(0, i as int + 1);
        assert(post.drop_last() =~= pre);
        assert(post.last() == p);
        assert(exist == any_match(post, modules@, module_matcher())) by {
            if exist {
                if exist_before {
                    let (a, b) = choose|a: int, b: int| 0 <= a < pre.len() && 0 <= b < modules@.len()
                        && #[trigger] module_matcher()(pre[a], modules@[b]);
                    assert(post[a] == pre[a]);
                    assert(module_matcher()(post[a], modules@[b]));
                } else {
                    let k = choose|k: int| 0 <= k < modules@.len() && perm_on_module(p, #[trigger] modules@[k]);
                    assert(post[i as int] == p);
                    assert(module_matcher()(post[i as int], modules@[k]));
                }
            } else {
                assert forall|a: int, b: int| 0 <= a < post.len() && 0 <= b < modules@.len()
                    implies !#[trigger] module_matcher()(post[a], modules@[b]) by {
                    if a < i {
                        assert(post[a] == pre[a]);
                    }
                }
            }
        }
        i = i + 1;
    }
    assert(items@.subrange(0, items@.len() as int) =~= items@);
    (out, exist)
}

/// For each authoriser of `items` and each key of `keys`, the authoriser is
/// kept when it is not the key; also tells whether some authoriser was
/// one of the keys.
fn drop_auths(items: &Vec<OneAuthData>, keys: &Vec<AccountOrKey>, max: u32) -> (r: (Vec<OneAuthData>, bool))
    ensures
        r.0@ == push_unmatched(Seq::empty(), items@, keys@, auth_matcher(), max as nat),
        r.1 == any_match(items@, keys@, auth_matcher()),
{
    let mut out: Vec<OneAuthData> = Vec::new();
    let mut exist = false;
    let mut i: usize = 0;
    assert(items@.subrange(0, 0) =~= Seq::<OneAuthData>::empty());
    while i < items.len()
        invariant
            i <= items@.len(),
            out@ == push_unmatched(Seq::empty(), items@.subrange(0, i as int), keys@, auth_matcher(), max as nat),
            exist == any_match(items@.subrange(0, i as int), keys@, auth_matcher()),
        decreases items@.len() - i,
    {
        let a = items[i];
        let ghost before = out@;
        let ghost exist_before = exist;
        let mut j: usize = 0;
        assert(keys@.subrange(0, 0) =~= Seq::<AccountOrKey>::empty());
        while j < keys.len()
            invariant
                i < items@.len(),
                a == items@[i as int],
                j <= keys@.len(),
                out@ == push_per_key(before, a, keys@.subrange(0, j as int), auth_matcher(), max as nat),
                exist == (exist_before || exists|k: int| 0 <= k < j && auth_is(a, #[trigger] keys@[k])),
            decreases keys@.len() - j,
        {
            assert(keys@.subrange(0, j as int + 1).drop_last() =~= keys@.subrange(0, j as int));
            if !account_or_key_eq(&a.account_key, &keys[j]) {
                push_bounded(&mut out, a, max);
            } else {
                exist = true;
            }
            j = j + 1;
        }
        assert(keys@.subrange(0, keys@.len() as int) =~= keys@);
        let ghost pre = items@.subrange(0, i as int);
        let ghost post = items@.subrange(0, i as int + 1);
        assert(post.drop_last() =~= pre);
        assert(post.last() == a);
        assert(exist == any_match(post, keys@, auth_matcher())) by {
            if exist {
                if exist_before {
                    let (x, y) = choose|x: int, y: int| 0 <= x < pre.len() && 0 <= y < keys@.len()
                        && #[trigger] auth_matcher()(pre[x], keys@[y]);
                    assert(post[x] == pre[x]);
                    assert(auth_matcher()(post[x], keys@[y]));
                } else {
                    let k = choose|k: int| 0 <= k < keys@.len() && auth_is(a, #[trigger] keys@[k]);
                    assert(post[i as int] == a);
                    assert(auth_matcher()(post[i as int], keys@[k]));
                }
            } else {
                assert forall|x: int, y: int| 0 <= x < post.len() && 0 <= y < keys@.len()
                    implies !#[trigger] auth_matcher()(post[x], keys@[y]) by {
                    if x < i {
                        assert(post[x] == pre[x]);
                    }
                }
            }
        }
        i = i + 1;
    }
    assert(items@.subrange(0, items@.len() as int) =~= items@);
    (out, exist)
}

} // verus!

verus! {

/// What `first_group` finds: the index of a group of kind `name` with none
/// before it, or -1 when there is none.
pub proof fn lemma_first_group(list: Seq<(PermType, PermissionView)>, name: PermType)
    ensures
        first_group(list, name) == -1 <==> forall|i: int| 0 <= i < list.len() ==> list[i].0 != name,
        first_group(list, name) >= 0 ==> {
            &&& first_group(list, name) < list.len()
            &&& list[first_group(list, name)].0 == name
            &&& forall|j: int| 0 <= j < first_group(list, name) ==> list[j].0 != name
        },
        first_group(list, name) >= -1,
    decreases list.len(),
{
    if list.len() > 0 {
        lemma_first_group(list.drop_last(), name);
        let r = first_group(list.drop_last(), name);
        assert forall|i: int| 0 <= i < list.len() - 1 implies list[i] == list.drop_last()[i] by {}
    }
}

/// A group found in a prefix of the list is the one found in the list.
proof fn lemma_first_group_prefix(list: Seq<(PermType, PermissionView)>, name: PermType, n: int)
    requires
        0 <= n <= list.len(),
        first_group(list.subrange(0, n), name) >= 0,
    ensures
        first_group(list, name) == first_group(list.subrange(0, n), name),
    decreases list.len() - n,
{
    if n < list.len() {
        assert(list.subrange(0, n + 1).drop_last() =~= list.subrange(0, n));
        lemma_first_group_prefix(list, name, n + 1);
    } else {
        assert(list.subrange(0, n) =~= list);
    }
}

/// The index of the first group of kind `name`, as `first_group` says.
fn find_group(list: &Vec<(PermType, PermissionAndOwnerData)>, name: &PermType) -> (r: Option<usize>)
    ensures
        match r {
            Some(i) => i < list@.len() && i as int == first_group(groups_view(list@), *name),
            None => first_group(groups_view(list@), *name) == -1,
        },
{
    let ghost g = groups_view(list@);
    let mut i: usize = 0;
    assert(g.subrange(0, 0) =~= Seq::<(PermType, PermissionView)>::empty());
    while i < list.len()
        invariant
            i <= list@.len(),
            g == groups_view(list@),
            first_group(g.subrange(0, i as int), *name) == -1,
        decreases list@.len() - i,
    {
        assert(g.subrange(0, i as int + 1).drop_last() =~= g.subrange(0, i as int));
        assert(g[i as int].0 == list@[i as int].0);
        if perm_type_eq(&list[i].0, name) {
            proof {
                lemma_first_group_prefix(g, *name, i as int + 1);
            }
            return Some(i);
        }
        i = i + 1;
    }
    assert(g.subrange(0, list@.len() as int) =~= g);
    None
}

/// The storage of the accounts pallet, with its limits.
pub struct AccountsState {
    permission_map: KeyMap<Vec<(PermType, PermissionAndOwnerData)>>,
    owner_map: KeyMap<AccountId32>,
    active_map: KeyMap<AccountId32>,
    max_permission: u32,
    max_others: u32,
    max_auth: u32,
}

/// What the accounts pallet stores.
pub struct AccountsView {
    /// The permission groups of each account that has any.
    pub permissions: Map<AccountId32, Seq<(PermType, PermissionView)>>,
    /// The account each owner key belongs to.
    pub owners: Map<AccountId32, AccountId32>,
    /// The account each active key belongs to.
    pub actives: Map<AccountId32, AccountId32>,
    /// The most permissions a group holds.
    pub max_permission: u32,
    /// The most groups an account holds.
    pub max_others: u32,
    /// The most authorisers a group holds.
    pub max_auth: u32,
}

impl View for AccountsState {
    type V = AccountsView;

    closed spec fn view(&self) -> AccountsView {
        AccountsView {
            permissions: self.permission_map@.map_values(
                |v: Vec<(PermType, PermissionAndOwnerData)>| groups_view(v@),
            ),
            owners: self.owner_map@,
            actives: self.active_map@,
            max_permission: self.max_permission,
            max_others: self.max_others,
            max_auth: self.max_auth,
        }
    }
}

impl AccountsView {
    /// Registering the keys of a new account: the owner key, and the
    /// active key when given, both point at the account (in the owner map).
    pub open spec fn create_account(self, account_id: AccountId32, pub_key_account: AccountId32, active_pub_key_account: Option<AccountId32>) -> AccountsView {
        let owners = self.owners.insert(pub_key_account, account_id);
        AccountsView {
            owners: match active_pub_key_account {
                Some(active) => owners.insert(active, account_id),
                None => owners,
            },
            ..self
        }
    }

    /// Creating a permission group for an account: refused for an unsigned
    /// origin or too many permissions or authorisers; nothing happens when
    /// the account already has a group of that kind; the group is appended
    /// while the account has room for it.
    pub open spec fn create_permission_auth(
        self,
        origin: RawOrigin,
        account_id: AccountId32,
        perm_name: PermType,
        parent_perm_name: Option<PermType>,
        perms: Seq<OnePermissionData>,
        auths: Seq<OneAuthData>,
        threshold: u32,
    ) -> (AccountsView, Result<(), DispatchError>) {
        let data = PermissionView { perm_type: perm_name, parent_perm_type: parent_perm_name, permissions: perms, threshold, auths };
        if !(origin is Signed) {
            (self, Err(DispatchError::BadOrigin))
        } else if perms.len() > self.max_permission || auths.len() > self.max_auth {
            (self, Err(DispatchError::CannotLookup))
        } else if self.permissions.contains_key(account_id) {
            let groups = self.permissions[account_id];
            if first_group(groups, perm_name) >= 0 {
                (self, Ok(()))
            } else {
                (
                    AccountsView {
                        permissions: self.permissions.insert(account_id, bounded_push(groups, (perm_name, data), self.max_others as nat)),
                        ..self
                    },
                    Ok(()),
                )
            }
        } else if self.max_others < 1 {
            (self, Err(DispatchError::CannotLookup))
        } else {
            (AccountsView { permissions: self.permissions.insert(account_id, seq![(perm_name, data)]), ..self }, Ok(()))
        }
    }

    /// Replacing all groups of an account by the one group `data`: the
    /// groups are removed first, then the new list is refused when an
    /// account may hold no group.
    pub open spec fn replace_groups(self, account_id: AccountId32, perm_name: PermType, data: PermissionView) -> (AccountsView, Result<(), DispatchError>) {
        if self.max_others < 1 {
            (AccountsView { permissions: self.permissions.remove(account_id), ..self }, Err(DispatchError::CannotLookup))
        } else {
            (AccountsView { permissions: self.permissions.insert(account_id, seq![(perm_name, data)]), ..self }, Ok(()))
        }
    }

    /// Adding or updating a permission of the first group of kind
    /// `perm_name`: the new permission comes first, then the group's
    /// permissions on other modules; the account is left with that group
    /// alone. Nothing happens when there is no such group.
    pub open spec fn add_or_update_permission(
        self,
        origin: RawOrigin,
        account_id: AccountId32,
        perm_name: PermType,
        perm_module: PermModule,
        perm_effect: Effect,
        perm_method: Option<[u8; 5]>,
    ) -> (AccountsView, Result<(), DispatchError>) {
        if !(origin is Signed) {
            (self, Err(DispatchError::BadOrigin))
        } else if !self.permissions.contains_key(account_id) {
            (self, Err(DispatchError::CannotLookup))
        } else {
            let groups = self.permissions[account_id];
            let idx = first_group(groups, perm_name);
            if idx < 0 {
                (self, Ok(()))
            } else {
                let g = groups[idx].1;
                let max = self.max_permission as nat;
                let current = OnePermissionData { effect: perm_effect, module: perm_module, method: perm_method };
                let permissions = push_kept(bounded_push(Seq::empty(), current, max), g.permissions, not_on_module(perm_module), max);
                self.replace_groups(account_id, perm_name, PermissionView { perm_type: perm_name, permissions, ..g })
            }
        }
    }

    /// Adding or updating an authoriser of the first group of kind
    /// `perm_name`, with a new threshold: the new authoriser comes first,
    /// then the group's other authorisers; the account is left with that
    /// group alone. Nothing happens when there is no such group.
    pub open spec fn add_or_update_auth(
        self,
        origin: RawOrigin,
        account_id: AccountId32,
        perm_name: PermType,
        account_key: AccountOrKey,
        weight: u32,
        threshold: u32,
    ) -> (AccountsView, Result<(), DispatchError>) {
        if !(origin is Signed) {
            (self, Err(DispatchError::BadOrigin))
        } else if !self.permissions.contains_key(account_id) {
            (self, Err(DispatchError::CannotLookup))
        } else {
            let groups = self.permissions[account_id];
            let idx = first_group(groups, perm_name);
            if idx < 0 {
                (self, Ok(()))
            } else {
                let g = groups[idx].1;
                let max = self.max_auth as nat;
                let current = OneAuthData { account_key, weight };
                let auths = push_kept(bounded_push(Seq::empty(), current, max), g.auths, not_auth(account_key), max);
                self.replace_groups(account_id, perm_name, PermissionView { perm_type: perm_name, threshold, auths, ..g })
            }
        }
    }

    /// Deleting the permissions of the first group of kind `perm_name` on
    /// the given modules: each permission is kept once for every listed
    /// module it is not about; the account is left with that group alone.
    /// Nothing happens when there is no such group or no permission is on a
    /// listed module.
    pub open spec fn delete_permission(
        self,
        origin: RawOrigin,
        account_id: AccountId32,
        perm_name: PermType,
        perm_modules: Seq<PermModule>,
    ) -> (AccountsView, Result<(), DispatchError>) {
        if !(origin is Signed) {
            (self, Err(DispatchError::BadOrigin))
        } else if !self.permissions.contains_key(account_id) {
            (self, Err(DispatchError::CannotLookup))
        } else {
            let groups = self.permissions[account_id];
            let idx = first_group(groups, perm_name);
            if idx < 0 {
                (self, Ok(()))
            } else {
                let g = groups[idx].1;
                if !any_match(g.permissions, perm_modules, module_matcher()) {
                    (self, Ok(()))
                } else {
                    let permissions = push_unmatched(Seq::empty(), g.permissions, perm_modules, module_matcher(), self.max_permission as nat);
                    self.replace_groups(account_id, perm_name, PermissionView { perm_type: perm_name, permissions, ..g })
                }
            }
        }
    }

    /// Deleting the given authorisers from the first group of kind
    /// `perm_name`: each authoriser is kept once for every listed key it is
    /// not; the account is left with that group alone. Nothing happens when
    /// there is no such group or no authoriser is listed.
    pub open spec fn delete_auth(
        self,
        origin: RawOrigin,
        account_id: AccountId32,
        perm_name: PermType,
        account_keys: Seq<AccountOrKey>,
    ) -> (AccountsView, Result<(), DispatchError>) {
        if !(origin is Signed) {
            (self, Err(DispatchError::BadOrigin))
        } else if !self.permissions.contains_key(account_id) {
            (self, Err(DispatchError::CannotLookup))
        } else {
            let groups = self.permissions[account_id];
            let idx = first_group(groups, perm_name);
            if idx < 0 {
                (self, Ok(()))
            } else {
                let g = groups[idx].1;
                if !any_match(g.auths, account_keys, auth_matcher()) {
                    (self, Ok(()))
                } else {
                    let auths = push_unmatched(Seq::empty(), g.auths, account_keys, auth_matcher(), self.max_auth as nat);
                    self.replace_groups(account_id, perm_name, PermissionView { perm_type: perm_name, auths, ..g })
                }
            }
        }
    }
}

} // verus!

verus! {

impl AccountsState {
    /// Empty storage with the given limits.
    pub fn new(max_permission: u32, max_others: u32, max_auth: u32) -> (r: Self)
        ensures
            r@.permissions == Map::<AccountId32, Seq<(PermType, PermissionView)>>::empty(),
            r@.owners == Map::<AccountId32, AccountId32>::empty(),
            r@.actives == Map::<AccountId32, AccountId32>::empty(),
            r@.max_permission == max_permission,
            r@.max_others == max_others,
            r@.max_auth == max_auth,
    {
        let r = AccountsState {
            permission_map: KeyMap::new(),
            owner_map: KeyMap::new(),
            active_map: KeyMap::new(),
            max_permission,
            max_others,
            max_auth,
        };
        assert(r@.permissions =~= Map::<AccountId32, Seq<(PermType, PermissionView)>>::empty());
        r
    }

    /// The permission groups of `account_id`, if it has any.
    pub fn permissions(&self, account_id: &AccountId32) -> (r: Option<&Vec<(PermType, PermissionAndOwnerData)>>)
        ensures
            match r {
                Some(groups) => self@.permissions.contains_key(*account_id)
                    && groups_view(groups@) == self@.permissions[*account_id],
                None => !self@.permissions.contains_key(*account_id),
            },
    {
        self.permission_map.get(account_id)
    }

    /// The account the owner key `key` belongs to, if any.
    pub fn owner_of(&self, key: &AccountId32) -> (r: Option<AccountId32>)
        ensures
            match r {
                Some(a) => self@.owners.contains_key(*key) && a == self@.owners[*key],
                None => !self@.owners.contains_key(*key),
            },
    {
        match self.owner_map.get(key) {
            Some(a) => Some(*a),
            None => None,
        }
    }

    /// The account the active key `key` belongs to, if any.
    pub fn active_of(&self, key: &AccountId32) -> (r: Option<AccountId32>)
        ensures
            match r {
                Some(a) => self@.actives.contains_key(*key) && a == self@.actives[*key],
                None => !self@.actives.contains_key(*key),
            },
    {
        match self.active_map.get(key) {
            Some(a) => Some(*a),
            None => None,
        }
    }

    /// Stores `groups` as the groups of `account_id`.
    fn put_groups(&mut self, account_id: AccountId32, groups: Vec<(PermType, PermissionAndOwnerData)>)
        ensures
            final(self)@ == (AccountsView { permissions: old(self)@.permissions.insert(account_id, groups_view(groups@)), ..old(self)@ }),
    {
        let ghost g = groups@;
        self.permission_map.insert(account_id, groups);
        assert(self@.permissions =~= old(self)@.permissions.insert(account_id, groups_view(g)));
    }

    /// Takes the groups of `account_id` out of the storage.
    fn take_groups(&mut self, account_id: &AccountId32) -> (r: Option<Vec<(PermType, PermissionAndOwnerData)>>)
        ensures
            final(self)@ == (AccountsView { permissions: old(self)@.permissions.remove(*account_id), ..old(self)@ }),
            match r {
                Some(groups) => old(self)@.permissions.contains_key(*account_id)
                    && groups_view(groups@) == old(self)@.permissions[*account_id],
                None => !old(self)@.permissions.contains_key(*account_id),
            },
    {
        let r = self.permission_map.remove(account_id);
        assert(self@.permissions =~= old(self)@.permissions.remove(*account_id));
        r
    }

    /// Replaces all groups of `account_id` by the single group `data`, as
    /// `replace_groups` says.
    fn replace_groups(&mut self, account_id: AccountId32, perm_name: PermType, data: PermissionAndOwnerData) -> (r: Result<(), DispatchError>)
        ensures
            (final(self)@, r) == old(self)@.replace_groups(account_id, perm_name, data@),
    {
        let _ = self.take_groups(&account_id);
        if self.max_others < 1 {
            return Err(DispatchError::CannotLookup);
        }
        let ghost d = data@;
        let groups = vec![(perm_name, data)];
        assert(groups_view(groups@) =~= seq![(perm_name, d)]);
        self.put_groups(account_id, groups);
        assert(self@.permissions =~= old(self)@.permissions.insert(account_id, seq![(perm_name, d)]));
        Ok(())
    }
}

} // verus!

verus! {

/// The accounts pallet's calls.
pub struct Pallet;

impl Pallet {
    /// Registers the owner key, and the active key when given, of an
    /// account; any origin may.
    pub fn _create_account(
        state: &mut AccountsState,
        origin: RawOrigin,
        account_id: AccountId32,
        pub_key_account: AccountId32,
        active_pub_key_account: Option<AccountId32>,
    ) -> (r: Result<(), DispatchError>)
        ensures
            r is Ok,
            final(state)@ == old(state)@.create_account(account_id, pub_key_account, active_pub_key_account),
    {
        state.owner_map.insert(pub_key_account, account_id);
        match active_pub_key_account {
            Some(active) => state.owner_map.insert(active, account_id),
            None => {},
        }
        Ok(())
    }

    /// The `create_account` call.
    pub fn create_account(
        state: &mut AccountsState,
        origin: RawOrigin,
        account_id: AccountId32,
        pub_key_account: AccountId32,
        active_pub_key_account: Option<AccountId32>,
    ) -> (r: Result<(), DispatchError>)
        ensures
            r is Ok,
            final(state)@ == old(state)@.create_account(account_id, pub_key_account, active_pub_key_account),
    {
        Pallet::_create_account(state, origin, account_id, pub_key_account, active_pub_key_account)
    }

    /// Creates a permission group for an account, as
    /// `AccountsView::create_permission_auth` says.
    pub fn _create_permission_auth(
        state: &mut AccountsState,
        origin: RawOrigin,
        account_id: AccountId32,
        perm_name: PermType,
        parent_perm_name: Option<PermType>,
        perms: Vec<OnePermissionData>,
        auths: Vec<OneAuthData>,
        threshold: u32,
    ) -> (r: Result<(), DispatchError>)
        ensures
            (final(state)@, r) == old(state)@.create_permission_auth(
                origin, account_id, perm_name, parent_perm_name, perms@, auths@, threshold),
    {
        match ensure_signed(origin) {
            Ok(_) => {},
            Err(e) => return Err(e),
        }
        if perms.len() > state.max_permission as usize {
            return Err(DispatchError::CannotLookup);
        }
        if auths.len() > state.max_auth as usize {
            return Err(DispatchError::CannotLookup);
        }
        let data = PermissionAndOwnerData {
            perm_type: perm_name,
            parent_perm_type: parent_perm_name,
            permissions: perms,
            threshold,
            auths,
        };
        let ghost d = data@;
        match state.take_groups(&account_id) {
            Some(groups) => {
                let mut groups = groups;
                proof {
                    lemma_first_group(groups_view(groups@), perm_name);
                }
                if find_group(&groups, &perm_name).is_none() {
                    push_bounded(&mut groups, (perm_name, data), state.max_others);
                    assert(groups_view(groups@) =~= bounded_push(
                        old(state)@.permissions[account_id], (perm_name, d), old(state)@.max_others as nat));
                }
                state.put_groups(account_id, groups);
                assert(state@.permissions =~= old(state)@.create_permission_auth(
                    origin, account_id, perm_name, parent_perm_name, perms@, auths@, threshold).0.permissions);
                Ok(())
            },
            None => {
                if state.max_others < 1 {
                    assert(state@.permissions =~= old(state)@.permissions);
                    return Err(DispatchError::CannotLookup);
                }
                let groups = vec![(perm_name, data)];
                assert(groups_view(groups@) =~= seq![(perm_name, d)]);
                state.put_groups(account_id, groups);
                assert(state@.permissions =~= old(state)@.permissions.insert(account_id, seq![(perm_name, d)]));
                Ok(())
            },
        }
    }

    /// The `create_permission_auth` call.
    pub fn create_permission_auth(
        state: &mut AccountsState,
        origin: RawOrigin,
        account_id: AccountId32,
        perm_name: PermType,
        parent_perm_name: Option<PermType>,
        perms: Vec<OnePermissionData>,
        auths: Vec<OneAuthData>,
        threshold: u32,
    ) -> (r: Result<(), DispatchError>)
        ensures
            (final(state)@, r) == old(state)@.create_permission_auth(
                origin, account_id, perm_name, parent_perm_name, perms@, auths@, threshold),
    {
        Pallet::_create_permission_auth(state, origin, account_id, perm_name, parent_perm_name, perms, auths, threshold)
    }

    /// Adds or updates a permission of a group, as
    /// `AccountsView::add_or_update_permission` says.
    pub fn _add_or_update_permission(
        state: &mut AccountsState,
        origin: RawOrigin,
        account_id: AccountId32,
        perm_name: PermType,
        perm_module: PermModule,
        perm_effect: Effect,
        perm_method: Option<[u8; 5]>,
    ) -> (r: Result<(), DispatchError>)
        ensures
            (final(state)@, r) == old(state)@.add_or_update_permission(
                origin, account_id, perm_name, perm_module, perm_effect, perm_method),
    {
        match ensure_signed(origin) {
            Ok(_) => {},
            Err(e) => return Err(e),
        }
        let data = {
            let groups = match state.permissions(&account_id) {
                Some(g) => g,
                None => return Err(DispatchError::CannotLookup),
            };
            let idx = match find_group(groups, &perm_name) {
                Some(i) => i,
                None => return Ok(()),
            };
            let g = &groups[idx].1;
            assert(groups_view(groups@)[idx as int].1 == g@);
            let current = OnePermissionData { effect: perm_effect, module: perm_module, method: perm_method };
            let mut first: Vec<OnePermissionData> = Vec::new();
            push_bounded(&mut first, current, state.max_permission);
            let permissions = keep_other_modules(first, &g.permissions, &perm_module, state.max_permission);
            PermissionAndOwnerData {
                perm_type: perm_name,
                parent_perm_type: g.parent_perm_type,
                permissions,
                threshold: g.threshold,
                auths: g.auths.clone(),
            }
        };
        state.replace_groups(account_id, perm_name, data)
    }

    /// The `add_or_update_permission` call.
    pub fn add_or_update_permission(
        state: &mut AccountsState,
        origin: RawOrigin,
        account_id: AccountId32,
        perm_name: PermType,
        perm_module: PermModule,
        perm_effect: Effect,
        perm_method: Option<[u8; 5]>,
    ) -> (r: Result<(), DispatchError>)
        ensures
            (final(state)@, r) == old(state)@.add_or_update_permission(
                origin, account_id, perm_name, perm_module, perm_effect, perm_method),
    {
        Pallet::_add_or_update_permission(state, origin, account_id, perm_name, perm_module, perm_effect, perm_method)
    }

    /// Adds or updates an authoriser of a group, as
    /// `AccountsView::add_or_update_auth` says.
    pub fn _add_or_update_auth(
        state: &mut AccountsState,
        origin: RawOrigin,
        account_id: AccountId32,
        perm_name: PermType,
        account_key: AccountOrKey,
        weight: u32,
        threshold: u32,
    ) -> (r: Result<(), DispatchError>)
        ensures
            (final(state)@, r) == old(state)@.add_or_update_auth(
                origin, account_id, perm_name, account_key, weight, threshold),
    {
        match ensure_signed(origin) {
            Ok(_) => {},
            Err(e) => return Err(e),
        }
        let data = {
            let groups = match state.permissions(&account_id) {
                Some(g) => g,
                None => return Err(DispatchError::CannotLookup),
            };
            let idx = match find_group(groups, &perm_name) {
                Some(i) => i,
                None => return Ok(()),
            };
            let g = &groups[idx].1;
            assert(groups_view(groups@)[idx as int].1 == g@);
            let current = OneAuthData { account_key, weight };
            let mut first: Vec<OneAuthData> = Vec::new();
            push_bounded(&mut first, current, state.max_auth);
            let auths = keep_other_auths(first, &g.auths, &account_key, state.max_auth);
            PermissionAndOwnerData {
                perm_type: perm_name,
                parent_perm_type: g.parent_perm_type,
                permissions: g.permissions.clone(),
                threshold,
                auths,
            }
        };
        state.replace_groups(account_id, perm_name, data)
    }

    /// The `add_or_update_auth` call.
    pub fn add_or_update_auth(
        state: &mut AccountsState,
        origin: RawOrigin,
        account_id: AccountId32,
        perm_name: PermType,
        account_key: AccountOrKey,
        weight: u32,
        threshold: u32,
    ) -> (r: Result<(), DispatchError>)
        ensures
            (final(state)@, r) == old(state)@.add_or_update_auth(
                origin, account_id, perm_name, account_key, weight, threshold),
    {
        Pallet::_add_or_update_auth(state, origin, account_id, perm_name, account_key, weight, threshold)
    }

    /// Deletes the permissions of a group on the given modules, as
    /// `AccountsView::delete_permission` says.
    pub fn _delete_permission(
        state: &mut AccountsState,
        origin: RawOrigin,
        account_id: AccountId32,
        perm_name: PermType,
        perm_modules: Vec<PermModule>,
    ) -> (r: Result<(), DispatchError>)
        ensures
            (final(state)@, r) == old(state)@.delete_permission(origin, account_id, perm_name, perm_modules@),
    {
        match ensure_signed(origin) {
            Ok(_) => {},
            Err(e) => return Err(e),
        }
        let data = {
            let groups = match state.permissions(&account_id) {
                Some(g) => g,
                None => return Err(DispatchError::CannotLookup),
            };
            let idx = match find_group(groups, &perm_name) {
                Some(i) => i,
                None => return Ok(()),
            };
            let g = &groups[idx].1;
            assert(groups_view(groups@)[idx as int].1 == g@);
            let (permissions, exist) = drop_modules(&g.permissions, &perm_modules, state.max_permission);
            if !exist {
                return Ok(());
            }
            PermissionAndOwnerData {
                perm_type: perm_name,
                parent_perm_type: g.parent_perm_type,
                permissions,
                threshold: g.threshold,
                auths: g.auths.clone(),
            }
        };
        state.replace_groups(account_id, perm_name, data)
    }

    /// The `delete_permission` call.
    pub fn delete_permission(
        state: &mut AccountsState,
        origin: RawOrigin,
        account_id: AccountId32,
        perm_name: PermType,
        perm_modules: Vec<PermModule>,
    ) -> (r: Result<(), DispatchError>)
        ensures
            (final(state)@, r) == old(state)@.delete_permission(origin, account_id, perm_name, perm_modules@),
    {
        Pallet::_delete_permission(state, origin, account_id, perm_name, perm_modules)
    }

    /// Deletes the given authorisers of a group, as
    /// `AccountsView::delete_auth` says.
    pub fn _delete_auth(
        state: &mut AccountsState,
        origin: RawOrigin,
        account_id: AccountId32,
        perm_name: PermType,
        account_keys: Vec<AccountOrKey>,
    ) -> (r: Result<(), DispatchError>)
        ensures
            (final(state)@, r) == old(state)@.delete_auth(origin, account_id, perm_name, account_keys@),
    {
        match ensure_signed(origin) {
            Ok(_) => {},
            Err(e) => return Err(e),
        }
        let data = {
            let groups = match state.permissions(&account_id) {
                Some(g) => g,
                None => return Err(DispatchError::CannotLookup),
            };
            let idx = match find_group(groups, &perm_name) {
                Some(i) => i,
                None => return Ok(()),
            };
            let g = &groups[idx].1;
            assert(groups_view(groups@)[idx as int].1 == g@);
            let (auths, exist) = drop_auths(&g.auths, &account_keys, state.max_auth);
            if !exist {
                return Ok(());
            }
            PermissionAndOwnerData {
                perm_type: perm_name,
                parent_perm_type: g.parent_perm_type,
                permissions: g.permissions.clone(),
                threshold: g.threshold,
                auths,
            }
        };
        state.replace_groups(account_id, perm_name, data)
    }

    /// The `delete_auth` call.
    pub fn delete_auth(
        state: &mut AccountsState,
        origin: RawOrigin,
        account_id: AccountId32,
        perm_name: PermType,
        account_keys: Vec<AccountOrKey>,
    ) -> (r: Result<(), DispatchError>)
        ensures
            (final(state)@, r) == old(state)@.delete_auth(origin, account_id, perm_name, account_keys@),
    {
        Pallet::_delete_auth(state, origin, account_id, perm_name, account_keys)
    }
}

} // verus!

verus! {

/// `push_kept` keeps what was already there and appends only accepted
/// items.
proof fn lemma_push_kept<T>(acc: Seq<T>, items: Seq<T>, keep: spec_fn(T) -> bool, max: nat)
    ensures
        push_kept(acc, items, keep, max).len() >= acc.len(),
        forall|i: int| 0 <= i < acc.len() ==> #[trigger] push_kept(acc, items, keep, max)[i] == acc[i],
        forall|i: int| acc.len() <= i < push_kept(acc, items, keep, max).len()
            ==> keep(#[trigger] push_kept(acc, items, keep, max)[i]),
    decreases items.len(),
{
    if items.len() > 0 {
        lemma_push_kept(acc, items.drop_last(), keep, max);
    }
}

/// With a single key, `push_unmatched` keeps what was already there and
/// appends only items that do not match the key.
proof fn lemma_push_unmatched_single<T, K>(acc: Seq<T>, items: Seq<T>, key: K, matches: spec_fn(T, K) -> bool, max: nat)
    ensures
        push_unmatched(acc, items, seq![key], matches, max).len() >= acc.len(),
        forall|i: int| 0 <= i < acc.len() ==> #[trigger] push_unmatched(acc, items, seq![key], matches, max)[i] == acc[i],
        forall|i: int| acc.len() <= i < push_unmatched(acc, items, seq![key], matches, max).len()
            ==> !matches(#[trigger] push_unmatched(acc, items, seq![key], matches, max)[i], key),
    decreases items.len(),
{
    if items.len() > 0 {
        lemma_push_unmatched_single(acc, items.drop_last(), key, matches, max);
        let keys = seq![key];
        let prev = push_unmatched(acc, items.drop_last(), keys, matches, max);
        assert(keys.drop_last() =~= Seq::<K>::empty());
        assert(keys.last() == key);
        assert(push_per_key(prev, items.last(), keys, matches, max) == if !matches(items.last(), key) {
            bounded_push(prev, items.last(), max)
        } else {
            prev
        }) by {
            reveal_with_fuel(push_per_key, 2);
        }
    }
}

/// Registering an account makes its owner key, and its active key when
/// given, point at it.
pub proof fn lemma_create_account_registers_keys(
    s: AccountsView,
    account_id: AccountId32,
    pub_key_account: AccountId32,
    active_pub_key_account: Option<AccountId32>,
)
    ensures
        ({
            let t = s.create_account(account_id, pub_key_account, active_pub_key_account);
            &&& t.owners[pub_key_account] == account_id
            &&& active_pub_key_account matches Some(a) ==> t.owners[a] == account_id
            &&& t.permissions == s.permissions
        }),
{
}

/// A permission group created for an account that has no group of that
/// kind and room for one is found afterwards, holding what was given, and
/// the groups before it stay.
pub proof fn lemma_created_group_found(
    s: AccountsView,
    origin: RawOrigin,
    account_id: AccountId32,
    perm_name: PermType,
    parent_perm_name: Option<PermType>,
    perms: Seq<OnePermissionData>,
    auths: Seq<OneAuthData>,
    threshold: u32,
)
    requires
        origin is Signed,
        perms.len() <= s.max_permission,
        auths.len() <= s.max_auth,
        s.permissions.contains_key(account_id) ==> {
            &&& first_group(s.permissions[account_id], perm_name) == -1
            &&& s.permissions[account_id].len() < s.max_others
        },
        !s.permissions.contains_key(account_id) ==> s.max_others >= 1,
    ensures
        ({
            let (t, r) = s.create_permission_auth(origin, account_id, perm_name, parent_perm_name, perms, auths, threshold);
            let groups = t.permissions[account_id];
            let i = first_group(groups, perm_name);
            &&& r is Ok
            &&& t.permissions.contains_key(account_id)
            &&& 0 <= i < groups.len()
            &&& groups[i].1 == (PermissionView { perm_type: perm_name, parent_perm_type: parent_perm_name, permissions: perms, threshold, auths })
            &&& s.permissions.contains_key(account_id) ==> groups.subrange(0, i) == s.permissions[account_id]
        }),
{
    let (t, r) = s.create_permission_auth(origin, account_id, perm_name, parent_perm_name, perms, auths, threshold);
    let groups = t.permissions[account_id];
    let data = PermissionView { perm_type: perm_name, parent_perm_type: parent_perm_name, permissions: perms, threshold, auths };
    if s.permissions.contains_key(account_id) {
        let old = s.permissions[account_id];
        lemma_first_group(old, perm_name);
        assert(groups == old.push((perm_name, data)));
        assert(groups.drop_last() =~= old);
        assert(first_group(groups, perm_name) == old.len());
        assert(groups.subrange(0, old.len() as int) =~= old);
    } else {
        assert(groups == seq![(perm_name, data)]);
        assert(groups.drop_last() =~= Seq::<(PermType, PermissionView)>::empty());
        assert(first_group(groups.drop_last(), perm_name) == -1);
        assert(groups.last().0 == perm_name);
        assert(first_group(groups, perm_name) == 0);
    }
}

/// Updating a permission leaves the account with the one group updated:
/// the new permission first, and no other permission on its module.
pub proof fn lemma_updated_permission_first(
    s: AccountsView,
    origin: RawOrigin,
    account_id: AccountId32,
    perm_name: PermType,
    perm_module: PermModule,
    perm_effect: Effect,
    perm_method: Option<[u8; 5]>,
)
    requires
        s.max_permission >= 1,
        s.max_others >= 1,
        origin is Signed,
        s.permissions.contains_key(account_id),
        first_group(s.permissions[account_id], perm_name) >= 0,
    ensures
        ({
            let (t, r) = s.add_or_update_permission(origin, account_id, perm_name, perm_module, perm_effect, perm_method);
            let groups = t.permissions[account_id];
            let p = groups[0].1.permissions;
            &&& r is Ok
            &&& groups.len() == 1
            &&& groups[0].0 == perm_name
            &&& p.len() >= 1
            &&& p[0] == (OnePermissionData { effect: perm_effect, module: perm_module, method: perm_method })
            &&& forall|i: int| 1 <= i < p.len() ==> (#[trigger] p[i]).module != perm_module
        }),
{
    let groups = s.permissions[account_id];
    let g = groups[first_group(groups, perm_name)].1;
    let current = OnePermissionData { effect: perm_effect, module: perm_module, method: perm_method };
    let first = bounded_push(Seq::empty(), current, s.max_permission as nat);
    assert(first =~= seq![current]);
    lemma_push_kept(first, g.permissions, not_on_module(perm_module), s.max_permission as nat);
}

/// Updating an authoriser leaves the account with the one group updated:
/// the new authoriser first, with the new threshold, and the authoriser
/// nowhere else.
pub proof fn lemma_updated_auth_first(
    s: AccountsView,
    origin: RawOrigin,
    account_id: AccountId32,
    perm_name: PermType,
    account_key: AccountOrKey,
    weight: u32,
    threshold: u32,
)
    requires
        s.max_auth >= 1,
        s.max_others >= 1,
        origin is Signed,
        s.permissions.contains_key(account_id),
        first_group(s.permissions[account_id], perm_name) >= 0,
    ensures
        ({
            let (t, r) = s.add_or_update_auth(origin, account_id, perm_name, account_key, weight, threshold);
            let groups = t.permissions[account_id];
            let a = groups[0].1.auths;
            &&& r is Ok
            &&& groups.len() == 1
            &&& groups[0].0 == perm_name
            &&& groups[0].1.threshold == threshold
            &&& a.len() >= 1
            &&& a[0] == (OneAuthData { account_key, weight })
            &&& forall|i: int| 1 <= i < a.len() ==> (#[trigger] a[i]).account_key != account_key
        }),
{
    let groups = s.permissions[account_id];
    let g = groups[first_group(groups, perm_name)].1;
    let current = OneAuthData { account_key, weight };
    let first = bounded_push(Seq::empty(), current, s.max_auth as nat);
    assert(first =~= seq![current]);
    lemma_push_kept(first, g.auths, not_auth(account_key), s.max_auth as nat);
}

/// Deleting one module's permissions leaves none on that module.
pub proof fn lemma_deleted_module_gone(
    s: AccountsView,
    origin: RawOrigin,
    account_id: AccountId32,
    perm_name: PermType,
    module: PermModule,
)
    requires
        s.delete_permission(origin, account_id, perm_name, seq![module]).1 is Ok,
        s.delete_permission(origin, account_id, perm_name, seq![module]).0.permissions.contains_key(account_id),
    ensures
        ({
            let groups = s.delete_permission(origin, account_id, perm_name, seq![module]).0.permissions[account_id];
            let i = first_group(groups, perm_name);
            i >= 0 ==> forall|j: int| 0 <= j < groups[i].1.permissions.len()
                ==> (#[trigger] groups[i].1.permissions[j]).module != module
        }),
{
    let groups = s.permissions[account_id];
    let idx = first_group(groups, perm_name);
    lemma_first_group(groups, perm_name);
    if idx >= 0 {
        let g = groups[idx].1;
        lemma_push_unmatched_single(Seq::empty(), g.permissions, module, module_matcher(), s.max_permission as nat);
        if any_match(g.permissions, seq![module], module_matcher()) {
            let t = s.delete_permission(origin, account_id, perm_name, seq![module]).0;
            let ng = t.permissions[account_id];
            assert(ng.len() == 1 && ng[0].0 == perm_name);
            lemma_first_group(ng, perm_name);
        } else {
            assert forall|j: int| 0 <= j < g.permissions.len() implies (#[trigger] g.permissions[j]).module != module by {
                if g.permissions[j].module == module {
                    assert(module_matcher()(g.permissions[j], seq![module][0]));
                }
            }
        }
    }
}

/// Deleting one authoriser leaves it nowhere in the group.
pub proof fn lemma_deleted_auth_gone(
    s: AccountsView,
    origin: RawOrigin,
    account_id: AccountId32,
    perm_name: PermType,
    key: AccountOrKey,
)
    requires
        s.delete_auth(origin, account_id, perm_name, seq![key]).1 is Ok,
        s.delete_auth(origin, account_id, perm_name, seq![key]).0.permissions.contains_key(account_id),
    ensures
        ({
            let groups = s.delete_auth(origin, account_id, perm_name, seq![key]).0.permissions[account_id];
            let i = first_group(groups, perm_name);
            i >= 0 ==> forall|j: int| 0 <= j < groups[i].1.auths.len()
                ==> (#[trigger] groups[i].1.auths[j]).account_key != key
        }),
{
    let groups = s.permissions[account_id];
    let idx = first_group(groups, perm_name);
    lemma_first_group(groups, perm_name);
    if idx >= 0 {
        let g = groups[idx].1;
        lemma_push_unmatched_single(Seq::empty(), g.auths, key, auth_matcher(), s.max_auth as nat);
        if any_match(g.auths, seq![key], auth_matcher()) {
            let t = s.delete_auth(origin, account_id, perm_name, seq![key]).0;
            let ng = t.permissions[account_id];
            assert(ng.len() == 1 && ng[0].0 == perm_name);
            lemma_first_group(ng, perm_name);
        } else {
            assert forall|j: int| 0 <= j < g.auths.len() implies (#[trigger] g.auths[j]).account_key != key by {
                if g.auths[j].account_key == key {
                    assert(auth_matcher()(g.auths[j], seq![key][0]));
                }
            }
        }
    }
}

} // verus!
