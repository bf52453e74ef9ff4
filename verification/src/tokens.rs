//! The multi-token ledger of one currency: free, reserved and frozen
//! balances, locks, holds, and the mint and burn rules of the fungible
//! token interface.

use vstd::prelude::*;
use std::collections::HashMap;
use crate::common::{
    ensure_signed, AccountId, ArithmeticError, Balance, DispatchError, ExistenceRequirement,
    RawOrigin, TokensError,
};

verus! {

broadcast use vstd::std_specs::hash::group_hash_axioms;

/// Identifier of a lock.
pub type LockIdentifier = [u8; 8];

/// A single lock on a balance. Locks overlap: the same balance is frozen
/// by all of them.
#[derive(Clone, Copy, Debug)]
pub struct BalanceLock {
    /// The lock's identifier; one lock per identifier.
    pub id: LockIdentifier,
    /// The amount the free balance may not drop below.
    pub amount: Balance,
}

/// Whether two lock identifiers are equal.
pub fn lock_id_eq(a: &LockIdentifier, b: &LockIdentifier) -> (r: bool)
    ensures
        r == (a@ == b@),
{
    let mut i: usize = 0;
    while i < 8
        invariant
            i <= 8,
            a@.len() == 8,
            b@.len() == 8,
            a@.subrange(0, i as int) == b@.subrange(0, i as int),
        decreases 8 - i,
    {
        if a[i] != b[i] {
            assert(a@[i as int] != b@[i as int]);
            return false;
        }
        assert(a@.subrange(0, i as int + 1) =~= a@.subrange(0, i as int).push(a@[i as int]));
        assert(b@.subrange(0, i as int + 1) =~= b@.subrange(0, i as int).push(b@[i as int]));
        i = i + 1;
    }
    assert(a@ =~= a@.subrange(0, 8));
    assert(b@ =~= b@.subrange(0, 8));
    true
}

} // verus!

verus! {

/// `a + b`, or the largest balance when that overflows.
pub open spec fn sat_add(a: Balance, b: Balance) -> Balance {
    if a + b > u128::MAX { u128::MAX } else { (a + b) as Balance }
}

/// `a - b`, or zero when that underflows.
pub open spec fn sat_sub(a: Balance, b: Balance) -> Balance {
    if a < b { 0 } else { (a - b) as Balance }
}

/// The larger of two balances.
pub open spec fn max_balance(a: Balance, b: Balance) -> Balance {
    if a >= b { a } else { b }
}

/// The smaller of two balances.
pub open spec fn min_balance(a: Balance, b: Balance) -> Balance {
    if a <= b { a } else { b }
}

/// Balance information of an account.
#[derive(Clone, Copy, Debug, PartialEq, Eq, Structural)]
pub struct AccountData {
    /// Non-reserved part of the balance.
    pub free: Balance,
    /// Balance which is reserved and may not be used at all.
    pub reserved: Balance,
    /// The amount that `free` may not drop below when withdrawing.
    pub frozen: Balance,
}

impl Default for AccountData {
    fn default() -> (r: AccountData)
        ensures
            r == AccountData::zero(),
    {
        AccountData { free: 0, reserved: 0, frozen: 0 }
    }
}

impl AccountData {
    /// An account with nothing.
    pub open spec fn zero() -> AccountData {
        AccountData { free: 0, reserved: 0, frozen: 0 }
    }

    /// Free plus reserved, saturating.
    pub open spec fn total_spec(self) -> Balance {
        sat_add(self.free, self.reserved)
    }

    /// The amount that this account's free balance may not be reduced
    /// beyond.
    pub fn frozen(&self) -> (r: Balance)
        ensures
            r == self.frozen,
    {
        self.frozen
    }

    /// The total balance in this account including any that is reserved
    /// and ignoring any frozen.
    pub fn total(&self) -> (r: Balance)
        ensures
            r == self.total_spec(),
    {
        self.free.saturating_add(self.reserved)
    }
}

/// Events of the tokens pallet.
#[derive(Clone, Copy, Debug, PartialEq, Eq, Structural)]
pub enum Event {
    /// An account was created with some free balance.
    Endowed(AccountId, Balance),
    /// An account was removed whose balance was non-zero but below the
    /// existential deposit.
    DustLost(AccountId, Balance),
    /// Transfer succeeded: from, to, value.
    Transfer(AccountId, AccountId, Balance),
    /// Some balance was reserved.
    Reserved(AccountId, Balance),
    /// Some balance was unreserved.
    Unreserved(AccountId, Balance),
}

/// Reference-count changes the pallet asks of the system for an account.
#[derive(Clone, Copy, Debug, PartialEq, Eq, Structural)]
pub enum SystemRequest {
    /// The account now provides for its own existence.
    IncProviders(AccountId),
    /// The account no longer provides for its own existence.
    DecProviders(AccountId),
    /// The account is now in use by the pallet's locks.
    IncConsumers(AccountId),
    /// The account is no longer in use by the pallet's locks.
    DecConsumers(AccountId),
}

/// Outcome of a check for depositing funds.
#[derive(Clone, Copy, Debug, PartialEq, Eq, Structural)]
pub enum DepositConsequence {
    /// The total would be below the minimum balance.
    BelowMinimum,
    /// The account cannot be created.
    CannotCreate,
    /// The asset is unknown.
    UnknownAsset,
    /// A balance would overflow.
    Overflow,
    /// The deposit can be made.
    Success,
}

/// Outcome of a check for withdrawing funds.
#[derive(Clone, Copy, Debug, PartialEq, Eq, Structural)]
pub enum WithdrawConsequence {
    /// There are not enough funds.
    NoFunds,
    /// The account would die but must not.
    WouldDie,
    /// The asset is unknown.
    UnknownAsset,
    /// The total issuance would underflow.
    Underflow,
    /// A balance would overflow.
    Overflow,
    /// The funds are frozen.
    Frozen,
    /// The account would be reduced to zero; the remaining dust is given.
    ReducedToZero(Balance),
    /// The withdrawal can be made.
    Success,
}

impl DepositConsequence {
    /// The consequence as a result: `Ok` on success, the matching error
    /// otherwise.
    pub fn into_result(self) -> (r: Result<(), DispatchError>)
        ensures
            r == self.result_spec(),
    {
        match self {
            DepositConsequence::BelowMinimum => Err(DispatchError::Token(crate::common::TokenError::BelowMinimum)),
            DepositConsequence::CannotCreate => Err(DispatchError::Token(crate::common::TokenError::CannotCreate)),
            DepositConsequence::UnknownAsset => Err(DispatchError::Token(crate::common::TokenError::UnknownAsset)),
            DepositConsequence::Overflow => Err(DispatchError::Arithmetic(ArithmeticError::Overflow)),
            DepositConsequence::Success => Ok(()),
        }
    }

    pub open spec fn result_spec(self) -> Result<(), DispatchError> {
        match self {
            DepositConsequence::BelowMinimum => Err(DispatchError::Token(crate::common::TokenError::BelowMinimum)),
            DepositConsequence::CannotCreate => Err(DispatchError::Token(crate::common::TokenError::CannotCreate)),
            DepositConsequence::UnknownAsset => Err(DispatchError::Token(crate::common::TokenError::UnknownAsset)),
            DepositConsequence::Overflow => Err(DispatchError::Arithmetic(ArithmeticError::Overflow)),
            DepositConsequence::Success => Ok(()),
        }
    }
}

impl WithdrawConsequence {
    /// The consequence as a result: the dust that also leaves on success,
    /// the matching error otherwise.
    pub fn into_result(self) -> (r: Result<Balance, DispatchError>)
        ensures
            r == self.result_spec(),
    {
        match self {
            WithdrawConsequence::NoFunds => Err(DispatchError::Token(crate::common::TokenError::NoFunds)),
            WithdrawConsequence::WouldDie => Err(DispatchError::Token(crate::common::TokenError::WouldDie)),
            WithdrawConsequence::UnknownAsset => Err(DispatchError::Token(crate::common::TokenError::UnknownAsset)),
            WithdrawConsequence::Underflow => Err(DispatchError::Arithmetic(ArithmeticError::Underflow)),
            WithdrawConsequence::Overflow => Err(DispatchError::Arithmetic(ArithmeticError::Overflow)),
            WithdrawConsequence::Frozen => Err(DispatchError::Token(crate::common::TokenError::Frozen)),
            WithdrawConsequence::ReducedToZero(result) => Ok(result),
            WithdrawConsequence::Success => Ok(0),
        }
    }

    pub open spec fn result_spec(self) -> Result<Balance, DispatchError> {
        match self {
            WithdrawConsequence::NoFunds => Err(DispatchError::Token(crate::common::TokenError::NoFunds)),
            WithdrawConsequence::WouldDie => Err(DispatchError::Token(crate::common::TokenError::WouldDie)),
            WithdrawConsequence::UnknownAsset => Err(DispatchError::Token(crate::common::TokenError::UnknownAsset)),
            WithdrawConsequence::Underflow => Err(DispatchError::Arithmetic(ArithmeticError::Underflow)),
            WithdrawConsequence::Overflow => Err(DispatchError::Arithmetic(ArithmeticError::Overflow)),
            WithdrawConsequence::Frozen => Err(DispatchError::Token(crate::common::TokenError::Frozen)),
            WithdrawConsequence::ReducedToZero(result) => Ok(result),
            WithdrawConsequence::Success => Ok(0),
        }
    }
}

/// The storage of the tokens pallet, with the events it deposited and the
/// reference-count changes it asked of the system.
pub struct TokensState {
    accounts: HashMap<AccountId, AccountData>,
    locks: HashMap<AccountId, Vec<BalanceLock>>,
    total_issuance: Balance,
    existential_deposit: Balance,
    max_locks: u32,
    events: Vec<Event>,
    system: Vec<SystemRequest>,
}

/// What the tokens pallet stores.
pub struct TokensView {
    /// Stored accounts; an account that is not stored has nothing.
    pub accounts: Map<AccountId, AccountData>,
    /// Locks of each account that has any.
    pub locks: Map<AccountId, Seq<BalanceLock>>,
    /// The total issuance.
    pub total_issuance: Balance,
    /// The minimum amount required to keep an account.
    pub existential_deposit: Balance,
    /// The maximum number of locks on an account.
    pub max_locks: u32,
    /// Events deposited so far.
    pub events: Seq<Event>,
    /// Reference-count changes asked of the system so far.
    pub system: Seq<SystemRequest>,
}

impl View for TokensState {
    type V = TokensView;

    closed spec fn view(&self) -> TokensView {
        TokensView {
            accounts: self.accounts@,
            locks: self.locks@.map_values(|v: Vec<BalanceLock>| v@),
            total_issuance: self.total_issuance,
            existential_deposit: self.existential_deposit,
            max_locks: self.max_locks,
            events: self.events@,
            system: self.system@,
        }
    }
}

impl TokensView {
    /// The account of `who`; nothing when it is not stored.
    pub open spec fn account(self, who: AccountId) -> AccountData {
        if self.accounts.contains_key(who) { self.accounts[who] } else { AccountData::zero() }
    }

    /// The locks of `who`.
    pub open spec fn locks_of(self, who: AccountId) -> Seq<BalanceLock> {
        if self.locks.contains_key(who) { self.locks[who] } else { Seq::empty() }
    }

    /// Storing `account` for `who` after a successful mutation: the account
    /// is removed when its total is zero; a new account is announced with
    /// `Endowed`, and the system is told when the account starts or stops
    /// existing.
    pub open spec fn commit(self, who: AccountId, account: AccountData) -> TokensView {
        let existed = self.accounts.contains_key(who);
        let exists = account.total_spec() != 0;
        TokensView {
            accounts: if exists { self.accounts.insert(who, account) } else { self.accounts.remove(who) },
            events: if !existed { self.events.push(Event::Endowed(who, account.free)) } else { self.events },
            system: if existed && !exists {
                self.system.push(SystemRequest::DecProviders(who))
            } else if !existed && exists {
                self.system.push(SystemRequest::IncProviders(who))
            } else {
                self.system
            },
            ..self
        }
    }

    /// Depositing an event.
    pub open spec fn deposit_event(self, e: Event) -> TokensView {
        TokensView { events: self.events.push(e), ..self }
    }

    /// What depositing `amount` into `account` would lead to.
    pub open spec fn deposit_consequence(self, amount: Balance, account: AccountData) -> DepositConsequence {
        if amount == 0 {
            DepositConsequence::Success
        } else if self.total_issuance + amount > u128::MAX {
            DepositConsequence::Overflow
        } else if account.total_spec() + amount > u128::MAX {
            DepositConsequence::Overflow
        } else if account.total_spec() + amount < self.existential_deposit {
            DepositConsequence::BelowMinimum
        } else {
            DepositConsequence::Success
        }
    }

    /// What withdrawing `amount` from `account` would lead to;
    /// `can_dec_provider` tells whether the system lets the account die.
    pub open spec fn withdraw_consequence(self, amount: Balance, account: AccountData, can_dec_provider: bool) -> WithdrawConsequence {
        if amount == 0 {
            WithdrawConsequence::Success
        } else if self.total_issuance < amount {
            WithdrawConsequence::Underflow
        } else if account.total_spec() < amount {
            WithdrawConsequence::NoFunds
        } else {
            let new_total = (account.total_spec() - amount) as Balance;
            if new_total < self.existential_deposit && !can_dec_provider {
                WithdrawConsequence::WouldDie
            } else if account.free < amount {
                WithdrawConsequence::NoFunds
            } else if ((account.free - amount) as Balance) < account.frozen {
                WithdrawConsequence::Frozen
            } else if new_total < self.existential_deposit {
                WithdrawConsequence::ReducedToZero(new_total)
            } else {
                WithdrawConsequence::Success
            }
        }
    }

    /// Outcome of checking that `who` may withdraw `amount`.
    pub open spec fn can_withdraw_basic(self, who: AccountId, amount: Balance) -> Result<(), DispatchError> {
        if amount == 0 {
            Ok(())
        } else if self.account(who).free < amount {
            Err(DispatchError::Tokens(TokensError::BalanceTooLow))
        } else if ((self.account(who).free - amount) as Balance) < self.account(who).frozen {
            Err(DispatchError::Tokens(TokensError::LiquidityRestrictions))
        } else {
            Ok(())
        }
    }
}

/// `new` is `old` after `outcome`: the new state on success, unchanged on
/// failure.
pub open spec fn follows(old: TokensView, new: TokensView, r: Result<(), DispatchError>, outcome: Result<TokensView, DispatchError>) -> bool {
    match outcome {
        Ok(v) => r is Ok && new == v,
        Err(e) => r == Err::<(), DispatchError>(e) && new == old,
    }
}

impl TokensState {
    /// Empty storage with the given existential deposit and lock limit.
    pub fn new(existential_deposit: Balance, max_locks: u32) -> (r: Self)
        ensures
            r@.accounts == Map::<AccountId, AccountData>::empty(),
            r@.locks == Map::<AccountId, Seq<BalanceLock>>::empty(),
            r@.total_issuance == 0,
            r@.existential_deposit == existential_deposit,
            r@.max_locks == max_locks,
            r@.events == Seq::<Event>::empty(),
            r@.system == Seq::<SystemRequest>::empty(),
    {
        let r = TokensState {
            accounts: HashMap::new(),
            locks: HashMap::new(),
            total_issuance: 0,
            existential_deposit,
            max_locks,
            events: Vec::new(),
            system: Vec::new(),
        };
        assert(r@.locks =~= Map::<AccountId, Seq<BalanceLock>>::empty());
        r
    }

    /// The events deposited so far.
    pub fn events(&self) -> (r: &Vec<Event>)
        ensures
            r@ == self@.events,
    {
        &self.events
    }

    /// The reference-count changes asked of the system so far.
    pub fn system_requests(&self) -> (r: &Vec<SystemRequest>)
        ensures
            r@ == self@.system,
    {
        &self.system
    }

    /// The stored account of `who`, or nothing.
    pub fn accounts(&self, who: AccountId) -> (r: AccountData)
        ensures
            r == self@.account(who),
    {
        match self.accounts.get(&who) {
            Some(a) => *a,
            None => AccountData::default(),
        }
    }

    /// The locks of `who`.
    pub fn locks(&self, who: AccountId) -> (r: Vec<BalanceLock>)
        ensures
            r@ == self@.locks_of(who),
    {
        match self.locks.get(&who) {
            Some(l) => l.clone(),
            None => Vec::new(),
        }
    }

    /// Stores `account` for `who` after a successful mutation.
    fn commit_account(&mut self, who: AccountId, account: AccountData)
        ensures
            final(self)@ == old(self)@.commit(who, account),
    {
        let existed = self.accounts.contains_key(&who);
        let exists = account.total() != 0;
        if exists {
            self.accounts.insert(who, account);
        } else {
            self.accounts.remove(&who);
        }
        if existed && !exists {
            self.system.push(SystemRequest::DecProviders(who));
        } else if !existed && exists {
            self.system.push(SystemRequest::IncProviders(who));
        }
        if !existed {
            self.events.push(Event::Endowed(who, account.free));
        }
    }

    fn deposit_event(&mut self, e: Event)
        ensures
            final(self)@ == old(self)@.deposit_event(e),
    {
        self.events.push(e);
    }

    /// What depositing `amount` into `account` would lead to.
    pub fn deposit_consequence(&self, amount: Balance, account: &AccountData) -> (r: DepositConsequence)
        ensures
            r == self@.deposit_consequence(amount, *account),
    {
        if amount == 0 {
            return DepositConsequence::Success;
        }
        if self.total_issuance.checked_add(amount).is_none() {
            return DepositConsequence::Overflow;
        }
        let new_total_balance = match account.total().checked_add(amount) {
            Some(x) => x,
            None => return DepositConsequence::Overflow,
        };
        if new_total_balance < self.existential_deposit {
            return DepositConsequence::BelowMinimum;
        }
        DepositConsequence::Success
    }

    /// What withdrawing `amount` from `account` would lead to.
    pub fn withdraw_consequence(&self, amount: Balance, account: &AccountData, can_dec_provider: bool) -> (r: WithdrawConsequence)
        ensures
            r == self@.withdraw_consequence(amount, *account, can_dec_provider),
    {
        if amount == 0 {
            return WithdrawConsequence::Success;
        }
        if self.total_issuance.checked_sub(amount).is_none() {
            return WithdrawConsequence::Underflow;
        }
        let new_total_balance = match account.total().checked_sub(amount) {
            Some(x) => x,
            None => return WithdrawConsequence::NoFunds,
        };
        let ed = self.existential_deposit;
        let success = if new_total_balance < ed {
            if can_dec_provider {
                WithdrawConsequence::ReducedToZero(new_total_balance)
            } else {
                return WithdrawConsequence::WouldDie;
            }
        } else {
            WithdrawConsequence::Success
        };
        let new_free_balance = match account.free.checked_sub(amount) {
            Some(b) => b,
            None => return WithdrawConsequence::NoFunds,
        };
        if new_free_balance < account.frozen() {
            return WithdrawConsequence::Frozen;
        }
        success
    }
}

} // verus!

verus! {

/// The highest amount among `locks`; zero when there are none.
pub open spec fn max_lock_amount(locks: Seq<BalanceLock>) -> Balance
    decreases locks.len(),
{
    if locks.len() == 0 {
        0
    } else {
        max_balance(max_lock_amount(locks.drop_last()), locks.last().amount)
    }
}

/// `locks` with the lock under `id` put to `amount`. While `pending`, the
/// first lock under `id` is replaced (when `extend`, by the larger of the
/// two amounts); later locks under `id` are dropped; when no lock was under
/// `id`, the new lock is appended.
pub open spec fn put_lock(
    locks: Seq<BalanceLock>,
    id: LockIdentifier,
    amount: Balance,
    pending: bool,
    extend: bool,
) -> Seq<BalanceLock>
    decreases locks.len(),
{
    if locks.len() == 0 {
        if pending {
            seq![BalanceLock { id, amount }]
        } else {
            Seq::empty()
        }
    } else {
        let l = locks[0];
        let rest = locks.drop_first();
        if l.id@ == id@ {
            if pending {
                let placed = if extend {
                    BalanceLock { id: l.id, amount: max_balance(l.amount, amount) }
                } else {
                    BalanceLock { id, amount }
                };
                seq![placed] + put_lock(rest, id, amount, false, extend)
            } else {
                put_lock(rest, id, amount, false, extend)
            }
        } else {
            seq![l] + put_lock(rest, id, amount, pending, extend)
        }
    }
}

/// `locks` without the locks under `id`.
pub open spec fn drop_lock(locks: Seq<BalanceLock>, id: LockIdentifier) -> Seq<BalanceLock>
    decreases locks.len(),
{
    if locks.len() == 0 {
        Seq::empty()
    } else if locks[0].id@ == id@ {
        drop_lock(locks.drop_first(), id)
    } else {
        seq![locks[0]] + drop_lock(locks.drop_first(), id)
    }
}

/// The larger of two balances.
fn max_of(a: Balance, b: Balance) -> (r: Balance)
    ensures
        r == max_balance(a, b),
{
    if a >= b { a } else { b }
}

/// `locks` with the lock under `id` put to `amount`, as `put_lock` says.
fn put_lock_into(locks: &Vec<BalanceLock>, id: LockIdentifier, amount: Balance, extend: bool) -> (r: Vec<BalanceLock>)
    ensures
        r@ == put_lock(locks@, id, amount, true, extend),
{
    let mut out: Vec<BalanceLock> = Vec::new();
    let mut pending = true;
    let mut i: usize = 0;
    assert(locks@.subrange(0, locks@.len() as int) =~= locks@);
    while i < locks.len()
        invariant
            i <= locks.len(),
            out@ + put_lock(locks@.subrange(i as int, locks@.len() as int), id, amount, pending, extend)
                == put_lock(locks@, id, amount, true, extend),
        decreases locks.len() - i,
    {
        let l = locks[i];
        let ghost sub = locks@.subrange(i as int, locks@.len() as int);
        let ghost next = locks@.subrange(i as int + 1, locks@.len() as int);
        assert(sub[0] == l);
        assert(sub.drop_first() =~= next);
        if lock_id_eq(&l.id, &id) {
            if pending {
                let placed = if extend {
                    BalanceLock { id: l.id, amount: max_of(l.amount, amount) }
                } else {
                    BalanceLock { id, amount }
                };
                assert(out@.push(placed) + put_lock(next, id, amount, false, extend)
                    =~= out@ + (seq![placed] + put_lock(next, id, amount, false, extend)));
                out.push(placed);
                pending = false;
            }
        } else {
            assert(out@.push(l) + put_lock(next, id, amount, pending, extend)
                =~= out@ + (seq![l] + put_lock(next, id, amount, pending, extend)));
            out.push(l);
        }
        i = i + 1;
    }
    if pending {
        assert(out@.push(BalanceLock { id, amount }) =~= out@ + seq![BalanceLock { id, amount }]);
        out.push(BalanceLock { id, amount });
    } else {
        assert(out@ =~= out@ + Seq::<BalanceLock>::empty());
    }
    out
}

/// `locks` without the locks under `id`, as `drop_lock` says.
fn drop_lock_from(locks: &Vec<BalanceLock>, id: LockIdentifier) -> (r: Vec<BalanceLock>)
    ensures
        r@ == drop_lock(locks@, id),
{
    let mut out: Vec<BalanceLock> = Vec::new();
    let mut i: usize = 0;
    assert(locks@.subrange(0, locks@.len() as int) =~= locks@);
    while i < locks.len()
        invariant
            i <= locks.len(),
            out@ + drop_lock(locks@.subrange(i as int, locks@.len() as int), id) == drop_lock(locks@, id),
        decreases locks.len() - i,
    {
        let l = locks[i];
        let ghost sub = locks@.subrange(i as int, locks@.len() as int);
        let ghost next = locks@.subrange(i as int + 1, locks@.len() as int);
        assert(sub[0] == l);
        assert(sub.drop_first() =~= next);
        if !lock_id_eq(&l.id, &id) {
            assert(out@.push(l) + drop_lock(next, id) =~= out@ + (seq![l] + drop_lock(next, id)));
            out.push(l);
        }
        i = i + 1;
    }
    assert(out@ =~= out@ + Seq::<BalanceLock>::empty());
    out
}

/// The highest lock amount, as `max_lock_amount` says.
fn max_lock_of(locks: &Vec<BalanceLock>) -> (r: Balance)
    ensures
        r == max_lock_amount(locks@),
{
    let mut frozen: Balance = 0;
    let mut i: usize = 0;
    assert(locks@.subrange(0, 0) =~= Seq::<BalanceLock>::empty());
    while i < locks.len()
        invariant
            i <= locks.len(),
            frozen == max_lock_amount(locks@.subrange(0, i as int)),
        decreases locks.len() - i,
    {
        assert(locks@.subrange(0, i as int + 1).drop_last() =~= locks@.subrange(0, i as int));
        frozen = max_of(frozen, locks[i].amount);
        i = i + 1;
    }
    assert(locks@.subrange(0, locks@.len() as int) =~= locks@);
    frozen
}

} // verus!

verus! {

impl TokensView {
    /// Storing `locks` as the locks of `who`: the account's frozen balance
    /// becomes the highest lock amount, then the locks are stored (removed
    /// when empty), and the system is told when the account starts or
    /// stops having locks. More locks than the limit are refused after the
    /// frozen balance was written.
    pub open spec fn update_locks(self, who: AccountId, locks: Seq<BalanceLock>) -> (TokensView, Result<(), DispatchError>) {
        let s1 = self.commit(who, AccountData { frozen: max_lock_amount(locks), ..self.account(who) });
        let existed = s1.locks.contains_key(who);
        if locks.len() == 0 {
            (
                TokensView {
                    locks: s1.locks.remove(who),
                    system: if existed { s1.system.push(SystemRequest::DecConsumers(who)) } else { s1.system },
                    ..s1
                },
                Ok(()),
            )
        } else if locks.len() > self.max_locks {
            (s1, Err(DispatchError::Tokens(TokensError::MaxLocksExceeded)))
        } else {
            (
                TokensView {
                    locks: s1.locks.insert(who, locks),
                    system: if !existed { s1.system.push(SystemRequest::IncConsumers(who)) } else { s1.system },
                    ..s1
                },
                Ok(()),
            )
        }
    }

    /// Setting the lock `id` of `who` to `amount`; nothing happens for a
    /// zero amount.
    pub open spec fn set_lock(self, id: LockIdentifier, who: AccountId, amount: Balance) -> (TokensView, Result<(), DispatchError>) {
        if amount == 0 {
            (self, Ok(()))
        } else {
            self.update_locks(who, put_lock(self.locks_of(who), id, amount, true, false))
        }
    }

    /// Extending the lock `id` of `who` to at least `amount`; nothing
    /// happens for a zero amount.
    pub open spec fn extend_lock(self, id: LockIdentifier, who: AccountId, amount: Balance) -> (TokensView, Result<(), DispatchError>) {
        if amount == 0 {
            (self, Ok(()))
        } else {
            self.update_locks(who, put_lock(self.locks_of(who), id, amount, true, true))
        }
    }

    /// Removing the lock `id` of `who`.
    pub open spec fn remove_lock(self, id: LockIdentifier, who: AccountId) -> (TokensView, Result<(), DispatchError>) {
        self.update_locks(who, drop_lock(self.locks_of(who), id))
    }

    /// Setting the free balance of `who`.
    pub open spec fn with_free(self, who: AccountId, free: Balance) -> TokensView {
        self.commit(who, AccountData { free, ..self.account(who) })
    }

    /// Setting the reserved balance of `who`.
    pub open spec fn with_reserved(self, who: AccountId, reserved: Balance) -> TokensView {
        self.commit(who, AccountData { reserved, ..self.account(who) })
    }

    /// Setting the total issuance.
    pub open spec fn with_issuance(self, total_issuance: Balance) -> TokensView {
        TokensView { total_issuance, ..self }
    }

    /// Outcome of depositing `amount` into the free balance of `who`.
    pub open spec fn deposit(self, who: AccountId, amount: Balance) -> Result<TokensView, DispatchError> {
        if amount == 0 {
            Ok(self)
        } else if self.total_issuance + amount > u128::MAX {
            Err(DispatchError::Arithmetic(ArithmeticError::Overflow))
        } else {
            Ok(self.with_free(who, (self.account(who).free + amount) as Balance)
                .with_issuance((self.total_issuance + amount) as Balance))
        }
    }

    /// Where depositing would not panic: the free balance does not
    /// overflow once the total issuance did not.
    pub open spec fn deposit_fits(self, who: AccountId, amount: Balance) -> bool {
        amount != 0 && self.total_issuance + amount <= u128::MAX
            ==> self.account(who).free + amount <= u128::MAX
    }

    /// Outcome of withdrawing `amount` from the free balance of `who`.
    pub open spec fn withdraw(self, who: AccountId, amount: Balance) -> Result<TokensView, DispatchError> {
        if amount == 0 {
            Ok(self)
        } else if self.can_withdraw_basic(who, amount) is Err {
            Err(self.can_withdraw_basic(who, amount)->Err_0)
        } else {
            Ok(self.with_free(who, (self.account(who).free - amount) as Balance)
                .with_issuance((self.total_issuance - amount) as Balance))
        }
    }

    /// Where withdrawing would not panic: the total issuance covers what
    /// the account may withdraw.
    pub open spec fn withdraw_fits(self, who: AccountId, amount: Balance) -> bool {
        amount != 0 && self.can_withdraw_basic(who, amount) is Ok ==> self.total_issuance >= amount
    }

    /// Outcome of transferring `amount` of free balance from `from` to `to`;
    /// `can_dec_provider` tells whether the system lets `from` die.
    pub open spec fn transfer(
        self,
        from: AccountId,
        to: AccountId,
        amount: Balance,
        existence_requirement: ExistenceRequirement,
        can_dec_provider: bool,
    ) -> Result<TokensView, DispatchError> {
        let ed = self.existential_deposit;
        let fa = self.account(from);
        let ta = self.account(to);
        if amount == 0 || from == to {
            Ok(self)
        } else if fa.free < amount {
            Err(DispatchError::Tokens(TokensError::BalanceTooLow))
        } else if ta.free + amount > u128::MAX {
            Err(DispatchError::Arithmetic(ArithmeticError::Overflow))
        } else {
            let fa2 = AccountData { free: (fa.free - amount) as Balance, ..fa };
            let ta2 = AccountData { free: (ta.free + amount) as Balance, ..ta };
            if ta2.total_spec() < ed {
                Err(DispatchError::Tokens(TokensError::ExistentialDeposit))
            } else if fa2.free < fa.frozen {
                Err(DispatchError::Tokens(TokensError::LiquidityRestrictions))
            } else if !((existence_requirement == ExistenceRequirement::AllowDeath && can_dec_provider)
                || fa2.total_spec() >= ed) {
                Err(DispatchError::Tokens(TokensError::KeepAlive))
            } else {
                Ok(self.commit(from, fa2).commit(to, ta2))
            }
        }
    }

    /// The size of a signed change of balance, saturating at the largest
    /// positive amount.
    pub open spec fn amount_abs(by_amount: i128) -> Balance {
        if by_amount == i128::MIN {
            i128::MAX as Balance
        } else if by_amount < 0 {
            (-by_amount) as Balance
        } else {
            by_amount as Balance
        }
    }

    /// Outcome of changing the free balance of `who` by a signed amount.
    pub open spec fn update_balance(self, who: AccountId, by_amount: i128) -> Result<TokensView, DispatchError> {
        if by_amount == 0 {
            Ok(self)
        } else if by_amount > 0 {
            self.deposit(who, TokensView::amount_abs(by_amount))
        } else {
            self.withdraw(who, TokensView::amount_abs(by_amount))
        }
    }

    /// Whether `who` can reserve `value` from their free balance.
    pub open spec fn can_reserve(self, who: AccountId, value: Balance) -> bool {
        value == 0 || self.can_withdraw_basic(who, value) is Ok
    }

    /// Outcome of moving `value` from the free to the reserved balance of
    /// `who`.
    pub open spec fn reserve(self, who: AccountId, value: Balance) -> Result<TokensView, DispatchError> {
        let a = self.account(who);
        if value == 0 {
            Ok(self)
        } else if self.can_withdraw_basic(who, value) is Err {
            Err(self.can_withdraw_basic(who, value)->Err_0)
        } else {
            Ok(self.with_free(who, (a.free - value) as Balance)
                .with_reserved(who, (a.reserved + value) as Balance)
                .deposit_event(Event::Reserved(who, value)))
        }
    }

    /// Where reserving would not panic.
    pub open spec fn reserve_fits(self, who: AccountId, value: Balance) -> bool {
        value != 0 && self.can_withdraw_basic(who, value) is Ok
            ==> self.account(who).reserved + value <= u128::MAX
    }

    /// Outcome of moving up to `value` from the reserved to the free
    /// balance of `who`, with the part that could not be moved.
    pub open spec fn unreserve(self, who: AccountId, value: Balance) -> (TokensView, Balance) {
        let a = self.account(who);
        let actual = min_balance(a.reserved, value);
        if value == 0 {
            (self, value)
        } else {
            (
                self.with_reserved(who, (a.reserved - actual) as Balance)
                    .with_free(who, (a.free + actual) as Balance)
                    .deposit_event(Event::Unreserved(who, actual)),
                (value - actual) as Balance,
            )
        }
    }

    /// Where unreserving would not panic.
    pub open spec fn unreserve_fits(self, who: AccountId, value: Balance) -> bool {
        value != 0 ==> self.account(who).free + min_balance(self.account(who).reserved, value) <= u128::MAX
    }

    /// What `who` can take out of their account: the free balance above
    /// the frozen one, less what must stay for the account to exist unless
    /// it may die.
    pub open spec fn reducible_balance(self, who: AccountId, keep_alive: bool, can_dec_provider: bool) -> Balance {
        let a = self.account(who);
        let liquid = sat_sub(a.free, a.frozen);
        if can_dec_provider && !keep_alive {
            liquid
        } else {
            sat_sub(liquid, sat_sub(self.existential_deposit, (a.total_spec() - liquid) as Balance))
        }
    }

    /// Outcome of minting `amount` into the free balance of `who`.
    pub open spec fn mint_into(self, who: AccountId, amount: Balance) -> Result<TokensView, DispatchError> {
        if amount == 0 {
            Ok(self)
        } else {
            match self.deposit_consequence(amount, self.account(who)).result_spec() {
                Err(e) => Err(e),
                Ok(_) => Ok(self.with_free(who, (self.account(who).free + amount) as Balance)
                    .with_issuance((self.total_issuance + amount) as Balance)),
            }
        }
    }

    /// Outcome of burning `amount` from the free balance of `who`, with what
    /// was burnt: the amount and the dust that would be left behind.
    pub open spec fn burn_from(self, who: AccountId, amount: Balance, can_dec_provider: bool) -> Result<(TokensView, Balance), DispatchError> {
        if amount == 0 {
            Ok((self, 0))
        } else {
            match self.withdraw_consequence(amount, self.account(who), can_dec_provider).result_spec() {
                Err(e) => Err(e),
                Ok(extra) => {
                    let actual = (amount + extra) as Balance;
                    Ok((
                        self.with_free(who, (self.account(who).free - actual) as Balance)
                            .with_issuance((self.total_issuance - actual) as Balance),
                        actual,
                    ))
                },
            }
        }
    }

    /// Where burning would not panic: the amount with the dust is covered
    /// by the free balance and by the total issuance.
    pub open spec fn burn_fits(self, who: AccountId, amount: Balance, can_dec_provider: bool) -> bool {
        let c = self.withdraw_consequence(amount, self.account(who), can_dec_provider).result_spec();
        amount != 0 && c is Ok ==> {
            &&& amount + c->Ok_0 <= self.account(who).free
            &&& amount + c->Ok_0 <= self.total_issuance
        }
    }

    /// Whether `amount` can be put on hold for `who`, keeping the larger of
    /// the existential deposit and the frozen balance free.
    pub open spec fn can_hold(self, who: AccountId, amount: Balance) -> bool {
        let a = self.account(who);
        let min = max_balance(self.existential_deposit, a.frozen);
        if a.reserved + amount > u128::MAX {
            false
        } else if min + amount > u128::MAX {
            false
        } else {
            a.free >= min + amount
        }
    }

    /// Outcome of putting `amount` on hold for `who`.
    pub open spec fn hold(self, who: AccountId, amount: Balance) -> Result<TokensView, DispatchError> {
        let a = self.account(who);
        if amount == 0 {
            Ok(self)
        } else if !self.can_reserve(who, amount) {
            Err(DispatchError::Tokens(TokensError::BalanceTooLow))
        } else {
            Ok(self.commit(who, AccountData { free: (a.free - amount) as Balance, reserved: (a.reserved + amount) as Balance, ..a }))
        }
    }

    /// Outcome of releasing up to `amount` held for `who`, with the amount
    /// released; unless `best_effort`, all of it must be released.
    pub open spec fn release(self, who: AccountId, amount: Balance, best_effort: bool) -> Result<(TokensView, Balance), DispatchError> {
        let a = self.account(who);
        let new_free = sat_add(a.free, min_balance(amount, a.reserved));
        let actual = (new_free - a.free) as Balance;
        if amount == 0 {
            Ok((self, amount))
        } else if !(best_effort || actual == amount) {
            Err(DispatchError::Tokens(TokensError::BalanceTooLow))
        } else {
            Ok((self.commit(who, AccountData { free: new_free, reserved: sat_sub(a.reserved, actual), ..a }), actual))
        }
    }
}

} // verus!

verus! {

impl TokensState {
    /// Sets the free balance of `who`; the total issuance is left to the
    /// caller.
    fn set_free_balance(&mut self, who: AccountId, amount: Balance)
        ensures
            final(self)@ == old(self)@.with_free(who, amount),
    {
        let account = self.accounts(who);
        self.commit_account(who, AccountData { free: amount, ..account });
    }

    /// Sets the reserved balance of `who`; the total issuance is left to
    /// the caller.
    fn set_reserved_balance(&mut self, who: AccountId, amount: Balance)
        ensures
            final(self)@ == old(self)@.with_reserved(who, amount),
    {
        let account = self.accounts(who);
        self.commit_account(who, AccountData { reserved: amount, ..account });
    }

    /// Stores `locks` as the locks of `who`, as `update_locks` says.
    fn update_locks(&mut self, who: AccountId, locks: Vec<BalanceLock>) -> (r: Result<(), DispatchError>)
        ensures
            (final(self)@, r) == old(self)@.update_locks(who, locks@),
    {
        let frozen = max_lock_of(&locks);
        let account = self.accounts(who);
        self.commit_account(who, AccountData { frozen, ..account });
        let ghost s1 = self@;
        let existed = self.locks.contains_key(&who);
        if locks.len() == 0 {
            self.locks.remove(&who);
            if existed {
                self.system.push(SystemRequest::DecConsumers(who));
            }
            assert(self@.locks =~= s1.locks.remove(who));
            Ok(())
        } else if locks.len() as u64 > self.max_locks as u64 {
            Err(DispatchError::Tokens(TokensError::MaxLocksExceeded))
        } else {
            let ghost locks_view = locks@;
            self.locks.insert(who, locks);
            if !existed {
                self.system.push(SystemRequest::IncConsumers(who));
            }
            assert(self@.locks =~= s1.locks.insert(who, locks_view));
            Ok(())
        }
    }

    /// The smallest balance an account may hold.
    pub fn minimum_balance(&self) -> (r: Balance)
        ensures
            r == self@.existential_deposit,
    {
        self.existential_deposit
    }

    /// The total issuance.
    pub fn total_issuance(&self) -> (r: Balance)
        ensures
            r == self@.total_issuance,
    {
        self.total_issuance
    }

    /// Free plus reserved balance of `who`.
    pub fn total_balance(&self, who: AccountId) -> (r: Balance)
        ensures
            r == self@.account(who).total_spec(),
    {
        self.accounts(who).total()
    }

    /// The free balance of `who`.
    pub fn free_balance(&self, who: AccountId) -> (r: Balance)
        ensures
            r == self@.account(who).free,
    {
        self.accounts(who).free
    }

    /// Checks that `who` can withdraw `amount` from their free balance
    /// given their locks; nothing is checked for a zero amount.
    pub fn ensure_can_withdraw(&self, who: AccountId, amount: Balance) -> (r: Result<(), DispatchError>)
        ensures
            r == self@.can_withdraw_basic(who, amount),
    {
        if amount == 0 {
            return Ok(());
        }
        let new_balance = match self.free_balance(who).checked_sub(amount) {
            Some(b) => b,
            None => return Err(DispatchError::Tokens(TokensError::BalanceTooLow)),
        };
        if new_balance < self.accounts(who).frozen() {
            return Err(DispatchError::Tokens(TokensError::LiquidityRestrictions));
        }
        Ok(())
    }

    /// Transfers `amount` of free balance from `from` to `to`;
    /// `can_dec_provider` tells whether the system lets `from` die.
    pub fn do_transfer(
        &mut self,
        from: AccountId,
        to: AccountId,
        amount: Balance,
        existence_requirement: ExistenceRequirement,
        can_dec_provider: bool,
    ) -> (r: Result<(), DispatchError>)
        ensures
            follows(old(self)@, final(self)@, r, old(self)@.transfer(from, to, amount, existence_requirement, can_dec_provider)),
    {
        if amount == 0 || from == to {
            return Ok(());
        }
        let mut to_account = self.accounts(to);
        let mut from_account = self.accounts(from);
        from_account.free = match from_account.free.checked_sub(amount) {
            Some(f) => f,
            None => return Err(DispatchError::Tokens(TokensError::BalanceTooLow)),
        };
        to_account.free = match to_account.free.checked_add(amount) {
            Some(f) => f,
            None => return Err(DispatchError::Arithmetic(ArithmeticError::Overflow)),
        };
        let ed = self.existential_deposit;
        if to_account.total() < ed {
            return Err(DispatchError::Tokens(TokensError::ExistentialDeposit));
        }
        match self.ensure_can_withdraw(from, amount) {
            Ok(()) => {},
            Err(e) => return Err(e),
        }
        let allow_death = existence_requirement == ExistenceRequirement::AllowDeath;
        let allow_death = allow_death && can_dec_provider;
        if !(allow_death || from_account.total() >= ed) {
            return Err(DispatchError::Tokens(TokensError::KeepAlive));
        }
        self.commit_account(from, from_account);
        self.commit_account(to, to_account);
        Ok(())
    }

    /// Transfers `amount` of free balance from `from` to `to`, letting
    /// `from` die.
    pub fn transfer(&mut self, from: AccountId, to: AccountId, amount: Balance, can_dec_provider: bool) -> (r: Result<(), DispatchError>)
        ensures
            follows(
                old(self)@,
                final(self)@,
                r,
                old(self)@.transfer(from, to, amount, ExistenceRequirement::AllowDeath, can_dec_provider),
            ),
    {
        self.do_transfer(from, to, amount, ExistenceRequirement::AllowDeath, can_dec_provider)
    }

    /// Deposits `amount` into the free balance of `who`.
    pub fn deposit(&mut self, who: AccountId, amount: Balance) -> (r: Result<(), DispatchError>)
        requires
            old(self)@.deposit_fits(who, amount),
        ensures
            follows(old(self)@, final(self)@, r, old(self)@.deposit(who, amount)),
    {
        if amount == 0 {
            return Ok(());
        }
        let total = match self.total_issuance.checked_add(amount) {
            Some(t) => t,
            None => return Err(DispatchError::Arithmetic(ArithmeticError::Overflow)),
        };
        let free = self.free_balance(who);
        self.set_free_balance(who, free + amount);
        self.total_issuance = total;
        Ok(())
    }

    /// Withdraws `amount` from the free balance of `who`.
    pub fn withdraw(&mut self, who: AccountId, amount: Balance) -> (r: Result<(), DispatchError>)
        requires
            old(self)@.withdraw_fits(who, amount),
        ensures
            follows(old(self)@, final(self)@, r, old(self)@.withdraw(who, amount)),
    {
        if amount == 0 {
            return Ok(());
        }
        match self.ensure_can_withdraw(who, amount) {
            Ok(()) => {},
            Err(e) => return Err(e),
        }
        let free = self.free_balance(who);
        self.total_issuance = self.total_issuance - amount;
        self.set_free_balance(who, free - amount);
        Ok(())
    }

    /// Changes the free balance of `who` by a signed amount: a deposit when
    /// positive, a withdrawal when negative.
    pub fn update_balance(&mut self, who: AccountId, by_amount: i128) -> (r: Result<(), DispatchError>)
        requires
            by_amount > 0 ==> old(self)@.deposit_fits(who, TokensView::amount_abs(by_amount)),
            by_amount < 0 ==> old(self)@.withdraw_fits(who, TokensView::amount_abs(by_amount)),
        ensures
            follows(old(self)@, final(self)@, r, old(self)@.update_balance(who, by_amount)),
    {
        if by_amount == 0 {
            return Ok(());
        }
        let by_amount_abs: i128 = if by_amount == i128::MIN {
            i128::MAX
        } else if by_amount < 0 {
            -by_amount
        } else {
            by_amount
        };
        let by_balance = by_amount_abs as Balance;
        if by_amount > 0 {
            self.deposit(who, by_balance)
        } else {
            self.withdraw(who, by_balance)
        }
    }

    /// Sets the lock `id` on the balance of `who` to `amount`; nothing
    /// happens for a zero amount.
    pub fn set_lock(&mut self, lock_id: LockIdentifier, who: AccountId, amount: Balance) -> (r: Result<(), DispatchError>)
        ensures
            (final(self)@, r) == old(self)@.set_lock(lock_id, who, amount),
    {
        if amount == 0 {
            return Ok(());
        }
        let locks = put_lock_into(&self.locks(who), lock_id, amount, false);
        self.update_locks(who, locks)
    }

    /// Extends the lock `id` on the balance of `who` to at least `amount`;
    /// nothing happens for a zero amount.
    pub fn extend_lock(&mut self, lock_id: LockIdentifier, who: AccountId, amount: Balance) -> (r: Result<(), DispatchError>)
        ensures
            (final(self)@, r) == old(self)@.extend_lock(lock_id, who, amount),
    {
        if amount == 0 {
            return Ok(());
        }
        let locks = put_lock_into(&self.locks(who), lock_id, amount, true);
        self.update_locks(who, locks)
    }

    /// Removes the lock `id` from the balance of `who`.
    pub fn remove_lock(&mut self, lock_id: LockIdentifier, who: AccountId) -> (r: Result<(), DispatchError>)
        ensures
            (final(self)@, r) == old(self)@.remove_lock(lock_id, who),
    {
        let locks = drop_lock_from(&self.locks(who), lock_id);
        self.update_locks(who, locks)
    }
}

} // verus!

verus! {

impl TokensState {
    /// Whether `who` can reserve `value` from their free balance.
    pub fn can_reserve(&self, who: AccountId, value: Balance) -> (r: bool)
        ensures
            r == self@.can_reserve(who, value),
    {
        if value == 0 {
            return true;
        }
        self.ensure_can_withdraw(who, value).is_ok()
    }

    /// The reserved balance of `who`.
    pub fn reserved_balance(&self, who: AccountId) -> (r: Balance)
        ensures
            r == self@.account(who).reserved,
    {
        self.accounts(who).reserved
    }

    /// Moves `value` from the free balance of `who` to their reserved
    /// balance.
    pub fn reserve(&mut self, who: AccountId, value: Balance) -> (r: Result<(), DispatchError>)
        requires
            old(self)@.reserve_fits(who, value),
        ensures
            follows(old(self)@, final(self)@, r, old(self)@.reserve(who, value)),
    {
        if value == 0 {
            return Ok(());
        }
        match self.ensure_can_withdraw(who, value) {
            Ok(()) => {},
            Err(e) => return Err(e),
        }
        let account = self.accounts(who);
        self.set_free_balance(who, account.free - value);
        self.set_reserved_balance(who, account.reserved + value);
        self.deposit_event(Event::Reserved(who, value));
        Ok(())
    }

    /// Moves up to `value` from the reserved balance of `who` back to their
    /// free balance; returns the part that could not be moved.
    pub fn unreserve(&mut self, who: AccountId, value: Balance) -> (r: Balance)
        requires
            old(self)@.unreserve_fits(who, value),
        ensures
            (final(self)@, r) == old(self)@.unreserve(who, value),
    {
        if value == 0 {
            return value;
        }
        let account = self.accounts(who);
        let actual = if account.reserved <= value { account.reserved } else { value };
        self.set_reserved_balance(who, account.reserved - actual);
        self.set_free_balance(who, account.free + actual);
        self.deposit_event(Event::Unreserved(who, actual));
        value - actual
    }

    /// Free plus reserved balance of `who`.
    pub fn balance(&self, who: AccountId) -> (r: Balance)
        ensures
            r == self@.account(who).total_spec(),
    {
        self.total_balance(who)
    }

    /// What `who` can take out of their account; `can_dec_provider` tells
    /// whether the system lets the account die.
    pub fn reducible_balance(&self, who: AccountId, keep_alive: bool, can_dec_provider: bool) -> (r: Balance)
        ensures
            r == self@.reducible_balance(who, keep_alive, can_dec_provider),
    {
        let a = self.accounts(who);
        let liquid = a.free.saturating_sub(a.frozen);
        if can_dec_provider && !keep_alive {
            liquid
        } else {
            let must_remain_to_exist = self.existential_deposit.saturating_sub(a.total() - liquid);
            liquid.saturating_sub(must_remain_to_exist)
        }
    }

    /// What depositing `amount` into the account of `who` would lead to.
    pub fn can_deposit(&self, who: AccountId, amount: Balance) -> (r: DepositConsequence)
        ensures
            r == self@.deposit_consequence(amount, self@.account(who)),
    {
        let account = self.accounts(who);
        self.deposit_consequence(amount, &account)
    }

    /// What withdrawing `amount` from the account of `who` would lead to.
    pub fn can_withdraw(&self, who: AccountId, amount: Balance, can_dec_provider: bool) -> (r: WithdrawConsequence)
        ensures
            r == self@.withdraw_consequence(amount, self@.account(who), can_dec_provider),
    {
        let account = self.accounts(who);
        self.withdraw_consequence(amount, &account, can_dec_provider)
    }

    /// Mints `amount` into the free balance of `who`.
    pub fn mint_into(&mut self, who: AccountId, amount: Balance) -> (r: Result<(), DispatchError>)
        ensures
            follows(old(self)@, final(self)@, r, old(self)@.mint_into(who, amount)),
    {
        if amount == 0 {
            return Ok(());
        }
        let mut account = self.accounts(who);
        match self.deposit_consequence(amount, &account).into_result() {
            Ok(()) => {},
            Err(e) => return Err(e),
        }
        account.free = account.free + amount;
        self.commit_account(who, account);
        self.total_issuance = self.total_issuance + amount;
        Ok(())
    }

    /// Burns `amount` from the free balance of `who`, with the dust that
    /// would be left behind; returns what was burnt.
    pub fn burn_from(&mut self, who: AccountId, amount: Balance, can_dec_provider: bool) -> (r: Result<Balance, DispatchError>)
        requires
            old(self)@.burn_fits(who, amount, can_dec_provider),
        ensures
            match old(self)@.burn_from(who, amount, can_dec_provider) {
                Ok((v, actual)) => r == Ok::<Balance, DispatchError>(actual) && final(self)@ == v,
                Err(e) => r == Err::<Balance, DispatchError>(e) && final(self)@ == old(self)@,
            },
    {
        if amount == 0 {
            return Ok(0);
        }
        let mut account = self.accounts(who);
        let extra = match self.withdraw_consequence(amount, &account, can_dec_provider).into_result() {
            Ok(x) => x,
            Err(e) => return Err(e),
        };
        let actual = amount + extra;
        account.free = account.free - actual;
        self.commit_account(who, account);
        self.total_issuance = self.total_issuance - actual;
        Ok(actual)
    }

    /// Transfers `amount` from `source` to `dest`, keeping `source` alive
    /// when asked to; returns the amount.
    pub fn transfer_fungible(
        &mut self,
        source: AccountId,
        dest: AccountId,
        amount: Balance,
        keep_alive: bool,
        can_dec_provider: bool,
    ) -> (r: Result<Balance, DispatchError>)
        ensures
            match old(self)@.transfer(
                source,
                dest,
                amount,
                if keep_alive { ExistenceRequirement::KeepAlive } else { ExistenceRequirement::AllowDeath },
                can_dec_provider,
            ) {
                Ok(v) => r == Ok::<Balance, DispatchError>(amount) && final(self)@ == v,
                Err(e) => r == Err::<Balance, DispatchError>(e) && final(self)@ == old(self)@,
            },
    {
        let er = if keep_alive { ExistenceRequirement::KeepAlive } else { ExistenceRequirement::AllowDeath };
        match self.do_transfer(source, dest, amount, er, can_dec_provider) {
            Ok(()) => Ok(amount),
            Err(e) => Err(e),
        }
    }

    /// Sets the free balance of `who`, leaving the total issuance as it is.
    pub fn set_balance(&mut self, who: AccountId, amount: Balance) -> (r: Result<(), DispatchError>)
        ensures
            r is Ok,
            final(self)@ == old(self)@.with_free(who, amount),
    {
        self.set_free_balance(who, amount);
        Ok(())
    }

    /// Sets the total issuance.
    pub fn set_total_issuance(&mut self, amount: Balance)
        ensures
            final(self)@ == old(self)@.with_issuance(amount),
    {
        self.total_issuance = amount;
    }

    /// The balance of `who` on hold.
    pub fn balance_on_hold(&self, who: AccountId) -> (r: Balance)
        ensures
            r == self@.account(who).reserved,
    {
        self.accounts(who).reserved
    }

    /// Whether `amount` can be put on hold for `who`.
    pub fn can_hold(&self, who: AccountId, amount: Balance) -> (r: bool)
        ensures
            r == self@.can_hold(who, amount),
    {
        let a = self.accounts(who);
        let min_balance = max_of(self.existential_deposit, a.frozen);
        if a.reserved.checked_add(amount).is_none() {
            return false;
        }
        let required_free = match min_balance.checked_add(amount) {
            Some(x) => x,
            None => return false,
        };
        a.free >= required_free
    }

    /// Puts `amount` on hold for `who`.
    pub fn hold(&mut self, who: AccountId, amount: Balance) -> (r: Result<(), DispatchError>)
        requires
            amount != 0 && old(self)@.can_reserve(who, amount)
                ==> old(self)@.account(who).reserved + amount <= u128::MAX,
        ensures
            follows(old(self)@, final(self)@, r, old(self)@.hold(who, amount)),
    {
        if amount == 0 {
            return Ok(());
        }
        if !self.can_reserve(who, amount) {
            return Err(DispatchError::Tokens(TokensError::BalanceTooLow));
        }
        let mut a = self.accounts(who);
        a.free = a.free - amount;
        a.reserved = a.reserved + amount;
        self.commit_account(who, a);
        Ok(())
    }

    /// Releases up to `amount` held for `who`; unless `best_effort`, all of
    /// it must be released. Returns the amount released.
    pub fn release(&mut self, who: AccountId, amount: Balance, best_effort: bool) -> (r: Result<Balance, DispatchError>)
        ensures
            match old(self)@.release(who, amount, best_effort) {
                Ok((v, actual)) => r == Ok::<Balance, DispatchError>(actual) && final(self)@ == v,
                Err(e) => r == Err::<Balance, DispatchError>(e) && final(self)@ == old(self)@,
            },
    {
        if amount == 0 {
            return Ok(amount);
        }
        let mut a = self.accounts(who);
        let movable = if amount <= a.reserved { amount } else { a.reserved };
        let new_free = a.free.saturating_add(movable);
        let actual = new_free - a.free;
        if !(best_effort || actual == amount) {
            return Err(DispatchError::Tokens(TokensError::BalanceTooLow));
        }
        a.free = new_free;
        a.reserved = a.reserved.saturating_sub(actual);
        self.commit_account(who, a);
        Ok(actual)
    }
}

} // verus!

verus! {

/// Outcome of the `transfer` dispatchable: a signed origin transfers
/// `amount` to `dest`, allowing death, and a `Transfer` event follows.
pub open spec fn transfer_call(
    s: TokensView,
    origin: RawOrigin,
    dest: AccountId,
    amount: Balance,
    can_dec_provider: bool,
) -> Result<TokensView, DispatchError> {
    match origin {
        RawOrigin::Signed(from) => match s.transfer(from, dest, amount, ExistenceRequirement::AllowDeath, can_dec_provider) {
            Ok(t) => Ok(t.deposit_event(Event::Transfer(from, dest, amount))),
            Err(e) => Err(e),
        },
        _ => Err(DispatchError::BadOrigin),
    }
}

/// Outcome of the `transfer_all` dispatchable: the whole free balance of
/// the signer is transferred.
pub open spec fn transfer_all_call(
    s: TokensView,
    origin: RawOrigin,
    dest: AccountId,
    can_dec_provider: bool,
) -> Result<TokensView, DispatchError> {
    match origin {
        RawOrigin::Signed(from) => transfer_call(s, origin, dest, s.account(from).free, can_dec_provider),
        _ => Err(DispatchError::BadOrigin),
    }
}

/// The tokens pallet's dispatchable calls.
pub struct Pallet;

impl Pallet {
    /// Transfers some balance to another account; `can_dec_provider` tells
    /// whether the system lets the signer die.
    pub fn transfer(
        state: &mut TokensState,
        origin: RawOrigin,
        dest: AccountId,
        amount: Balance,
        can_dec_provider: bool,
    ) -> (r: Result<(), DispatchError>)
        ensures
            follows(old(state)@, final(state)@, r, transfer_call(old(state)@, origin, dest, amount, can_dec_provider)),
    {
        let from = match ensure_signed(origin) {
            Ok(who) => who,
            Err(e) => return Err(e),
        };
        match state.transfer(from, dest, amount, can_dec_provider) {
            Ok(()) => {},
            Err(e) => return Err(e),
        }
        state.deposit_event(Event::Transfer(from, dest, amount));
        Ok(())
    }

    /// Transfers all remaining free balance to the given account.
    pub fn transfer_all(
        state: &mut TokensState,
        origin: RawOrigin,
        dest: AccountId,
        can_dec_provider: bool,
    ) -> (r: Result<(), DispatchError>)
        ensures
            follows(old(state)@, final(state)@, r, transfer_all_call(old(state)@, origin, dest, can_dec_provider)),
    {
        let from = match ensure_signed(origin) {
            Ok(who) => who,
            Err(e) => return Err(e),
        };
        let balance = state.free_balance(from);
        match state.transfer(from, dest, balance, can_dec_provider) {
            Ok(()) => {},
            Err(e) => return Err(e),
        }
        state.deposit_event(Event::Transfer(from, dest, balance));
        Ok(())
    }
}

/// The sum of the balances of a genesis list.
pub open spec fn genesis_sum(balances: Seq<(AccountId, Balance)>) -> nat
    decreases balances.len(),
{
    if balances.len() == 0 {
        0
    } else {
        (genesis_sum(balances.drop_last()) + balances.last().1) as nat
    }
}

/// Genesis of the tokens pallet.
pub struct GenesisConfig {
    /// Initial balances; only their sum is stored, as the total issuance.
    pub balances: Vec<(AccountId, Balance)>,
}

impl GenesisConfig {
    /// Writes the genesis state: the total issuance is the sum of the
    /// genesis balances.
    pub fn build(&self, state: &mut TokensState)
        requires
            genesis_sum(self.balances@) <= u128::MAX,
        ensures
            final(state)@ == old(state)@.with_issuance(genesis_sum(self.balances@) as Balance),
    {
        let mut total: Balance = 0;
        let mut i: usize = 0;
        assert(self.balances@.subrange(0, 0) =~= Seq::<(AccountId, Balance)>::empty());
        while i < self.balances.len()
            invariant
                i <= self.balances@.len(),
                total == genesis_sum(self.balances@.subrange(0, i as int)),
                genesis_sum(self.balances@) <= u128::MAX,
            decreases self.balances@.len() - i,
        {
            proof {
                assert(self.balances@.subrange(0, i as int + 1).drop_last() =~= self.balances@.subrange(0, i as int));
                lemma_genesis_sum_prefix(self.balances@, i as int + 1);
            }
            let (_, n) = self.balances[i];
            total = total + n;
            i = i + 1;
        }
        assert(self.balances@.subrange(0, self.balances@.len() as int) =~= self.balances@);
        state.set_total_issuance(total);
    }
}

/// A prefix of a genesis list sums to no more than the whole list.
proof fn lemma_genesis_sum_prefix(balances: Seq<(AccountId, Balance)>, i: int)
    requires
        0 <= i <= balances.len(),
    ensures
        genesis_sum(balances.subrange(0, i)) <= genesis_sum(balances),
    decreases balances.len() - i,
{
    if i < balances.len() {
        lemma_genesis_sum_prefix(balances, i + 1);
        assert(balances.subrange(0, i + 1).drop_last() =~= balances.subrange(0, i));
    } else {
        assert(balances.subrange(0, i) =~= balances);
    }
}

} // verus!

verus! {

/// The highest lock amount is at least the amount of every lock.
proof fn lemma_max_lock_amount_ge(locks: Seq<BalanceLock>, i: int)
    requires
        0 <= i < locks.len(),
    ensures
        max_lock_amount(locks) >= locks[i].amount,
    decreases locks.len(),
{
    if i < locks.len() - 1 {
        lemma_max_lock_amount_ge(locks.drop_last(), i);
    }
}

/// Once the new lock is placed, no further lock under `id` is kept.
proof fn lemma_put_lock_placed(locks: Seq<BalanceLock>, id: LockIdentifier, amount: Balance, extend: bool)
    ensures
        forall|j: int| 0 <= j < put_lock(locks, id, amount, false, extend).len()
            ==> #[trigger] put_lock(locks, id, amount, false, extend)[j].id@ != id@,
    decreases locks.len(),
{
    if locks.len() > 0 {
        lemma_put_lock_placed(locks.drop_first(), id, amount, extend);
        let r = put_lock(locks, id, amount, false, extend);
        let tail = put_lock(locks.drop_first(), id, amount, false, extend);
        if locks[0].id@ != id@ {
            assert forall|j: int| 0 <= j < r.len() implies #[trigger] r[j].id@ != id@ by {
                if j > 0 {
                    assert(r[j] == tail[j - 1]);
                }
            }
        }
    }
}

/// Putting a lock leaves exactly one lock under `id`, holding `amount`
/// (at least `amount` when extending).
proof fn lemma_put_lock_unique(locks: Seq<BalanceLock>, id: LockIdentifier, amount: Balance, extend: bool)
    ensures
        ({
            let r = put_lock(locks, id, amount, true, extend);
            exists|i: int| {
                &&& 0 <= i < r.len()
                &&& r[i].id@ == id@
                &&& if extend { r[i].amount >= amount } else { r[i].amount == amount }
                &&& forall|j: int| 0 <= j < r.len() && j != i ==> #[trigger] r[j].id@ != id@
            }
        }),
    decreases locks.len(),
{
    let r = put_lock(locks, id, amount, true, extend);
    if locks.len() == 0 {
        assert(r[0].id@ == id@);
    } else {
        let l = locks[0];
        let rest = locks.drop_first();
        if l.id@ == id@ {
            lemma_put_lock_placed(rest, id, amount, extend);
            let tail = put_lock(rest, id, amount, false, extend);
            assert forall|j: int| 0 <= j < r.len() && j != 0 implies #[trigger] r[j].id@ != id@ by {
                assert(r[j] == tail[j - 1]);
            }
            assert(r[0].id@ == id@);
        } else {
            lemma_put_lock_unique(rest, id, amount, extend);
            let tail = put_lock(rest, id, amount, true, extend);
            let k = choose|k: int| {
                &&& 0 <= k < tail.len()
                &&& tail[k].id@ == id@
                &&& if extend { tail[k].amount >= amount } else { tail[k].amount == amount }
                &&& forall|j: int| 0 <= j < tail.len() && j != k ==> #[trigger] tail[j].id@ != id@
            };
            assert(r[k + 1] == tail[k]);
            assert forall|j: int| 0 <= j < r.len() && j != k + 1 implies #[trigger] r[j].id@ != id@ by {
                if j > 0 {
                    assert(r[j] == tail[j - 1]);
                }
            }
        }
    }
}

/// Dropping the locks under `id` leaves none under it.
proof fn lemma_drop_lock_none(locks: Seq<BalanceLock>, id: LockIdentifier)
    ensures
        forall|j: int| 0 <= j < drop_lock(locks, id).len() ==> #[trigger] drop_lock(locks, id)[j].id@ != id@,
    decreases locks.len(),
{
    if locks.len() > 0 {
        lemma_drop_lock_none(locks.drop_first(), id);
        let tail = drop_lock(locks.drop_first(), id);
        if locks[0].id@ != id@ {
            assert forall|j: int| 0 <= j < drop_lock(locks, id).len() implies #[trigger] drop_lock(locks, id)[j].id@ != id@ by {
                if j > 0 {
                    assert(drop_lock(locks, id)[j] == tail[j - 1]);
                }
            }
        }
    }
}

/// A lock that was set is in force: the account has exactly one lock under
/// its identifier, with the amount set, and the account's frozen balance
/// covers it while the account is stored.
pub proof fn lemma_set_lock_in_force(s: TokensView, id: LockIdentifier, who: AccountId, amount: Balance)
    requires
        amount > 0,
        s.set_lock(id, who, amount).1 is Ok,
    ensures
        ({
            let t = s.set_lock(id, who, amount).0;
            let locks = t.locks_of(who);
            &&& exists|i: int| {
                &&& 0 <= i < locks.len()
                &&& locks[i].id@ == id@
                &&& locks[i].amount == amount
                &&& forall|j: int| 0 <= j < locks.len() && j != i ==> #[trigger] locks[j].id@ != id@
            }
            &&& t.accounts.contains_key(who) ==> t.account(who).frozen >= amount
        }),
{
    let new_locks = put_lock(s.locks_of(who), id, amount, true, false);
    lemma_put_lock_unique(s.locks_of(who), id, amount, false);
    let i = choose|i: int| {
        &&& 0 <= i < new_locks.len()
        &&& new_locks[i].id@ == id@
        &&& new_locks[i].amount == amount
        &&& forall|j: int| 0 <= j < new_locks.len() && j != i ==> #[trigger] new_locks[j].id@ != id@
    };
    lemma_max_lock_amount_ge(new_locks, i);
    let t = s.set_lock(id, who, amount).0;
    assert(t.locks_of(who) == new_locks);
}

/// A lock that was extended is in force for at least the amount asked.
pub proof fn lemma_extend_lock_in_force(s: TokensView, id: LockIdentifier, who: AccountId, amount: Balance)
    requires
        amount > 0,
        s.extend_lock(id, who, amount).1 is Ok,
    ensures
        ({
            let t = s.extend_lock(id, who, amount).0;
            let locks = t.locks_of(who);
            &&& exists|i: int| {
                &&& 0 <= i < locks.len()
                &&& locks[i].id@ == id@
                &&& locks[i].amount >= amount
                &&& forall|j: int| 0 <= j < locks.len() && j != i ==> #[trigger] locks[j].id@ != id@
            }
            &&& t.accounts.contains_key(who) ==> t.account(who).frozen >= amount
        }),
{
    let new_locks = put_lock(s.locks_of(who), id, amount, true, true);
    lemma_put_lock_unique(s.locks_of(who), id, amount, true);
    let i = choose|i: int| {
        &&& 0 <= i < new_locks.len()
        &&& new_locks[i].id@ == id@
        &&& new_locks[i].amount >= amount
        &&& forall|j: int| 0 <= j < new_locks.len() && j != i ==> #[trigger] new_locks[j].id@ != id@
    };
    lemma_max_lock_amount_ge(new_locks, i);
    let t = s.extend_lock(id, who, amount).0;
    assert(t.locks_of(who) == new_locks);
}

/// After a lock is removed, no lock under its identifier is left.
pub proof fn lemma_remove_lock_clears(s: TokensView, id: LockIdentifier, who: AccountId)
    requires
        s.remove_lock(id, who).1 is Ok,
    ensures
        ({
            let locks = s.remove_lock(id, who).0.locks_of(who);
            forall|j: int| 0 <= j < locks.len() ==> #[trigger] locks[j].id@ != id@
        }),
{
    lemma_drop_lock_none(s.locks_of(who), id);
}

/// Withdrawing what was just deposited gives back every account and the
/// total issuance, when the account's free balance covered its frozen one.
pub proof fn lemma_withdraw_undoes_deposit(s: TokensView, who: AccountId, amount: Balance)
    requires
        s.deposit_fits(who, amount),
        s.deposit(who, amount) is Ok,
        s.account(who).free >= s.account(who).frozen,
    ensures
        ({
            let d = s.deposit(who, amount)->Ok_0;
            &&& d.withdraw_fits(who, amount)
            &&& d.withdraw(who, amount) is Ok
            &&& d.withdraw(who, amount)->Ok_0.total_issuance == s.total_issuance
            &&& forall|w: AccountId| #[trigger] d.withdraw(who, amount)->Ok_0.account(w) == s.account(w)
        }),
{
}

/// Unreserving what was just reserved moves it all back: nothing is left
/// over and the free and reserved balances are as before.
pub proof fn lemma_unreserve_undoes_reserve(s: TokensView, who: AccountId, value: Balance)
    requires
        s.reserve_fits(who, value),
        s.reserve(who, value) is Ok,
    ensures
        ({
            let r = s.reserve(who, value)->Ok_0;
            &&& r.unreserve_fits(who, value)
            &&& r.unreserve(who, value).1 == 0
            &&& r.unreserve(who, value).0.account(who).free == s.account(who).free
            &&& r.unreserve(who, value).0.account(who).reserved == s.account(who).reserved
            &&& r.unreserve(who, value).0.total_issuance == s.total_issuance
        }),
{
}

/// A transfer moves exactly `amount` of free balance from the sender to the
/// receiver, keeps their reserved balances and the total issuance, and
/// touches no other account.
pub proof fn lemma_transfer_moves_free(
    s: TokensView,
    from: AccountId,
    to: AccountId,
    amount: Balance,
    existence_requirement: ExistenceRequirement,
    can_dec_provider: bool,
)
    requires
        s.transfer(from, to, amount, existence_requirement, can_dec_provider) is Ok,
        from != to,
    ensures
        ({
            let t = s.transfer(from, to, amount, existence_requirement, can_dec_provider)->Ok_0;
            &&& t.account(from).free == s.account(from).free - amount
            &&& t.account(to).free == s.account(to).free + amount
            &&& t.account(from).reserved == s.account(from).reserved
            &&& t.account(to).reserved == s.account(to).reserved
            &&& t.total_issuance == s.total_issuance
            &&& forall|w: AccountId| w != from && w != to ==> #[trigger] t.account(w) == s.account(w)
        }),
{
}

/// Minting changes nothing but the minted account's free balance and the
/// total issuance, and raises both by exactly the amount minted.
pub proof fn lemma_mint_raises_free_and_issuance(s: TokensView, who: AccountId, amount: Balance)
    ensures
        s.mint_into(who, amount) matches Ok(n) ==> {
            &&& n.account(who).free == s.account(who).free + amount
            &&& n.account(who).reserved == s.account(who).reserved
            &&& n.account(who).frozen == s.account(who).frozen
            &&& n.total_issuance == s.total_issuance + amount
            &&& forall|other: AccountId| other != who ==> #[trigger] n.account(other) == s.account(other)
        },
{
}

/// Releasing moves at most `amount`, and no more than is held, from the
/// held balance to the free one, and returns what it moved; when `amount`
/// is held and the free balance has room for it, exactly `amount` moves,
/// with or without `best_effort`.
pub proof fn lemma_release_moves_at_most_amount(s: TokensView, who: AccountId, amount: Balance, best_effort: bool)
    ensures
        s.release(who, amount, best_effort) matches Ok((n, moved)) ==> {
            &&& moved <= amount
            &&& moved <= s.account(who).reserved
            &&& n.account(who).free == s.account(who).free + moved
            &&& n.account(who).reserved == s.account(who).reserved - moved
            &&& n.total_issuance == s.total_issuance
        },
        amount <= s.account(who).reserved && s.account(who).free + amount <= u128::MAX ==>
            (s.release(who, amount, best_effort) matches Ok((_, moved)) && moved == amount),
{
    let a = s.account(who);
    if let Ok((n, moved)) = s.release(who, amount, best_effort) {
        if amount != 0 {
            let b = AccountData { free: sat_add(a.free, min_balance(amount, a.reserved)), reserved: sat_sub(a.reserved, moved), ..a };
            if b.total_spec() == 0 {
                assert(n.account(who) == AccountData::zero());
            }
        }
    }
}

/// Keeping the account alive (or when the system does not let it die),
/// what can be taken out leaves at least the existential deposit in it,
/// whenever it holds that much; it is never more than the free balance
/// above the frozen one.
pub proof fn lemma_reducible_keeps_existential_deposit(s: TokensView, who: AccountId, keep_alive: bool, can_dec_provider: bool)
    ensures
        s.reducible_balance(who, keep_alive, can_dec_provider) + s.account(who).frozen <= s.account(who).free
            || s.reducible_balance(who, keep_alive, can_dec_provider) == 0,
        s.reducible_balance(who, keep_alive, can_dec_provider) <= s.account(who).free,
        (keep_alive || !can_dec_provider) && s.account(who).total_spec() >= s.existential_deposit ==>
            s.account(who).total_spec() - s.reducible_balance(who, keep_alive, can_dec_provider) >= s.existential_deposit,
        !keep_alive && can_dec_provider ==> s.reducible_balance(who, keep_alive, can_dec_provider)
            == if s.account(who).free >= s.account(who).frozen { s.account(who).free - s.account(who).frozen } else { 0 },
{
}

/// Putting `amount` on hold is allowed exactly when the free balance
/// covers it above both the existential deposit and the frozen balance
/// (holding never eats into locked funds), and the held balance has room.
pub proof fn lemma_can_hold_keeps_locked_funds(s: TokensView, who: AccountId, amount: Balance)
    ensures
        s.can_hold(who, amount) ==> {
            &&& s.account(who).free >= s.account(who).frozen + amount
            &&& s.account(who).free >= s.existential_deposit + amount
        },
        s.can_hold(who, amount) <== {
            &&& s.account(who).free >= s.account(who).frozen + amount
            &&& s.account(who).free >= s.existential_deposit + amount
            &&& s.account(who).reserved + amount <= u128::MAX
        },
{
}

/// Depositing raises the free balance of `who` and the total issuance by
/// exactly the amount deposited, and leaves every other account as it was.
pub proof fn lemma_deposit_raises_free_and_issuance(s: TokensView, who: AccountId, amount: Balance)
    requires
        s.deposit_fits(who, amount),
    ensures
        s.deposit(who, amount) matches Ok(n) ==> {
            &&& n.account(who).free == s.account(who).free + amount
            &&& n.account(who).reserved == s.account(who).reserved
            &&& n.total_issuance == s.total_issuance + amount
            &&& forall|other: AccountId| other != who ==> #[trigger] n.account(other) == s.account(other)
        },
        s.deposit(who, amount) is Err <==> amount != 0 && s.total_issuance + amount > u128::MAX,
{
}

/// Withdrawing lowers the free balance of `who` and the total issuance by
/// exactly the amount withdrawn, never below the frozen balance, and
/// leaves every other account as it was.
pub proof fn lemma_withdraw_lowers_free_and_issuance(s: TokensView, who: AccountId, amount: Balance)
    requires
        s.withdraw_fits(who, amount),
    ensures
        s.withdraw(who, amount) matches Ok(n) ==> {
            &&& n.account(who).free == s.account(who).free - amount
            &&& n.account(who).reserved == s.account(who).reserved
            &&& n.total_issuance == s.total_issuance - amount
            &&& (amount != 0 ==> s.account(who).free - amount >= s.account(who).frozen)
            &&& forall|other: AccountId| other != who ==> #[trigger] n.account(other) == s.account(other)
        },
        amount != 0 ==> (s.withdraw(who, amount) is Ok <==> s.account(who).free >= amount + s.account(who).frozen),
{
}

/// Burning takes at least the amount asked (with the dust that would be
/// left behind) out of the free balance of `who` and out of the total
/// issuance, the same amount from both, and returns it.
pub proof fn lemma_burn_lowers_free_and_issuance(s: TokensView, who: AccountId, amount: Balance, can_dec_provider: bool)
    requires
        s.burn_fits(who, amount, can_dec_provider),
    ensures
        s.burn_from(who, amount, can_dec_provider) matches Ok((n, burnt)) ==> {
            &&& burnt >= amount
            &&& (amount == 0 ==> burnt == 0)
            &&& n.account(who).free == s.account(who).free - burnt
            &&& n.account(who).reserved == s.account(who).reserved
            &&& n.total_issuance == s.total_issuance - burnt
            &&& forall|other: AccountId| other != who ==> #[trigger] n.account(other) == s.account(other)
        },
{
}

/// Putting on hold moves exactly the amount from the free balance of `who`
/// to its held balance, keeping their sum and the total issuance.
pub proof fn lemma_hold_moves_amount(s: TokensView, who: AccountId, amount: Balance)
    requires
        amount != 0 && s.can_reserve(who, amount) ==> s.account(who).reserved + amount <= u128::MAX,
    ensures
        s.hold(who, amount) matches Ok(n) ==> {
            &&& n.account(who).free == s.account(who).free - amount
            &&& n.account(who).reserved == s.account(who).reserved + amount
            &&& n.total_issuance == s.total_issuance
            &&& forall|other: AccountId| other != who ==> #[trigger] n.account(other) == s.account(other)
        },
{
}

/// Reserving moves exactly the value from the free balance of `who` to its
/// reserved balance, never below the frozen balance.
pub proof fn lemma_reserve_moves_value(s: TokensView, who: AccountId, value: Balance)
    requires
        s.reserve_fits(who, value),
    ensures
        s.reserve(who, value) matches Ok(n) ==> {
            &&& n.account(who).free == s.account(who).free - value
            &&& n.account(who).reserved == s.account(who).reserved + value
            &&& (value != 0 ==> s.account(who).free - value >= s.account(who).frozen)
            &&& n.total_issuance == s.total_issuance
        },
{
}

/// Unreserving moves what is reserved, up to the value, back to the free
/// balance of `who`, and returns the part of the value that could not be
/// moved.
pub proof fn lemma_unreserve_moves_at_most_value(s: TokensView, who: AccountId, value: Balance)
    requires
        s.unreserve_fits(who, value),
    ensures
        ({
            let (n, left) = s.unreserve(who, value);
            let moved = value - left;
            &&& left <= value
            &&& moved <= s.account(who).reserved
            &&& (moved == value || moved == s.account(who).reserved)
            &&& n.account(who).reserved == s.account(who).reserved - moved
            &&& n.account(who).free == s.account(who).free + moved
            &&& n.total_issuance == s.total_issuance
        }),
{
}

/// A transfer between two accounts moves exactly the amount from the free
/// balance of the sender to that of the receiver, keeps the total
/// issuance, never takes the sender's free balance below its frozen one,
/// and leaves every other account as it was.
pub proof fn lemma_transfer_moves_amount(
    s: TokensView,
    from: AccountId,
    to: AccountId,
    amount: Balance,
    existence_requirement: ExistenceRequirement,
    can_dec_provider: bool,
)
    requires
        from != to,
    ensures
        s.transfer(from, to, amount, existence_requirement, can_dec_provider) matches Ok(n) ==> {
            &&& n.account(from).free == s.account(from).free - amount
            &&& n.account(to).free == s.account(to).free + amount
            &&& n.account(from).reserved == s.account(from).reserved
            &&& n.account(to).reserved == s.account(to).reserved
            &&& (amount != 0 ==> s.account(from).free - amount >= s.account(from).frozen)
            &&& n.total_issuance == s.total_issuance
            &&& forall|other: AccountId| other != from && other != to ==> #[trigger] n.account(other) == s.account(other)
        },
{
}

/// A deposit is found possible exactly when it overflows neither the total
/// issuance nor the account, and leaves the account with at least the
/// existential deposit.
pub proof fn lemma_deposit_consequence_success(s: TokensView, amount: Balance, account: AccountData)
    ensures
        amount != 0 ==> ((s.deposit_consequence(amount, account) == DepositConsequence::Success) <==> {
            &&& s.total_issuance + amount <= u128::MAX
            &&& account.total_spec() + amount <= u128::MAX
            &&& account.total_spec() + amount >= s.existential_deposit
        }),
{
}

/// A withdrawal found possible is covered by the free balance above the
/// frozen one and by the total issuance; it leaves at least the existential
/// deposit unless the account may die, and when it would leave less, the
/// dust left is given.
pub proof fn lemma_withdraw_consequence_allows(s: TokensView, amount: Balance, account: AccountData, can_dec_provider: bool)
    ensures
        amount != 0 && (s.withdraw_consequence(amount, account, can_dec_provider) is Success
            || s.withdraw_consequence(amount, account, can_dec_provider) is ReducedToZero) ==> {
            &&& account.free >= amount + account.frozen
            &&& s.total_issuance >= amount
            &&& account.total_spec() >= amount
            &&& (account.total_spec() - amount >= s.existential_deposit || can_dec_provider)
        },
        s.withdraw_consequence(amount, account, can_dec_provider) matches WithdrawConsequence::ReducedToZero(dust) ==>
            dust == account.total_spec() - amount && dust < s.existential_deposit,
        amount != 0 && s.withdraw_consequence(amount, account, can_dec_provider) is Success ==>
            account.total_spec() - amount >= s.existential_deposit,
{
}

/// The highest lock amount is at least the amount of each lock.
pub proof fn lemma_max_lock_amount_bounds(locks: Seq<BalanceLock>)
    ensures
        forall|k: int| 0 <= k < locks.len() ==> (#[trigger] locks[k]).amount <= max_lock_amount(locks),
        locks.len() == 0 ==> max_lock_amount(locks) == 0,
        locks.len() > 0 ==> exists|k: int| 0 <= k < locks.len() && (#[trigger] locks[k]).amount == max_lock_amount(locks),
    decreases locks.len(),
{
    if locks.len() > 0 {
        let p = locks.drop_last();
        lemma_max_lock_amount_bounds(p);
        assert forall|k: int| 0 <= k < locks.len() implies (#[trigger] locks[k]).amount <= max_lock_amount(locks) by {
            if k < p.len() {
                assert(p[k] == locks[k]);
            }
        }
        if p.len() > 0 && max_lock_amount(p) > locks.last().amount {
            let k = choose|k: int| 0 <= k < p.len() && (#[trigger] p[k]).amount == max_lock_amount(p);
            assert(locks[k] == p[k]);
        } else {
            assert(locks[locks.len() - 1] == locks.last());
        }
    }
}

/// Putting a lock keeps the locks under other identifiers, and leaves the
/// put lock under its identifier, once, when still pending (with the
/// larger of the two amounts when extending).
pub proof fn lemma_put_lock_places(locks: Seq<BalanceLock>, id: LockIdentifier, amount: Balance, pending: bool, extend: bool)
    ensures
        forall|l: BalanceLock| l.id@ != id@ ==> (put_lock(locks, id, amount, pending, extend).contains(l) <==> locks.contains(l)),
        forall|k: int| 0 <= k < put_lock(locks, id, amount, pending, extend).len()
            && (#[trigger] put_lock(locks, id, amount, pending, extend)[k]).id@ == id@ ==> {
                &&& pending
                &&& put_lock(locks, id, amount, pending, extend)[k].amount >= amount
                &&& (!extend ==> put_lock(locks, id, amount, pending, extend)[k].amount == amount)
                &&& forall|j: int| 0 <= j < put_lock(locks, id, amount, pending, extend).len() && j != k
                    ==> put_lock(locks, id, amount, pending, extend)[j].id@ != id@
            },
        pending ==> exists|k: int| 0 <= k < put_lock(locks, id, amount, pending, extend).len()
            && (#[trigger] put_lock(locks, id, amount, pending, extend)[k]).id@ == id@,
    decreases locks.len(),
{
    let r = put_lock(locks, id, amount, pending, extend);
    if locks.len() == 0 {
        if pending {
            assert(r[0].id@ == id@);
        }
    } else {
        let l = locks[0];
        let rest = locks.drop_first();
        assert forall|x: BalanceLock| locks.contains(x) <==> (x == l || rest.contains(x)) by {
            if locks.contains(x) && x != l {
                let k = choose|k: int| 0 <= k < locks.len() && locks[k] == x;
                assert(rest[k - 1] == x);
            }
            if rest.contains(x) {
                let k = choose|k: int| 0 <= k < rest.len() && rest[k] == x;
                assert(locks[k + 1] == x);
            }
            if x == l {
                assert(locks[0] == x);
            }
        }
        if l.id@ == id@ {
            lemma_put_lock_places(rest, id, amount, false, extend);
            let t = put_lock(rest, id, amount, false, extend);
            if pending {
                let placed = if extend {
                    BalanceLock { id: l.id, amount: max_balance(l.amount, amount) }
                } else {
                    BalanceLock { id, amount }
                };
                assert(r == seq![placed] + t);
                assert forall|x: BalanceLock| x.id@ != id@ implies (r.contains(x) <==> locks.contains(x)) by {
                    if r.contains(x) {
                        let k = choose|k: int| 0 <= k < r.len() && r[k] == x;
                        assert(k > 0);
                        assert(t[k - 1] == x);
                    }
                    if t.contains(x) {
                        let k = choose|k: int| 0 <= k < t.len() && t[k] == x;
                        assert(r[k + 1] == x);
                    }
                }
                assert forall|k: int| 0 <= k < r.len() && (#[trigger] r[k]).id@ == id@ implies {
                    &&& pending
                    &&& r[k].amount >= amount
                    &&& (!extend ==> r[k].amount == amount)
                    &&& forall|j: int| 0 <= j < r.len() && j != k ==> r[j].id@ != id@
                } by {
                    if k > 0 {
                        assert(t[k - 1] == r[k]);
                    }
                    assert forall|j: int| 0 <= j < r.len() && j != k implies r[j].id@ != id@ by {
                        if j > 0 {
                            assert(t[j - 1] == r[j]);
                        }
                    }
                }
                assert(r[0].id@ == id@);
            } else {
                assert(r == t);
            }
        } else {
            lemma_put_lock_places(rest, id, amount, pending, extend);
            let t = put_lock(rest, id, amount, pending, extend);
            assert(r == seq![l] + t);
            assert forall|x: BalanceLock| x.id@ != id@ implies (r.contains(x) <==> locks.contains(x)) by {
                if r.contains(x) {
                    let k = choose|k: int| 0 <= k < r.len() && r[k] == x;
                    if k > 0 {
                        assert(t[k - 1] == x);
                    }
                }
                if t.contains(x) {
                    let k = choose|k: int| 0 <= k < t.len() && t[k] == x;
                    assert(r[k + 1] == x);
                }
                if x == l {
                    assert(r[0] == x);
                }
            }
            assert forall|k: int| 0 <= k < r.len() && (#[trigger] r[k]).id@ == id@ implies {
                &&& pending
                &&& r[k].amount >= amount
                &&& (!extend ==> r[k].amount == amount)
                &&& forall|j: int| 0 <= j < r.len() && j != k ==> r[j].id@ != id@
            } by {
                assert(k > 0);
                assert(t[k - 1] == r[k]);
                assert forall|j: int| 0 <= j < r.len() && j != k implies r[j].id@ != id@ by {
                    if j > 0 {
                        assert(t[j - 1] == r[j]);
                    }
                }
            }
            if pending {
                let k = choose|k: int| 0 <= k < t.len() && (#[trigger] t[k]).id@ == id@;
                assert(r[k + 1] == t[k]);
            }
        }
    }
}

/// Setting a lock leaves exactly one lock under its identifier, with the
/// amount set, keeps the locks under other identifiers, and, while the
/// account exists, freezes at least that amount: the frozen balance is the
/// highest lock.
pub proof fn lemma_set_lock_freezes_amount(s: TokensView, id: LockIdentifier, who: AccountId, amount: Balance)
    requires
        amount != 0,
    ensures
        s.set_lock(id, who, amount).1 is Ok ==> {
            let n = s.set_lock(id, who, amount).0;
            &&& exists|k: int| 0 <= k < n.locks_of(who).len() && (#[trigger] n.locks_of(who)[k]).id@ == id@
            &&& forall|k: int| 0 <= k < n.locks_of(who).len() && (#[trigger] n.locks_of(who)[k]).id@ == id@
                ==> n.locks_of(who)[k].amount == amount
            &&& forall|l: BalanceLock| l.id@ != id@ ==> (n.locks_of(who).contains(l) <==> s.locks_of(who).contains(l))
            &&& (s.account(who).total_spec() != 0 ==> {
                &&& n.account(who).frozen >= amount
                &&& n.account(who).frozen == max_lock_amount(n.locks_of(who))
                &&& n.account(who).free == s.account(who).free
            })
        },
{
    let locks = put_lock(s.locks_of(who), id, amount, true, false);
    lemma_put_lock_places(s.locks_of(who), id, amount, true, false);
    lemma_max_lock_amount_bounds(locks);
    if s.set_lock(id, who, amount).1 is Ok {
        let n = s.set_lock(id, who, amount).0;
        assert(locks.len() > 0) by {
            let k = choose|k: int| 0 <= k < locks.len() && (#[trigger] locks[k]).id@ == id@;
        }
        assert(n.locks_of(who) == locks);
        let k = choose|k: int| 0 <= k < locks.len() && (#[trigger] locks[k]).id@ == id@;
        assert(locks[k].amount <= max_lock_amount(locks));
    }
}

/// Dropping the locks under an identifier keeps exactly the others.
pub proof fn lemma_drop_lock_keeps_others(locks: Seq<BalanceLock>, id: LockIdentifier)
    ensures
        forall|l: BalanceLock| #[trigger] drop_lock(locks, id).contains(l) <==> (locks.contains(l) && l.id@ != id@),
    decreases locks.len(),
{
    if locks.len() > 0 {
        let rest = locks.drop_first();
        lemma_drop_lock_keeps_others(rest, id);
        let r = drop_lock(locks, id);
        let t = drop_lock(rest, id);
        assert forall|l: BalanceLock| #[trigger] r.contains(l) <==> (locks.contains(l) && l.id@ != id@) by {
            if locks.contains(l) {
                let k = choose|k: int| 0 <= k < locks.len() && locks[k] == l;
                if k > 0 {
                    assert(rest[k - 1] == l);
                }
            }
            if rest.contains(l) {
                let k = choose|k: int| 0 <= k < rest.len() && rest[k] == l;
                assert(locks[k + 1] == l);
            }
            if locks[0].id@ == id@ {
                assert(r == t);
            } else {
                assert(r == seq![locks[0]] + t);
                if r.contains(l) {
                    let k = choose|k: int| 0 <= k < r.len() && r[k] == l;
                    if k > 0 {
                        assert(t[k - 1] == l);
                    } else {
                        assert(locks[0] == l);
                    }
                }
                if t.contains(l) {
                    let k = choose|k: int| 0 <= k < t.len() && t[k] == l;
                    assert(r[k + 1] == l);
                }
                if l == locks[0] {
                    assert(r[0] == l);
                }
            }
        }
    }
}

/// Removing a lock leaves no lock under its identifier and keeps the
/// others; while the account exists, the frozen balance is the highest
/// lock left.
pub proof fn lemma_remove_lock_unfreezes(s: TokensView, id: LockIdentifier, who: AccountId)
    ensures
        s.remove_lock(id, who).1 is Ok ==> {
            let n = s.remove_lock(id, who).0;
            &&& forall|l: BalanceLock| #[trigger] n.locks_of(who).contains(l) <==> (s.locks_of(who).contains(l) && l.id@ != id@)
            &&& (s.account(who).total_spec() != 0 ==> n.account(who).frozen == max_lock_amount(n.locks_of(who)))
        },
{
    let locks = drop_lock(s.locks_of(who), id);
    lemma_drop_lock_keeps_others(s.locks_of(who), id);
    if s.remove_lock(id, who).1 is Ok {
        let n = s.remove_lock(id, who).0;
        if locks.len() == 0 {
            assert(n.locks_of(who) =~= locks);
        } else {
            assert(n.locks_of(who) == locks);
        }
    }
}

} // verus!
