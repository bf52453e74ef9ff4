//! The balances pallet: free and reserved balances of accounts, an
//! existential deposit below which accounts are removed, and transfers.

use vstd::prelude::*;
use std::collections::HashMap;
use crate::common::{
    ensure_root, ensure_signed, AccountId, ArithmeticError, Balance, BalancesError, DispatchError,
    ExistenceRequirement, RawOrigin, WithdrawReasons, TRANSACTION_PAYMENT, TRANSFER,
};

verus! {

broadcast use vstd::std_specs::hash::group_hash_axioms;

/// `a + b`, or the largest balance when that overflows.
pub open spec fn sat_add(a: Balance, b: Balance) -> Balance {
    if a + b > u128::MAX { u128::MAX } else { (a + b) as Balance }
}

/// `a - b`, or zero when that underflows.
pub open spec fn sat_sub(a: Balance, b: Balance) -> Balance {
    if a < b { 0 } else { (a - b) as Balance }
}

/// Simplified reasons for withdrawing balance.
#[derive(Clone, Copy, Debug, PartialEq, Eq, Structural)]
pub enum Reasons {
    /// Paying system transaction fees.
    Fee,
    /// Any reason other than paying system transaction fees.
    Misc,
    /// Any reason at all.
    All,
}

/// The simplified reason for a set of withdrawal reasons: `Fee` for exactly
/// transaction payment, `All` when transaction payment is among others,
/// `Misc` otherwise.
pub open spec fn reasons_of(r: WithdrawReasons) -> Reasons {
    if r.bits == TRANSACTION_PAYMENT {
        Reasons::Fee
    } else if r.bits & TRANSACTION_PAYMENT == TRANSACTION_PAYMENT {
        Reasons::All
    } else {
        Reasons::Misc
    }
}

impl Reasons {
    /// The simplified reason for a set of withdrawal reasons.
    pub fn from_withdraw_reasons(r: WithdrawReasons) -> (out: Reasons)
        ensures
            out == reasons_of(r),
    {
        if r == WithdrawReasons::from_bits(TRANSACTION_PAYMENT) {
            Reasons::Fee
        } else if r.contains(WithdrawReasons::from_bits(TRANSACTION_PAYMENT)) {
            Reasons::All
        } else {
            Reasons::Misc
        }
    }

    /// Union of two reasons: the reason itself when both agree, `All`
    /// otherwise.
    pub fn bitor(self, other: Reasons) -> (out: Reasons)
        ensures
            out == (if self == other { self } else { Reasons::All }),
    {
        if self == other {
            return self;
        }
        Reasons::All
    }
}

/// All balance information for an account.
#[derive(Clone, Copy, Debug, PartialEq, Eq, Structural)]
pub struct AccountData {
    /// Non-reserved part of the balance; what may be transferred, reserved
    /// and used for tipping.
    pub free: Balance,
    /// Balance which is reserved and may not be used at all.
    pub reserved: Balance,
    /// The amount that `free` may not drop below when withdrawing for
    /// anything except transaction fee payment.
    pub misc_frozen: Balance,
    /// The amount that `free` may not drop below when withdrawing
    /// specifically for transaction fee payment.
    pub fee_frozen: Balance,
}

impl Default for AccountData {
    fn default() -> (r: AccountData)
        ensures
            r == AccountData::zero(),
    {
        AccountData { free: 0, reserved: 0, misc_frozen: 0, fee_frozen: 0 }
    }
}

impl AccountData {
    /// An account with nothing.
    pub open spec fn zero() -> AccountData {
        AccountData { free: 0, reserved: 0, misc_frozen: 0, fee_frozen: 0 }
    }

    /// The amount `free` may not drop below for `reasons`.
    pub open spec fn frozen_spec(self, reasons: Reasons) -> Balance {
        match reasons {
            Reasons::All => if self.misc_frozen >= self.fee_frozen { self.misc_frozen } else { self.fee_frozen },
            Reasons::Misc => self.misc_frozen,
            Reasons::Fee => self.fee_frozen,
        }
    }

    /// Free plus reserved, saturating.
    pub open spec fn total_spec(self) -> Balance {
        sat_add(self.free, self.reserved)
    }

    /// How much this account's balance can be reduced for the given
    /// `reasons`.
    pub fn usable(&self, reasons: Reasons) -> (r: Balance)
        ensures
            r == sat_sub(self.free, self.frozen_spec(reasons)),
    {
        self.free.saturating_sub(self.frozen(reasons))
    }

    /// The amount that this account's free balance may not be reduced
    /// beyond for the given `reasons`.
    pub fn frozen(&self, reasons: Reasons) -> (r: Balance)
        ensures
            r == self.frozen_spec(reasons),
    {
        match reasons {
            Reasons::All => if self.misc_frozen >= self.fee_frozen { self.misc_frozen } else { self.fee_frozen },
            Reasons::Misc => self.misc_frozen,
            Reasons::Fee => self.fee_frozen,
        }
    }

    /// The total balance in this account including any that is reserved
    /// and ignoring any frozen.
    pub fn total(&self) -> (r: Balance)
        ensures
            r == self.total_spec(),
    {
        self.free.saturating_add(self.reserved)
    }
}

/// Events of the balances pallet.
#[derive(Clone, Copy, Debug, PartialEq, Eq, Structural)]
pub enum Event {
    /// An account was created with some free balance.
    Endowed(AccountId, Balance),
    /// An account was removed whose balance was non-zero but below the
    /// existential deposit.
    DustLost(AccountId, Balance),
    /// Transfer succeeded: from, to, value.
    Transfer(AccountId, AccountId, Balance),
    /// A balance was set by root: who, free, reserved.
    BalanceSet(AccountId, Balance, Balance),
    /// Some amount was deposited.
    Deposit(AccountId, Balance),
    /// Some balance was reserved.
    Reserved(AccountId, Balance),
    /// Some balance was unreserved.
    Unreserved(AccountId, Balance),
}

/// The storage of the balances pallet.
pub struct BalancesState {
    accounts: HashMap<AccountId, AccountData>,
    total_issuance: Balance,
    existential_deposit: Balance,
    events: Vec<Event>,
}

/// What the balances pallet stores.
pub struct BalancesView {
    /// Stored accounts; an account that is not stored has nothing.
    pub accounts: Map<AccountId, AccountData>,
    /// The total units issued.
    pub total_issuance: Balance,
    /// The minimum total an account must hold to stay stored.
    pub existential_deposit: Balance,
    /// Events deposited so far.
    pub events: Seq<Event>,
}

impl View for BalancesState {
    type V = BalancesView;

    closed spec fn view(&self) -> BalancesView {
        BalancesView {
            accounts: self.accounts@,
            total_issuance: self.total_issuance,
            existential_deposit: self.existential_deposit,
            events: self.events@,
        }
    }
}

impl BalancesView {
    /// The account of `who`; nothing when it is not stored.
    pub open spec fn account(self, who: AccountId) -> AccountData {
        if self.accounts.contains_key(who) { self.accounts[who] } else { AccountData::zero() }
    }

    /// Storing `account` for `who` after a successful mutation: the account
    /// is removed when its total is below the existential deposit, and an
    /// `Endowed` event is deposited when it was not stored before.
    pub open spec fn commit(self, who: AccountId, account: AccountData) -> BalancesView {
        let is_new = !self.accounts.contains_key(who);
        BalancesView {
            accounts: if account.total_spec() < self.existential_deposit {
                self.accounts.remove(who)
            } else {
                self.accounts.insert(who, account)
            },
            events: if is_new { self.events.push(Event::Endowed(who, account.free)) } else { self.events },
            ..self
        }
    }

    /// Depositing an event.
    pub open spec fn deposit(self, e: Event) -> BalancesView {
        BalancesView { events: self.events.push(e), ..self }
    }

    /// Outcome of checking that `who` may withdraw `amount` leaving
    /// `new_balance` free.
    pub open spec fn can_withdraw(self, who: AccountId, amount: Balance, reasons: WithdrawReasons, new_balance: Balance) -> Result<(), DispatchError> {
        if amount == 0 {
            Ok(())
        } else if new_balance >= self.account(who).frozen_spec(reasons_of(reasons)) {
            Ok(())
        } else {
            Err(DispatchError::Balances(BalancesError::LiquidityRestrictions))
        }
    }
}

/// Outcome of a transfer that requires both accounts to keep the
/// existential deposit (the transfer of the pallet's dispatchables).
pub open spec fn transfer_keeping_deposit(
    s: BalancesView,
    transactor: AccountId,
    dest: AccountId,
    value: Balance,
    existence_requirement: ExistenceRequirement,
    provider_required: bool,
) -> Result<BalancesView, DispatchError> {
    let ed = s.existential_deposit;
    let from = s.account(transactor);
    let to = s.account(dest);
    if value == 0 || transactor == dest {
        Ok(s)
    } else if from.free < value {
        Err(DispatchError::Balances(BalancesError::InsufficientBalance))
    } else {
        let from2 = AccountData { free: (from.free - value) as Balance, ..from };
        if from2.total_spec() < ed {
            Err(DispatchError::Balances(BalancesError::ExistentialDeposit))
        } else if to.free + value > u128::MAX {
            Err(DispatchError::Arithmetic(ArithmeticError::Overflow))
        } else {
            let to2 = AccountData { free: (to.free + value) as Balance, ..to };
            if to2.total_spec() < ed {
                Err(DispatchError::Balances(BalancesError::ExistentialDeposit))
            } else if s.can_withdraw(transactor, value, WithdrawReasons { bits: TRANSFER }, from2.free) is Err {
                Err(DispatchError::Balances(BalancesError::LiquidityRestrictions))
            } else if !(existence_requirement == ExistenceRequirement::AllowDeath && !provider_required)
                && from2.total_spec() < ed {
                Err(DispatchError::Balances(BalancesError::KeepAlive))
            } else {
                Ok(s.commit(transactor, from2).commit(dest, to2).deposit(Event::Transfer(transactor, dest, value)))
            }
        }
    }
}

/// Outcome of a transfer that lets the sender drop below the existential
/// deposit when death is allowed (the pallet's currency implementation).
pub open spec fn transfer_allowing_death(
    s: BalancesView,
    transactor: AccountId,
    dest: AccountId,
    value: Balance,
    existence_requirement: ExistenceRequirement,
    provider_required: bool,
) -> Result<BalancesView, DispatchError> {
    let ed = s.existential_deposit;
    let from = s.account(transactor);
    let to = s.account(dest);
    if value == 0 || transactor == dest {
        Ok(s)
    } else if from.free < value {
        Err(DispatchError::Balances(BalancesError::InsufficientBalance))
    } else if to.free + value > u128::MAX {
        Err(DispatchError::Arithmetic(ArithmeticError::Overflow))
    } else {
        let from2 = AccountData { free: (from.free - value) as Balance, ..from };
        let to2 = AccountData { free: (to.free + value) as Balance, ..to };
        if to2.total_spec() < ed {
            Err(DispatchError::Balances(BalancesError::ExistentialDeposit))
        } else if s.can_withdraw(transactor, value, WithdrawReasons { bits: TRANSFER }, from2.free) is Err {
            Err(DispatchError::Balances(BalancesError::LiquidityRestrictions))
        } else if !(existence_requirement == ExistenceRequirement::AllowDeath && !provider_required)
            && from2.total_spec() < ed {
            Err(DispatchError::Balances(BalancesError::KeepAlive))
        } else {
            Ok(s.commit(transactor, from2).commit(dest, to2).deposit(Event::Transfer(transactor, dest, value)))
        }
    }
}

/// `new` is `old` after `outcome`: the new state on success, unchanged on
/// failure.
pub open spec fn follows(old: BalancesView, new: BalancesView, r: Result<(), DispatchError>, outcome: Result<BalancesView, DispatchError>) -> bool {
    match outcome {
        Ok(v) => r is Ok && new == v,
        Err(e) => r == Err::<(), DispatchError>(e) && new == old,
    }
}

impl BalancesState {
    /// Empty storage with the given existential deposit.
    pub fn new(existential_deposit: Balance) -> (r: Self)
        ensures
            r@.accounts == Map::<AccountId, AccountData>::empty(),
            r@.total_issuance == 0,
            r@.existential_deposit == existential_deposit,
            r@.events == Seq::<Event>::empty(),
    {
        BalancesState { accounts: HashMap::new(), total_issuance: 0, existential_deposit, events: Vec::new() }
    }

    /// The events deposited so far.
    pub fn events(&self) -> (r: &Vec<Event>)
        ensures
            r@ == self@.events,
    {
        &self.events
    }

    /// The stored account of `who`, or nothing.
    fn get_account(&self, who: AccountId) -> (r: AccountData)
        ensures
            r == self@.account(who),
    {
        match self.accounts.get(&who) {
            Some(a) => *a,
            None => AccountData::default(),
        }
    }

    /// Stores `account` for `who` after a successful mutation.
    fn commit_account(&mut self, who: AccountId, account: AccountData)
        ensures
            final(self)@ == old(self)@.commit(who, account),
    {
        let is_new = !self.accounts.contains_key(&who);
        if account.total() < self.existential_deposit {
            self.accounts.remove(&who);
        } else {
            self.accounts.insert(who, account);
        }
        if is_new {
            self.events.push(Event::Endowed(who, account.free));
        }
    }

    fn deposit_event(&mut self, e: Event)
        ensures
            final(self)@ == old(self)@.deposit(e),
    {
        self.events.push(e);
    }
}

/// The currency operations of the pallet.
pub trait VerticCurrency {
    /// The combined balance of `who`.
    fn total_balance(state: &BalancesState, who: AccountId) -> Balance;

    /// The total amount of issuance in the system.
    fn total_issuance(state: &BalancesState) -> Balance;

    /// The minimum balance any single account may have.
    fn minimum_balance(state: &BalancesState) -> Balance;

    /// The free balance of `who`.
    fn free_balance(state: &BalancesState, who: AccountId) -> Balance;

    /// `Ok` iff `who` may withdraw `amount` for `reasons` leaving
    /// `new_balance` free.
    fn ensure_can_withdraw(
        state: &BalancesState,
        who: AccountId,
        amount: Balance,
        reasons: WithdrawReasons,
        new_balance: Balance,
    ) -> Result<(), DispatchError>;

    /// Transfers `value` of free balance from `source` to `dest`.
    /// `provider_required` tells whether the system needs `source` to keep
    /// existing.
    fn transfer(
        state: &mut BalancesState,
        source: AccountId,
        dest: AccountId,
        value: Balance,
        existence_requirement: ExistenceRequirement,
        provider_required: bool,
    ) -> Result<(), DispatchError>;
}

/// The pallet.
pub struct Pallet;

/// The currency implementation used by the pallet's dispatchables.
pub struct PalletImpl;

/// The pallet's own currency implementation, whose transfer lets the
/// sender fall below the existential deposit.
pub struct PalletCurrency;

} // verus!

verus! {

impl BalancesState {
    /// Shared body of both transfers; `check_sender_deposit` selects whether
    /// the sender must keep the existential deposit.
    fn do_transfer(
        &mut self,
        transactor: AccountId,
        dest: AccountId,
        value: Balance,
        existence_requirement: ExistenceRequirement,
        provider_required: bool,
        check_sender_deposit: bool,
    ) -> (r: Result<(), DispatchError>)
        ensures
            follows(
                old(self)@,
                final(self)@,
                r,
                if check_sender_deposit {
                    transfer_keeping_deposit(old(self)@, transactor, dest, value, existence_requirement, provider_required)
                } else {
                    transfer_allowing_death(old(self)@, transactor, dest, value, existence_requirement, provider_required)
                },
            ),
    {
        if value == 0 || transactor == dest {
            return Ok(());
        }
        let ed = self.existential_deposit;
        let mut to_account = self.get_account(dest);
        let mut from_account = self.get_account(transactor);
        if from_account.free < value {
            return Err(DispatchError::Balances(BalancesError::InsufficientBalance));
        }
        let from_free = from_account.free - value;
        if check_sender_deposit {
            let from_after = AccountData { free: from_free, ..from_account };
            if from_after.total() < ed {
                return Err(DispatchError::Balances(BalancesError::ExistentialDeposit));
            }
        }
        let to_free = match to_account.free.checked_add(value) {
            Some(f) => f,
            None => return Err(DispatchError::Arithmetic(ArithmeticError::Overflow)),
        };
        from_account.free = from_free;
        to_account.free = to_free;
        if to_account.total() < ed {
            return Err(DispatchError::Balances(BalancesError::ExistentialDeposit));
        }
        let frozen = self.get_account(transactor).frozen(Reasons::from_withdraw_reasons(WithdrawReasons::from_bits(TRANSFER)));
        if value != 0 && from_account.free < frozen {
            return Err(DispatchError::Balances(BalancesError::LiquidityRestrictions));
        }
        let allow_death = existence_requirement == ExistenceRequirement::AllowDeath;
        let allow_death = allow_death && !provider_required;
        if !(allow_death || from_account.total() >= ed) {
            return Err(DispatchError::Balances(BalancesError::KeepAlive));
        }
        self.commit_account(transactor, from_account);
        self.commit_account(dest, to_account);
        self.deposit_event(Event::Transfer(transactor, dest, value));
        Ok(())
    }
}

impl VerticCurrency for PalletCurrency {
    fn total_balance(state: &BalancesState, who: AccountId) -> (r: Balance)
        ensures
            r == state@.account(who).total_spec(),
    {
        state.get_account(who).total()
    }

    fn total_issuance(state: &BalancesState) -> (r: Balance)
        ensures
            r == state@.total_issuance,
    {
        state.total_issuance
    }

    fn minimum_balance(state: &BalancesState) -> (r: Balance)
        ensures
            r == state@.existential_deposit,
    {
        state.existential_deposit
    }

    fn free_balance(state: &BalancesState, who: AccountId) -> (r: Balance)
        ensures
            r == state@.account(who).free,
    {
        state.get_account(who).free
    }

    fn ensure_can_withdraw(
        state: &BalancesState,
        who: AccountId,
        amount: Balance,
        reasons: WithdrawReasons,
        new_balance: Balance,
    ) -> (r: Result<(), DispatchError>)
        ensures
            r == state@.can_withdraw(who, amount, reasons, new_balance),
    {
        if amount == 0 {
            return Ok(());
        }
        let min_balance = state.get_account(who).frozen(Reasons::from_withdraw_reasons(reasons));
        if new_balance >= min_balance {
            Ok(())
        } else {
            Err(DispatchError::Balances(BalancesError::LiquidityRestrictions))
        }
    }

    /// Transfers `value`; the sender may fall below the existential deposit
    /// (and be removed) when death is allowed and no provider is required.
    fn transfer(
        state: &mut BalancesState,
        source: AccountId,
        dest: AccountId,
        value: Balance,
        existence_requirement: ExistenceRequirement,
        provider_required: bool,
    ) -> (r: Result<(), DispatchError>)
        ensures
            follows(
                old(state)@,
                final(state)@,
                r,
                transfer_allowing_death(old(state)@, source, dest, value, existence_requirement, provider_required),
            ),
    {
        state.do_transfer(source, dest, value, existence_requirement, provider_required, false)
    }
}

impl VerticCurrency for PalletImpl {
    fn total_balance(state: &BalancesState, who: AccountId) -> (r: Balance)
        ensures
            r == state@.account(who).total_spec(),
    {
        state.get_account(who).total()
    }

    fn total_issuance(state: &BalancesState) -> (r: Balance)
        ensures
            r == state@.total_issuance,
    {
        state.total_issuance
    }

    fn minimum_balance(state: &BalancesState) -> (r: Balance)
        ensures
            r == state@.existential_deposit,
    {
        state.existential_deposit
    }

    fn free_balance(state: &BalancesState, who: AccountId) -> (r: Balance)
        ensures
            r == state@.account(who).free,
    {
        state.get_account(who).free
    }

    fn ensure_can_withdraw(
        state: &BalancesState,
        who: AccountId,
        amount: Balance,
        reasons: WithdrawReasons,
        new_balance: Balance,
    ) -> (r: Result<(), DispatchError>)
        ensures
            r == state@.can_withdraw(who, amount, reasons, new_balance),
    {
        if amount == 0 {
            return Ok(());
        }
        let min_balance = state.get_account(who).frozen(Reasons::from_withdraw_reasons(reasons));
        if new_balance >= min_balance {
            Ok(())
        } else {
            Err(DispatchError::Balances(BalancesError::LiquidityRestrictions))
        }
    }

    /// Transfers `value`; both accounts must keep the existential deposit.
    fn transfer(
        state: &mut BalancesState,
        source: AccountId,
        dest: AccountId,
        value: Balance,
        existence_requirement: ExistenceRequirement,
        provider_required: bool,
    ) -> (r: Result<(), DispatchError>)
        ensures
            follows(
                old(state)@,
                final(state)@,
                r,
                transfer_keeping_deposit(old(state)@, source, dest, value, existence_requirement, provider_required),
            ),
    {
        state.do_transfer(source, dest, value, existence_requirement, provider_required, true)
    }
}

/// Outcome of root setting the balances of `who`: both are zeroed when
/// their sum is below the existential deposit.
pub open spec fn set_balance_outcome(
    s: BalancesView,
    origin: RawOrigin,
    who: AccountId,
    new_free: Balance,
    new_reserved: Balance,
) -> Result<BalancesView, DispatchError> {
    if !(origin is Root) {
        Err(DispatchError::BadOrigin)
    } else {
        let wipeout = new_free + new_reserved < s.existential_deposit;
        let free: Balance = if wipeout { 0 } else { new_free };
        let reserved: Balance = if wipeout { 0 } else { new_reserved };
        let account = AccountData { free, reserved, ..s.account(who) };
        Ok(s.commit(who, account).deposit(Event::BalanceSet(who, free, reserved)))
    }
}

impl Pallet {
    /// Transfers `value` from the signer to `dest`; the signer's account may
    /// not drop below the existential deposit.
    pub fn transfer(state: &mut BalancesState, origin: RawOrigin, dest: AccountId, value: Balance, provider_required: bool) -> (r: Result<(), DispatchError>)
        ensures
            match origin {
                RawOrigin::Signed(who) => follows(
                    old(state)@,
                    final(state)@,
                    r,
                    transfer_keeping_deposit(old(state)@, who, dest, value, ExistenceRequirement::AllowDeath, provider_required),
                ),
                _ => r == Err::<(), DispatchError>(DispatchError::BadOrigin) && final(state)@ == old(state)@,
            },
    {
        let transactor = ensure_signed(origin)?;
        <PalletImpl as VerticCurrency>::transfer(state, transactor, dest, value, ExistenceRequirement::AllowDeath, provider_required)
    }

    /// Transfers `value` from the signer to `dest`, keeping the signer
    /// alive.
    pub fn transfer_keep_alive(state: &mut BalancesState, origin: RawOrigin, dest: AccountId, value: Balance, provider_required: bool) -> (r: Result<(), DispatchError>)
        ensures
            match origin {
                RawOrigin::Signed(who) => follows(
                    old(state)@,
                    final(state)@,
                    r,
                    transfer_keeping_deposit(old(state)@, who, dest, value, ExistenceRequirement::KeepAlive, provider_required),
                ),
                _ => r == Err::<(), DispatchError>(DispatchError::BadOrigin) && final(state)@ == old(state)@,
            },
    {
        let transactor = ensure_signed(origin)?;
        <PalletImpl as VerticCurrency>::transfer(state, transactor, dest, value, ExistenceRequirement::KeepAlive, provider_required)
    }

    /// Root sets the free and reserved balances of `who`.
    pub fn set_balance(state: &mut BalancesState, origin: RawOrigin, who: AccountId, new_free: Balance, new_reserved: Balance) -> (r: Result<(), DispatchError>)
        requires
            new_free + new_reserved <= u128::MAX,
        ensures
            follows(old(state)@, final(state)@, r, set_balance_outcome(old(state)@, origin, who, new_free, new_reserved)),
    {
        ensure_root(origin)?;
        let existential_deposit = state.existential_deposit;
        let wipeout = new_free + new_reserved < existential_deposit;
        let new_free = if wipeout { 0 } else { new_free };
        let new_reserved = if wipeout { 0 } else { new_reserved };
        let mut account = state.get_account(who);
        account.free = new_free;
        account.reserved = new_reserved;
        let (free, reserved) = (account.free, account.reserved);
        state.commit_account(who, account);
        state.deposit_event(Event::BalanceSet(who, free, reserved));
        Ok(())
    }

    /// The free balance of `who`.
    pub fn free_balance(state: &BalancesState, who: AccountId) -> (r: Balance)
        ensures
            r == state@.account(who).free,
    {
        state.get_account(who).free
    }

    /// The balance of `who` usable for transfers, reservations and any
    /// other non-locking, non-transaction-fee activity.
    pub fn usable_balance(state: &BalancesState, who: AccountId) -> (r: Balance)
        ensures
            r == sat_sub(state@.account(who).free, state@.account(who).misc_frozen),
    {
        state.get_account(who).usable(Reasons::Misc)
    }

    /// The balance of `who` usable for paying transaction fees.
    pub fn usable_balance_for_fees(state: &BalancesState, who: AccountId) -> (r: Balance)
        ensures
            r == sat_sub(state@.account(who).free, state@.account(who).fee_frozen),
    {
        state.get_account(who).usable(Reasons::Fee)
    }

    /// The reserved balance of `who`.
    pub fn reserved_balance(state: &BalancesState, who: AccountId) -> (r: Balance)
        ensures
            r == state@.account(who).reserved,
    {
        state.get_account(who).reserved
    }

    /// Both the free and reserved balances of `who`.
    pub fn account(state: &BalancesState, who: AccountId) -> (r: AccountData)
        ensures
            r == state@.account(who),
    {
        state.get_account(who)
    }
}

/// The genesis configuration of the pallet.
pub struct GenesisConfig {
    /// Initial free balances.
    pub balances: Vec<(AccountId, Balance)>,
}

/// Sum of the balances in a genesis list.
pub open spec fn genesis_total(balances: Seq<(AccountId, Balance)>) -> nat
    decreases balances.len(),
{
    if balances.len() == 0 {
        0
    } else {
        genesis_total(balances.drop_last()) + balances.last().1 as nat
    }
}

/// The genesis list is acceptable: every balance reaches the existential
/// deposit, no account is listed twice and the total fits.
pub open spec fn genesis_ok(balances: Seq<(AccountId, Balance)>, existential_deposit: Balance) -> bool {
    &&& forall|i: int| 0 <= i < balances.len() ==> #[trigger] balances[i].1 >= existential_deposit
    &&& forall|i: int, j: int| 0 <= i < j < balances.len() ==> #[trigger] balances[i].0 != #[trigger] balances[j].0
    &&& genesis_total(balances) <= u128::MAX
}

proof fn lemma_genesis_total_prefix(balances: Seq<(AccountId, Balance)>, i: int)
    requires
        0 <= i <= balances.len(),
    ensures
        genesis_total(balances.take(i)) <= genesis_total(balances),
    decreases balances.len() - i,
{
    if i < balances.len() {
        lemma_genesis_total_prefix(balances, i + 1);
        assert(balances.take(i + 1).drop_last() =~= balances.take(i));
    } else {
        assert(balances.take(i) =~= balances);
    }
}

impl GenesisConfig {
    /// Writes the genesis balances into `storage`: the total issuance is
    /// their sum and each listed account gets its free balance.
    pub fn assimilate_storage(&self, storage: &mut BalancesState)
        requires
            genesis_ok(self.balances@, old(storage)@.existential_deposit),
        ensures
            final(storage)@.total_issuance == genesis_total(self.balances@),
            final(storage)@.existential_deposit == old(storage)@.existential_deposit,
            final(storage)@.events == old(storage)@.events,
            forall|i: int| 0 <= i < self.balances@.len() ==> #[trigger] final(storage)@.accounts[self.balances@[i].0]
                == (AccountData { free: self.balances@[i].1, ..AccountData::zero() }),
            forall|i: int| 0 <= i < self.balances@.len() ==> final(storage)@.accounts.contains_key(#[trigger] self.balances@[i].0),
            forall|who: AccountId| #![auto] !(exists|i: int| 0 <= i < self.balances@.len() && self.balances@[i].0 == who)
                ==> final(storage)@.accounts.get(who) == old(storage)@.accounts.get(who),
    {
        let mut total: Balance = 0;
        let mut i: usize = 0;
        while i < self.balances.len()
            invariant
                i <= self.balances@.len(),
                genesis_ok(self.balances@, storage@.existential_deposit),
                total == genesis_total(self.balances@.take(i as int)),
                storage@.existential_deposit == old(storage)@.existential_deposit,
                storage@.events == old(storage)@.events,
                forall|j: int| 0 <= j < i ==> #[trigger] storage@.accounts[self.balances@[j].0]
                    == (AccountData { free: self.balances@[j].1, ..AccountData::zero() }),
                forall|j: int| 0 <= j < i ==> storage@.accounts.contains_key(#[trigger] self.balances@[j].0),
                forall|who: AccountId| #![auto] !(exists|j: int| 0 <= j < i && self.balances@[j].0 == who)
                    ==> storage@.accounts.get(who) == old(storage)@.accounts.get(who),
            decreases self.balances@.len() - i,
        {
            let (who, free) = self.balances[i];
            proof {
                lemma_genesis_total_prefix(self.balances@, i as int + 1);
                assert(self.balances@.take(i as int + 1).drop_last() =~= self.balances@.take(i as int));
            }
            total = total + free;
            storage.accounts.insert(who, AccountData { free, reserved: 0, misc_frozen: 0, fee_frozen: 0 });
            proof {
                assert forall|j: int| 0 <= j < i implies #[trigger] self.balances@[j].0 != who by {
                    assert(self.balances@[j].0 != self.balances@[i as int].0);
                }
            }
            i = i + 1;
        }
        proof {
            assert(self.balances@.take(i as int) =~= self.balances@);
        }
        storage.total_issuance = total;
    }

    /// Builds the genesis storage of the pallet.
    pub fn build_storage(&self, existential_deposit: Balance) -> (r: BalancesState)
        requires
            genesis_ok(self.balances@, existential_deposit),
        ensures
            r@.total_issuance == genesis_total(self.balances@),
            r@.existential_deposit == existential_deposit,
            r@.events == Seq::<Event>::empty(),
            forall|i: int| 0 <= i < self.balances@.len() ==> #[trigger] r@.accounts[self.balances@[i].0]
                == (AccountData { free: self.balances@[i].1, ..AccountData::zero() }),
            forall|who: AccountId| r@.accounts.contains_key(who) <==>
                exists|i: int| 0 <= i < self.balances@.len() && #[trigger] self.balances@[i].0 == who,
    {
        let mut storage = BalancesState::new(existential_deposit);
        self.assimilate_storage(&mut storage);
        proof {
            assert forall|who: AccountId| storage@.accounts.contains_key(who) implies
                exists|i: int| 0 <= i < self.balances@.len() && #[trigger] self.balances@[i].0 == who by {
                if !(exists|i: int| 0 <= i < self.balances@.len() && #[trigger] self.balances@[i].0 == who) {
                    assert(storage@.accounts.get(who) == Map::<AccountId, AccountData>::empty().get(who));
                }
            }
        }
        storage
    }
}

} // verus!

verus! {

/// A transfer between two accounts that both keep the existential deposit
/// moves exactly `value` from the sender's free balance to the receiver's,
/// keeps the total issuance and touches no other account.
pub proof fn lemma_transfer_moves_value(
    s: BalancesView,
    transactor: AccountId,
    dest: AccountId,
    value: Balance,
    existence_requirement: ExistenceRequirement,
    provider_required: bool,
)
    requires
        transfer_keeping_deposit(s, transactor, dest, value, existence_requirement, provider_required) is Ok,
        transactor != dest,
    ensures
        ({
            let t = transfer_keeping_deposit(s, transactor, dest, value, existence_requirement, provider_required)->Ok_0;
            &&& t.account(transactor).free == s.account(transactor).free - value
            &&& t.account(dest).free == s.account(dest).free + value
            &&& t.account(transactor).reserved == s.account(transactor).reserved
            &&& t.account(dest).reserved == s.account(dest).reserved
            &&& t.total_issuance == s.total_issuance
            &&& forall|w: AccountId| w != transactor && w != dest ==> #[trigger] t.account(w) == s.account(w)
        }),
{
}

/// A transfer that lets the sender die still credits the receiver with
/// exactly `value`; the sender keeps `free - value` or, when that leaves it
/// below the existential deposit, is removed.
pub proof fn lemma_transfer_allowing_death_credits_value(
    s: BalancesView,
    transactor: AccountId,
    dest: AccountId,
    value: Balance,
    existence_requirement: ExistenceRequirement,
    provider_required: bool,
)
    requires
        transfer_allowing_death(s, transactor, dest, value, existence_requirement, provider_required) is Ok,
        transactor != dest,
    ensures
        ({
            let t = transfer_allowing_death(s, transactor, dest, value, existence_requirement, provider_required)->Ok_0;
            &&& t.account(dest).free == s.account(dest).free + value
            &&& t.account(transactor).free == s.account(transactor).free - value
                || (value > 0 && !t.accounts.contains_key(transactor))
            &&& t.total_issuance == s.total_issuance
            &&& forall|w: AccountId| w != transactor && w != dest ==> #[trigger] t.account(w) == s.account(w)
        }),
{
}

/// The check of `ensure_can_withdraw` is the one a transfer makes: a
/// transfer of a non-zero value succeeds only when the sender could
/// withdraw it for the transfer reason.
pub proof fn lemma_transfer_passes_withdraw_check(
    s: BalancesView,
    transactor: AccountId,
    dest: AccountId,
    value: Balance,
    existence_requirement: ExistenceRequirement,
    provider_required: bool,
)
    requires
        transfer_keeping_deposit(s, transactor, dest, value, existence_requirement, provider_required) is Ok,
        transactor != dest,
        value > 0,
    ensures
        s.can_withdraw(transactor, value, WithdrawReasons { bits: TRANSFER }, (s.account(transactor).free - value) as Balance) is Ok,
{
}

/// Reading the balances of an account right after root set them gives the
/// values set, when they reach the existential deposit together.
pub proof fn lemma_set_balance_then_read(
    s: BalancesView,
    who: AccountId,
    new_free: Balance,
    new_reserved: Balance,
)
    requires
        new_free + new_reserved <= u128::MAX,
        new_free + new_reserved >= s.existential_deposit,
    ensures
        set_balance_outcome(s, RawOrigin::Root, who, new_free, new_reserved) is Ok,
        set_balance_outcome(s, RawOrigin::Root, who, new_free, new_reserved)->Ok_0.account(who).free == new_free,
        set_balance_outcome(s, RawOrigin::Root, who, new_free, new_reserved)->Ok_0.account(who).reserved == new_reserved,
{
}

} // verus!
