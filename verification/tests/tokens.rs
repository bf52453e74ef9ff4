use vertic::common::{ArithmeticError, DispatchError, RawOrigin, TokenError, TokensError};
use vertic::tokens::{
    AccountData, DepositConsequence, Event, GenesisConfig, Pallet, SystemRequest, TokensState,
    WithdrawConsequence,
};

const LOCK_A: [u8; 8] = *b"lock_aaa";
const LOCK_B: [u8; 8] = *b"lock_bbb";
const LOCK_C: [u8; 8] = *b"lock_ccc";

fn funded(who: u64, amount: u128) -> TokensState {
    let mut s = TokensState::new(10, 2);
    s.deposit(who, amount).unwrap();
    s
}

#[test]
fn deposit_creates_account_and_issuance() {
    let s = funded(1, 100);
    assert_eq!(s.free_balance(1), 100);
    assert_eq!(s.total_issuance(), 100);
    assert_eq!(s.total_balance(1), 100);
    assert_eq!(s.events(), &vec![Event::Endowed(1, 100)]);
    assert_eq!(s.system_requests(), &vec![SystemRequest::IncProviders(1)]);
}

#[test]
fn withdraw_undoes_deposit() {
    let mut s = funded(1, 100);
    s.withdraw(1, 100).unwrap();
    assert_eq!(s.free_balance(1), 0);
    assert_eq!(s.total_issuance(), 0);
    assert_eq!(s.accounts(1), AccountData { free: 0, reserved: 0, frozen: 0 });
    assert_eq!(s.system_requests().last(), Some(&SystemRequest::DecProviders(1)));
}

#[test]
fn deposit_overflowing_issuance_fails() {
    let mut s = TokensState::new(10, 2);
    s.set_total_issuance(u128::MAX);
    assert_eq!(s.deposit(1, 1), Err(DispatchError::Arithmetic(ArithmeticError::Overflow)));
    assert_eq!(s.free_balance(1), 0);
    assert_eq!(s.deposit(1, 0), Ok(()));
}

#[test]
fn withdraw_errors() {
    let mut s = funded(1, 100);
    assert_eq!(s.withdraw(1, 101), Err(DispatchError::Tokens(TokensError::BalanceTooLow)));
    s.set_lock(LOCK_A, 1, 60).unwrap();
    assert_eq!(s.withdraw(1, 50), Err(DispatchError::Tokens(TokensError::LiquidityRestrictions)));
    assert_eq!(s.withdraw(1, 40), Ok(()));
    assert_eq!(s.free_balance(1), 60);
}

#[test]
fn transfer_moves_free_balance() {
    let mut s = funded(1, 100);
    assert_eq!(s.transfer(1, 2, 30, true), Ok(()));
    assert_eq!(s.free_balance(1), 70);
    assert_eq!(s.free_balance(2), 30);
    assert_eq!(s.total_issuance(), 100);
    assert_eq!(s.events().last(), Some(&Event::Endowed(2, 30)));
}

#[test]
fn transfer_errors() {
    let mut s = funded(1, 100);
    assert_eq!(s.transfer(1, 2, 101, true), Err(DispatchError::Tokens(TokensError::BalanceTooLow)));
    assert_eq!(s.transfer(1, 2, 5, true), Err(DispatchError::Tokens(TokensError::ExistentialDeposit)));
    assert_eq!(s.transfer(1, 2, 95, false), Err(DispatchError::Tokens(TokensError::KeepAlive)));
    assert_eq!(s.transfer(1, 2, 95, true), Ok(()));
    assert_eq!(s.free_balance(1), 5);
    let mut t = funded(1, 100);
    t.deposit(2, 50).unwrap();
    t.set_balance(2, u128::MAX).unwrap();
    assert_eq!(t.transfer(1, 2, 10, true), Err(DispatchError::Arithmetic(ArithmeticError::Overflow)));
    t.set_lock(LOCK_A, 1, 95).unwrap();
    assert_eq!(t.transfer(1, 3, 10, true), Err(DispatchError::Tokens(TokensError::LiquidityRestrictions)));
    assert_eq!(t.transfer(1, 1, 1000, true), Ok(()));
}

#[test]
fn transfer_keep_alive_by_fungible_transfer() {
    let mut s = funded(1, 100);
    assert_eq!(s.transfer_fungible(1, 2, 95, true, true), Err(DispatchError::Tokens(TokensError::KeepAlive)));
    assert_eq!(s.transfer_fungible(1, 2, 90, true, true), Ok(90));
    assert_eq!(s.free_balance(2), 90);
}

#[test]
fn locks_freeze_the_highest_amount() {
    let mut s = funded(1, 100);
    s.set_lock(LOCK_A, 1, 30).unwrap();
    s.set_lock(LOCK_B, 1, 50).unwrap();
    assert_eq!(s.accounts(1).frozen, 50);
    assert_eq!(s.locks(1).len(), 2);
    s.set_lock(LOCK_B, 1, 20).unwrap();
    assert_eq!(s.accounts(1).frozen, 30);
    s.extend_lock(LOCK_A, 1, 10).unwrap();
    assert_eq!(s.accounts(1).frozen, 30);
    s.extend_lock(LOCK_A, 1, 70).unwrap();
    assert_eq!(s.accounts(1).frozen, 70);
    assert_eq!(s.locks(1).len(), 2);
    assert_eq!(s.system_requests().last(), Some(&SystemRequest::IncConsumers(1)));
}

#[test]
fn too_many_locks_are_refused() {
    let mut s = funded(1, 100);
    s.set_lock(LOCK_A, 1, 10).unwrap();
    s.set_lock(LOCK_B, 1, 20).unwrap();
    assert_eq!(s.set_lock(LOCK_C, 1, 30), Err(DispatchError::Tokens(TokensError::MaxLocksExceeded)));
    assert_eq!(s.locks(1).len(), 2);
    assert_eq!(s.accounts(1).frozen, 30);
}

#[test]
fn removing_a_lock_clears_it() {
    let mut s = funded(1, 100);
    s.set_lock(LOCK_A, 1, 10).unwrap();
    s.set_lock(LOCK_B, 1, 20).unwrap();
    s.remove_lock(LOCK_B, 1).unwrap();
    assert_eq!(s.locks(1).len(), 1);
    assert_eq!(s.locks(1)[0].id, LOCK_A);
    assert_eq!(s.accounts(1).frozen, 10);
    s.remove_lock(LOCK_A, 1).unwrap();
    assert!(s.locks(1).is_empty());
    assert_eq!(s.accounts(1).frozen, 0);
    assert_eq!(s.system_requests().last(), Some(&SystemRequest::DecConsumers(1)));
    assert_eq!(s.set_lock(LOCK_A, 1, 0), Ok(()));
    assert!(s.locks(1).is_empty());
}

#[test]
fn unreserve_undoes_reserve() {
    let mut s = funded(1, 100);
    assert!(s.can_reserve(1, 40));
    assert_eq!(s.reserve(1, 40), Ok(()));
    assert_eq!(s.free_balance(1), 60);
    assert_eq!(s.reserved_balance(1), 40);
    assert_eq!(s.events().last(), Some(&Event::Reserved(1, 40)));
    assert_eq!(s.unreserve(1, 40), 0);
    assert_eq!(s.free_balance(1), 100);
    assert_eq!(s.reserved_balance(1), 0);
    assert_eq!(s.events().last(), Some(&Event::Unreserved(1, 40)));
}

#[test]
fn unreserve_returns_what_could_not_move() {
    let mut s = funded(1, 100);
    s.reserve(1, 30).unwrap();
    assert_eq!(s.unreserve(1, 50), 20);
    assert_eq!(s.free_balance(1), 100);
    assert!(!s.can_reserve(1, 101));
    assert_eq!(s.reserve(1, 101), Err(DispatchError::Tokens(TokensError::BalanceTooLow)));
}

#[test]
fn update_balance_by_signed_amount() {
    let mut s = TokensState::new(10, 2);
    assert_eq!(s.update_balance(1, 50), Ok(()));
    assert_eq!(s.free_balance(1), 50);
    assert_eq!(s.update_balance(1, -20), Ok(()));
    assert_eq!(s.free_balance(1), 30);
    assert_eq!(s.update_balance(1, i128::MIN), Err(DispatchError::Tokens(TokensError::BalanceTooLow)));
    assert_eq!(s.update_balance(1, 0), Ok(()));
}

#[test]
fn deposit_consequences() {
    let mut s = funded(1, 100);
    let a = s.accounts(1);
    assert_eq!(s.deposit_consequence(0, &a), DepositConsequence::Success);
    assert_eq!(s.can_deposit(2, 5), DepositConsequence::BelowMinimum);
    assert_eq!(s.can_deposit(2, 10), DepositConsequence::Success);
    s.set_total_issuance(u128::MAX);
    assert_eq!(s.can_deposit(2, 10), DepositConsequence::Overflow);
}

#[test]
fn withdraw_consequences() {
    let mut s = funded(1, 100);
    assert_eq!(s.can_withdraw(1, 0, false), WithdrawConsequence::Success);
    assert_eq!(s.can_withdraw(1, 101, false), WithdrawConsequence::Underflow);
    s.deposit(2, 50).unwrap();
    assert_eq!(s.can_withdraw(1, 101, false), WithdrawConsequence::NoFunds);
    assert_eq!(s.can_withdraw(1, 95, false), WithdrawConsequence::WouldDie);
    assert_eq!(s.can_withdraw(1, 95, true), WithdrawConsequence::ReducedToZero(5));
    s.set_lock(LOCK_A, 1, 50).unwrap();
    assert_eq!(s.can_withdraw(1, 60, true), WithdrawConsequence::Frozen);
    assert_eq!(s.can_withdraw(1, 40, true), WithdrawConsequence::Success);
    assert_eq!(WithdrawConsequence::Frozen.into_result(), Err(DispatchError::Token(TokenError::Frozen)));
    assert_eq!(DepositConsequence::BelowMinimum.into_result(), Err(DispatchError::Token(TokenError::BelowMinimum)));
}

#[test]
fn mint_and_burn() {
    let mut s = TokensState::new(10, 2);
    assert_eq!(s.mint_into(1, 5), Err(DispatchError::Token(TokenError::BelowMinimum)));
    assert_eq!(s.mint_into(1, 100), Ok(()));
    assert_eq!(s.total_issuance(), 100);
    assert_eq!(s.burn_from(1, 95, true), Ok(100));
    assert_eq!(s.free_balance(1), 0);
    assert_eq!(s.total_issuance(), 0);
    assert_eq!(s.burn_from(1, 0, true), Ok(0));
    s.mint_into(1, 100).unwrap();
    assert_eq!(s.burn_from(1, 95, false), Err(DispatchError::Token(TokenError::WouldDie)));
}

#[test]
fn reducible_balance_keeps_what_must_remain() {
    let mut s = funded(1, 100);
    s.set_lock(LOCK_A, 1, 30).unwrap();
    assert_eq!(s.reducible_balance(1, false, true), 70);
    assert_eq!(s.reducible_balance(1, true, true), 70);
    s.reserve(1, 5).unwrap();
    assert_eq!(s.reducible_balance(1, true, true), 65);
    assert_eq!(s.balance(1), 100);
}

#[test]
fn holds_and_releases() {
    let mut s = funded(1, 100);
    assert!(s.can_hold(1, 90));
    assert!(!s.can_hold(1, 91));
    assert_eq!(s.hold(1, 40), Ok(()));
    assert_eq!(s.balance_on_hold(1), 40);
    assert_eq!(s.free_balance(1), 60);
    assert_eq!(s.hold(1, 61), Err(DispatchError::Tokens(TokensError::BalanceTooLow)));
    assert_eq!(s.release(1, 50, false), Err(DispatchError::Tokens(TokensError::BalanceTooLow)));
    assert_eq!(s.release(1, 50, true), Ok(40));
    assert_eq!(s.free_balance(1), 100);
    assert_eq!(s.balance_on_hold(1), 0);
}

#[test]
fn transfer_call_deposits_event() {
    let mut s = funded(1, 100);
    assert_eq!(Pallet::transfer(&mut s, RawOrigin::Root, 2, 10, true), Err(DispatchError::BadOrigin));
    assert_eq!(Pallet::transfer(&mut s, RawOrigin::Signed(1), 2, 10, true), Ok(()));
    assert_eq!(s.events().last(), Some(&Event::Transfer(1, 2, 10)));
    assert_eq!(Pallet::transfer_all(&mut s, RawOrigin::Signed(1), 3, true), Ok(()));
    assert_eq!(s.free_balance(1), 0);
    assert_eq!(s.free_balance(3), 90);
    assert_eq!(s.events().last(), Some(&Event::Transfer(1, 3, 90)));
}

#[test]
fn genesis_sets_total_issuance() {
    let mut s = TokensState::new(10, 2);
    let g = GenesisConfig { balances: vec![(1, 100), (2, 50), (3, 7)] };
    g.build(&mut s);
    assert_eq!(s.total_issuance(), 157);
    assert_eq!(s.free_balance(1), 0);
}
