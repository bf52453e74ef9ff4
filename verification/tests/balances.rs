use vertic::balances::{BalancesState, Event, GenesisConfig, Pallet, PalletCurrency, PalletImpl, VerticCurrency};
use vertic::common::{ArithmeticError, BalancesError, DispatchError, ExistenceRequirement, RawOrigin, WithdrawReasons};

fn genesis() -> BalancesState {
    GenesisConfig { balances: vec![(1, 100), (2, 50)] }.build_storage(10)
}

#[test]
fn genesis_balances_and_issuance() {
    let s = genesis();
    assert_eq!(Pallet::free_balance(&s, 1), 100);
    assert_eq!(Pallet::free_balance(&s, 2), 50);
    assert_eq!(Pallet::free_balance(&s, 3), 0);
    assert_eq!(<PalletImpl as VerticCurrency>::total_issuance(&s), 150);
    assert_eq!(<PalletImpl as VerticCurrency>::minimum_balance(&s), 10);
    assert_eq!(<PalletImpl as VerticCurrency>::total_balance(&s, 1), 100);
    assert_eq!(Pallet::usable_balance(&s, 1), 100);
    assert_eq!(Pallet::usable_balance_for_fees(&s, 1), 100);
    assert_eq!(Pallet::reserved_balance(&s, 1), 0);
}

#[test]
fn transfer_moves_value_and_deposits_event() {
    let mut s = genesis();
    assert_eq!(Pallet::transfer(&mut s, RawOrigin::Signed(1), 2, 30, false), Ok(()));
    assert_eq!(Pallet::free_balance(&s, 1), 70);
    assert_eq!(Pallet::free_balance(&s, 2), 80);
    assert_eq!(s.events().last(), Some(&Event::Transfer(1, 2, 30)));
    assert_eq!(<PalletImpl as VerticCurrency>::total_issuance(&s), 150);
}

#[test]
fn balances_transfer_errors() {
    let mut s = genesis();
    assert_eq!(Pallet::transfer(&mut s, RawOrigin::Root, 2, 30, false), Err(DispatchError::BadOrigin));
    assert_eq!(
        Pallet::transfer(&mut s, RawOrigin::Signed(1), 3, 1000, false),
        Err(DispatchError::Balances(BalancesError::InsufficientBalance))
    );
    assert_eq!(
        Pallet::transfer(&mut s, RawOrigin::Signed(1), 3, 95, false),
        Err(DispatchError::Balances(BalancesError::ExistentialDeposit))
    );
    assert_eq!(
        Pallet::transfer(&mut s, RawOrigin::Signed(1), 3, 5, false),
        Err(DispatchError::Balances(BalancesError::ExistentialDeposit))
    );
    assert_eq!(Pallet::set_balance(&mut s, RawOrigin::Root, 2, u128::MAX - 5, 0), Ok(()));
    assert_eq!(
        Pallet::transfer(&mut s, RawOrigin::Signed(1), 2, 10, false),
        Err(DispatchError::Arithmetic(ArithmeticError::Overflow))
    );
    assert_eq!(Pallet::free_balance(&s, 1), 100);
}

#[test]
fn transfer_keep_alive_keeps_sender() {
    let mut s = genesis();
    assert_eq!(Pallet::transfer_keep_alive(&mut s, RawOrigin::Signed(1), 3, 90, false), Ok(()));
    assert_eq!(Pallet::free_balance(&s, 1), 10);
    assert_eq!(Pallet::free_balance(&s, 3), 90);
    assert_eq!(s.events(), &vec![Event::Endowed(3, 90), Event::Transfer(1, 3, 90)]);
}

#[test]
fn currency_transfer_may_let_sender_die() {
    let mut s = genesis();
    assert_eq!(
        <PalletCurrency as VerticCurrency>::transfer(&mut s, 1, 2, 95, ExistenceRequirement::AllowDeath, true),
        Err(DispatchError::Balances(BalancesError::KeepAlive))
    );
    assert_eq!(
        <PalletCurrency as VerticCurrency>::transfer(&mut s, 1, 2, 95, ExistenceRequirement::KeepAlive, false),
        Err(DispatchError::Balances(BalancesError::KeepAlive))
    );
    assert_eq!(
        <PalletCurrency as VerticCurrency>::transfer(&mut s, 1, 2, 95, ExistenceRequirement::AllowDeath, false),
        Ok(())
    );
    assert_eq!(Pallet::free_balance(&s, 1), 0);
    assert_eq!(Pallet::free_balance(&s, 2), 145);
    assert_eq!(<PalletCurrency as VerticCurrency>::free_balance(&s, 2), 145);
}

#[test]
fn set_balance_then_read() {
    let mut s = genesis();
    assert_eq!(Pallet::set_balance(&mut s, RawOrigin::Signed(1), 1, 5, 5), Err(DispatchError::BadOrigin));
    assert_eq!(Pallet::set_balance(&mut s, RawOrigin::Root, 1, 40, 20), Ok(()));
    assert_eq!(Pallet::free_balance(&s, 1), 40);
    assert_eq!(Pallet::reserved_balance(&s, 1), 20);
    assert_eq!(s.events().last(), Some(&Event::BalanceSet(1, 40, 20)));
    assert_eq!(Pallet::set_balance(&mut s, RawOrigin::Root, 1, 4, 4), Ok(()));
    assert_eq!(Pallet::free_balance(&s, 1), 0);
    assert_eq!(Pallet::reserved_balance(&s, 1), 0);
    assert_eq!(s.events().last(), Some(&Event::BalanceSet(1, 0, 0)));
}

#[test]
fn withdraw_check_without_locks_passes() {
    let s = genesis();
    let reasons = WithdrawReasons::from_bits(2);
    assert_eq!(<PalletImpl as VerticCurrency>::ensure_can_withdraw(&s, 1, 10, reasons, 90), Ok(()));
    assert_eq!(<PalletImpl as VerticCurrency>::ensure_can_withdraw(&s, 1, 0, reasons, 0), Ok(()));
}
