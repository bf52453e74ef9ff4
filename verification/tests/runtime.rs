use vertic::runtime::{
    deposit, BlockHashCount, BondingDuration, EpochDuration, ExistentialDeposit, ExpectedBlockTime, MaxLocks,
    MinimumPeriod, ReportLongevity, SS58Prefix, SessionsPerEra, CENTS, DAYS, DOLLARS, EPOCH_DURATION_IN_BLOCKS,
    HOURS, MILLICENTS, MINUTES,
};

#[test]
fn money_units() {
    assert_eq!(MILLICENTS, 1_000_000_000);
    assert_eq!(CENTS, 1_000_000_000_000);
    assert_eq!(DOLLARS, 100_000_000_000_000);
    assert_eq!(ExistentialDeposit::get(), DOLLARS);
}

#[test]
fn storage_deposit() {
    assert_eq!(deposit(0, 0), 0);
    assert_eq!(deposit(1, 0), 15 * CENTS);
    assert_eq!(deposit(2, 10), 30 * CENTS + 60 * CENTS);
    assert_eq!(deposit(u32::MAX, u32::MAX), (u32::MAX as u128) * 21 * CENTS);
}

#[test]
fn time_units() {
    assert_eq!(MINUTES, 20);
    assert_eq!(HOURS, 1_200);
    assert_eq!(DAYS, 28_800);
    assert_eq!(EPOCH_DURATION_IN_BLOCKS, 200);
    assert_eq!(EpochDuration::get(), 200);
    assert_eq!(ExpectedBlockTime::get(), 3000);
    assert_eq!(MinimumPeriod::get(), 1500);
}

#[test]
fn pallet_parameters() {
    assert_eq!(BlockHashCount::get(), 2400);
    assert_eq!(SS58Prefix::get(), 42);
    assert_eq!(BondingDuration::get(), 672);
    assert_eq!(SessionsPerEra::get(), 6);
    assert_eq!(ReportLongevity::get(), 672 * 6 * 200);
    assert_eq!(MaxLocks::get(), 50);
}
