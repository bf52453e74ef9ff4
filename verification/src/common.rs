//! Types shared by the pallets: origins, dispatch errors and withdrawal
//! reasons.

use vstd::prelude::*;

verus! {

/// Account identifier.
pub type AccountId = u64;

/// Amount of currency.
pub type Balance = u128;

/// Who dispatched a call.
#[derive(Clone, Copy, Debug, PartialEq, Eq, Structural)]
pub enum RawOrigin {
    /// The system itself.
    Root,
    /// A signed account.
    Signed(AccountId),
    /// Nobody: unsigned transactions and inherents.
    Unsigned,
}

/// Arithmetic errors.
#[derive(Clone, Copy, Debug, PartialEq, Eq, Structural)]
pub enum ArithmeticError {
    /// Underflow.
    Underflow,
    /// Overflow.
    Overflow,
    /// Division by zero.
    DivisionByZero,
}

/// Errors of the balances pallet.
#[derive(Clone, Copy, Debug, PartialEq, Eq, Structural)]
pub enum BalancesError {
    /// Vesting balance too high to send value.
    VestingBalance,
    /// Account liquidity restrictions prevent withdrawal.
    LiquidityRestrictions,
    /// Balance too low to send value.
    InsufficientBalance,
    /// Value too low to create account due to existential deposit.
    ExistentialDeposit,
    /// Transfer/payment would kill account.
    KeepAlive,
    /// A vesting schedule already exists for this account.
    ExistingVestingSchedule,
    /// Beneficiary account must pre-exist.
    DeadAccount,
    /// Number of named reserves exceed the maximum.
    TooManyReserves,
}

/// Errors of the tokens pallet.
#[derive(Clone, Copy, Debug, PartialEq, Eq, Structural)]
pub enum TokensError {
    /// The balance is too low.
    BalanceTooLow,
    /// Cannot convert an amount into a balance.
    AmountIntoBalanceFailed,
    /// Failed because of liquidity restrictions due to locking.
    LiquidityRestrictions,
    /// Failed because the maximum number of locks was exceeded.
    MaxLocksExceeded,
    /// Transfer/payment would kill account.
    KeepAlive,
    /// Value too low to create account due to existential deposit.
    ExistentialDeposit,
    /// Beneficiary account must pre-exist.
    DeadAccount,
}

/// Errors of a dispatched call.
#[derive(Clone, Copy, Debug, PartialEq, Eq, Structural)]
pub enum DispatchError {
    /// Some other error.
    Other,
    /// A lookup failed.
    CannotLookup,
    /// The origin is not allowed to make the call.
    BadOrigin,
    /// An error of the balances pallet.
    Balances(BalancesError),
    /// An error of the tokens pallet.
    Tokens(TokensError),
    /// The account cannot be removed while it has consumers.
    ConsumerRemaining,
    /// The account has no providers.
    NoProviders,
    /// Arithmetic error.
    Arithmetic(ArithmeticError),
    /// A token error.
    Token(TokenError),
}

/// Errors of token operations.
#[derive(Clone, Copy, Debug, PartialEq, Eq, Structural)]
pub enum TokenError {
    /// Funds are unavailable.
    NoFunds,
    /// The account would die.
    WouldDie,
    /// The amount would leave the account below the minimum balance.
    BelowMinimum,
    /// The account cannot be created.
    CannotCreate,
    /// The asset is unknown.
    UnknownAsset,
    /// Funds exist but are frozen.
    Frozen,
}

/// Whether an operation may remove the account it withdraws from.
#[derive(Clone, Copy, Debug, PartialEq, Eq, Structural)]
pub enum ExistenceRequirement {
    /// The account must stay alive.
    KeepAlive,
    /// The account may be removed.
    AllowDeath,
}

/// The signer of a signed origin.
pub fn ensure_signed(origin: RawOrigin) -> (r: Result<AccountId, DispatchError>)
    ensures
        match origin {
            RawOrigin::Signed(who) => r == Ok::<AccountId, DispatchError>(who),
            _ => r == Err::<AccountId, DispatchError>(DispatchError::BadOrigin),
        },
{
    match origin {
        RawOrigin::Signed(who) => Ok(who),
        _ => Err(DispatchError::BadOrigin),
    }
}

/// Succeeds for the root origin only.
pub fn ensure_root(origin: RawOrigin) -> (r: Result<(), DispatchError>)
    ensures
        r is Ok <==> origin is Root,
        r matches Err(e) ==> e == DispatchError::BadOrigin,
{
    match origin {
        RawOrigin::Root => Ok(()),
        _ => Err(DispatchError::BadOrigin),
    }
}

/// A set of reasons for withdrawing funds, as bits.
#[derive(Clone, Copy, Debug, PartialEq, Eq, Structural)]
pub struct WithdrawReasons {
    /// The reasons' bits.
    pub bits: u8,
}

/// Bit of paying transaction fees.
pub const TRANSACTION_PAYMENT: u8 = 1;
/// Bit of transferring.
pub const TRANSFER: u8 = 2;
/// Bit of reserving.
pub const RESERVE: u8 = 4;
/// Bit of paying fees other than transaction fees.
pub const FEE: u8 = 8;
/// Bit of tipping.
pub const TIP: u8 = 16;

impl WithdrawReasons {
    /// The set of the given bits.
    pub fn from_bits(bits: u8) -> (r: Self)
        ensures
            r.bits == bits,
    {
        WithdrawReasons { bits }
    }

    /// Whether every reason of `other` is in `self`.
    pub fn contains(&self, other: WithdrawReasons) -> (r: bool)
        ensures
            r == (self.bits & other.bits == other.bits),
    {
        self.bits & other.bits == other.bits
    }

    /// Whether the set is empty.
    pub fn is_empty(&self) -> (r: bool)
        ensures
            r == (self.bits == 0),
    {
        self.bits == 0
    }
}

} // verus!
