//! Parameters of the node's runtime: money units and the storage deposit,
//! block time units, and the values the pallets are configured with.

use vstd::prelude::*;

verus! {

/// A balance.
pub type Balance = u128;

/// A block number.
pub type BlockNumber = u32;

/// A timestamp or a span of time, in milliseconds.
pub type Moment = u64;

/// One thousandth of a cent.
pub const MILLICENTS: Balance = 1_000_000_000;

/// One hundredth of a dollar.
pub const CENTS: Balance = 1_000 * MILLICENTS;

/// The unit of money.
pub const DOLLARS: Balance = 100 * CENTS;

/// The deposit for storing `items` items of `bytes` bytes in all: 15 cents
/// an item and 6 cents a byte.
pub fn deposit(items: u32, bytes: u32) -> (r: Balance)
    ensures
        r == items * 15 * CENTS + bytes * 6 * CENTS,
{
    assert(items * 15 * CENTS <= 0xffff_ffff * 15 * 1_000_000_000_000) by (nonlinear_arith)
        requires
            items <= 0xffff_ffff,
            CENTS == 1_000_000_000_000,
    ;
    assert(bytes * 6 * CENTS <= 0xffff_ffff * 6 * 1_000_000_000_000) by (nonlinear_arith)
        requires
            bytes <= 0xffff_ffff,
            CENTS == 1_000_000_000_000,
    ;
    items as Balance * 15 * CENTS + (bytes as Balance) * 6 * CENTS
}

/// The average block time aimed at, in milliseconds.
pub const MILLISECS_PER_BLOCK: Moment = 3000;

/// The average block time in seconds.
pub const SECS_PER_BLOCK: Moment = MILLISECS_PER_BLOCK / 1000;

/// The slot duration, in milliseconds.
pub const SLOT_DURATION: Moment = MILLISECS_PER_BLOCK;

/// Blocks per minute.
pub const MINUTES: BlockNumber = 20;

/// Blocks per hour.
pub const HOURS: BlockNumber = MINUTES * 60;

/// Blocks per day.
pub const DAYS: BlockNumber = HOURS * 24;

/// An epoch is ten minutes of blocks.
pub const EPOCH_DURATION_IN_BLOCKS: BlockNumber = 10 * MINUTES;

/// Slots per epoch: the epoch's blocks times the slots filled per block,
/// which is one as every slot lasts a block.
pub const EPOCH_DURATION_IN_SLOTS: u64 = 200;

/// The primary slot probability, as a fraction.
pub const PRIMARY_PROBABILITY: (u64, u64) = (1, 4);

/// The block time units agree with each other.
pub proof fn lemma_time_units()
    ensures
        MINUTES as int == 60int / (SECS_PER_BLOCK as int),
        SECS_PER_BLOCK == 3,
        EPOCH_DURATION_IN_SLOTS as int == (EPOCH_DURATION_IN_BLOCKS * MILLISECS_PER_BLOCK) as int / (SLOT_DURATION as int),
        DAYS == 28_800,
{
}

/// Number of block hashes kept by the system.
pub struct BlockHashCount;

impl BlockHashCount {
    pub fn get() -> (r: BlockNumber)
        ensures
            r == 2400,
    {
        2400
    }
}

/// The SS58 address prefix.
pub struct SS58Prefix;

impl SS58Prefix {
    pub fn get() -> (r: u8)
        ensures
            r == 42,
    {
        42
    }
}

/// Eras a bond stays locked after unbonding.
pub struct BondingDuration;

impl BondingDuration {
    pub fn get() -> (r: u32)
        ensures
            r == 24 * 28,
    {
        24 * 28
    }
}

/// Sessions per era.
pub struct SessionsPerEra;

impl SessionsPerEra {
    pub fn get() -> (r: u32)
        ensures
            r == 6,
    {
        6
    }
}

/// Slots per epoch.
pub struct EpochDuration;

impl EpochDuration {
    pub fn get() -> (r: u64)
        ensures
            r == EPOCH_DURATION_IN_SLOTS,
    {
        EPOCH_DURATION_IN_SLOTS
    }
}

/// The block time expected, in milliseconds.
pub struct ExpectedBlockTime;

impl ExpectedBlockTime {
    pub fn get() -> (r: Moment)
        ensures
            r == MILLISECS_PER_BLOCK,
    {
        MILLISECS_PER_BLOCK
    }
}

/// How long an equivocation report stays valid, in slots: a bonding
/// duration of eras.
pub struct ReportLongevity;

impl ReportLongevity {
    pub fn get() -> (r: u64)
        ensures
            r == BondingDuration::get_spec() * 6 * EPOCH_DURATION_IN_SLOTS,
    {
        BondingDuration::get() as u64 * SessionsPerEra::get() as u64 * EpochDuration::get()
    }
}

impl BondingDuration {
    /// The bonding duration, in eras.
    pub open spec fn get_spec() -> u64 {
        672
    }
}

/// The smallest balance an account may hold.
pub struct ExistentialDeposit;

impl ExistentialDeposit {
    pub fn get() -> (r: Balance)
        ensures
            r == DOLLARS,
    {
        1 * DOLLARS
    }
}

/// The most locks on an account.
pub struct MaxLocks;

impl MaxLocks {
    pub fn get() -> (r: u32)
        ensures
            r == 50,
    {
        50
    }
}

/// The shortest time between blocks' timestamps: half a slot.
pub struct MinimumPeriod;

impl MinimumPeriod {
    pub fn get() -> (r: Moment)
        ensures
            r == SLOT_DURATION / 2,
    {
        SLOT_DURATION / 2
    }
}

} // verus!
