//! Slot timing: the lenience given to block production after skipped slots,
//! the strategy that backs off authoring while finality lags, and the slot
//! duration read from the chain.

use vstd::prelude::*;
use vstd::arithmetic::power2::pow2;
use crate::scale::{decode_u64, encode_u64, le_value, u64_encoding};

verus! {

/// The largest span a `Duration` holds, in nanoseconds: `u64::MAX` seconds
/// and 999 999 999 nanoseconds.
pub open spec fn max_duration_nanos() -> nat {
    u64::MAX as nat * 1_000_000_000 + 999_999_999
}

/// A span of time with nanosecond precision, as large as
/// `std::time::Duration` holds.
#[derive(Clone, Copy, Debug)]
pub struct Duration {
    nanos: u128,
}

impl Duration {
    /// The span fits.
    #[verifier::type_invariant]
    closed spec fn in_range(self) -> bool {
        self.nanos <= max_duration_nanos()
    }
}

impl View for Duration {
    type V = nat;

    /// The span in nanoseconds.
    closed spec fn view(&self) -> nat {
        self.nanos as nat
    }
}

impl Duration {
    /// A span of `secs` seconds and `nanos` nanoseconds; whole seconds in
    /// `nanos` carry over.
    pub fn new(secs: u64, nanos: u32) -> (r: Duration)
        requires
            secs as nat * 1_000_000_000 + nanos <= max_duration_nanos(),
        ensures
            r@ == secs as nat * 1_000_000_000 + nanos,
    {
        Duration { nanos: secs as u128 * 1_000_000_000 + nanos as u128 }
    }

    /// A span of `ms` milliseconds.
    pub fn from_millis(ms: u64) -> (r: Duration)
        ensures
            r@ == ms as nat * 1_000_000,
    {
        Duration { nanos: ms as u128 * 1_000_000 }
    }

    /// The empty span.
    pub fn zero() -> (r: Duration)
        ensures
            r@ == 0,
    {
        Duration { nanos: 0 }
    }

    /// The span in nanoseconds.
    pub fn as_nanos(&self) -> (r: u128)
        ensures
            r == self@,
    {
        self.nanos
    }

    /// The whole seconds of the span.
    pub fn as_secs(&self) -> (r: u64)
        ensures
            r == self@ / 1_000_000_000,
    {
        proof {
            use_type_invariant(self);
        }
        (self.nanos / 1_000_000_000) as u64
    }

    /// The nanoseconds beyond the whole seconds.
    pub fn subsec_nanos(&self) -> (r: u32)
        ensures
            r == self@ % 1_000_000_000,
    {
        (self.nanos % 1_000_000_000) as u32
    }

    /// Whether the span is empty.
    pub fn is_zero(&self) -> (r: bool)
        ensures
            r == (self@ == 0),
    {
        self.nanos == 0
    }

    /// The span `k` times over; the span must still fit.
    pub fn mul_u32(&self, k: u32) -> (r: Duration)
        requires
            self@ * k <= max_duration_nanos(),
        ensures
            r@ == self@ * k,
    {
        proof {
            use_type_invariant(self);
            assert(self.nanos * k <= u128::MAX) by (nonlinear_arith)
                requires
                    self.nanos * k <= max_duration_nanos(),
                    max_duration_nanos() < u128::MAX,
            ;
        }
        Duration { nanos: self.nanos * k as u128 }
    }
}

/// What the slot worker knows of a slot.
#[derive(Clone, Copy, Debug)]
pub struct SlotInfo {
    /// The slot number.
    pub slot: u64,
    /// The timestamp of the slot.
    pub timestamp: u64,
    /// The slot's duration.
    pub duration: Duration,
}

/// The slots skipped between a parent at `parent_slot` and the slot
/// `slot`.
pub open spec fn skipped_slots(parent_slot: u64, slot: u64) -> nat {
    if slot > parent_slot + 1 {
        (slot - parent_slot - 1) as nat
    } else {
        0
    }
}

/// The exponential lenience factor after `skipped` skipped slots: it
/// doubles every two slots, up to 2^7.
pub open spec fn exponential_factor(skipped: nat) -> nat {
    pow2(if skipped / 2 <= 7 { skipped / 2 } else { 7 })
}

/// The linear lenience factor after `skipped` skipped slots, capped at 20.
pub open spec fn linear_factor(skipped: nat) -> nat {
    if skipped <= 20 { skipped } else { 20 }
}

/// How many slots lie between a parent at `parent_slot` and `slot`, less
/// one; zero when none.
fn count_skipped(parent_slot: u64, slot: u64) -> (r: u64)
    requires
        parent_slot < u64::MAX,
    ensures
        r == skipped_slots(parent_slot, slot),
{
    slot.saturating_sub(parent_slot + 1)
}

/// The lenience after skipped slots, doubling every two skipped slots up
/// to 2^7 slot durations; none when no slot was skipped.
pub fn slot_lenience_exponential(parent_slot: u64, slot_info: &SlotInfo) -> (r: Option<Duration>)
    requires
        parent_slot < u64::MAX,
        skipped_slots(parent_slot, slot_info.slot) > 0
            ==> slot_info.duration@ * exponential_factor(skipped_slots(parent_slot, slot_info.slot)) <= max_duration_nanos(),
    ensures
        match r {
            None => skipped_slots(parent_slot, slot_info.slot) == 0,
            Some(d) => skipped_slots(parent_slot, slot_info.slot) > 0
                && d@ == slot_info.duration@ * exponential_factor(skipped_slots(parent_slot, slot_info.slot)),
        },
{
    let backoff_cap: u64 = 7;
    let backoff_step: u64 = 2;
    let skipped = count_skipped(parent_slot, slot_info.slot);
    if skipped == 0 {
        None
    } else {
        let lenience = skipped / backoff_step;
        let lenience = if lenience <= backoff_cap { lenience } else { backoff_cap };
        proof {
            vstd::bits::lemma_u32_pow2_no_overflow(lenience as nat);
            vstd::arithmetic::power2::lemma2_to64();
            assert(1u32 * pow2(lenience as nat) <= u32::MAX);
            vstd::bits::lemma_u32_shl_is_mul(1u32, lenience as u32);
        }
        let factor: u32 = 1u32 << (lenience as u32);
        Some(slot_info.duration.mul_u32(factor))
    }
}

/// The lenience after skipped slots, one slot duration per skipped slot up
/// to 20; none when no slot was skipped.
pub fn slot_lenience_linear(parent_slot: u64, slot_info: &SlotInfo) -> (r: Option<Duration>)
    requires
        parent_slot < u64::MAX,
        slot_info.duration@ * linear_factor(skipped_slots(parent_slot, slot_info.slot)) <= max_duration_nanos(),
    ensures
        match r {
            None => skipped_slots(parent_slot, slot_info.slot) == 0,
            Some(d) => skipped_slots(parent_slot, slot_info.slot) > 0
                && d@ == slot_info.duration@ * linear_factor(skipped_slots(parent_slot, slot_info.slot)),
        },
{
    let backoff_cap: u64 = 20;
    let skipped = count_skipped(parent_slot, slot_info.slot);
    if skipped == 0 {
        None
    } else {
        let lenience = if skipped <= backoff_cap { skipped } else { backoff_cap };
        Some(slot_info.duration.mul_u32(lenience as u32))
    }
}

/// Backs off authoring when the unfinalized part of the chain grows too
/// long.
#[derive(Clone, Copy, Debug)]
pub struct BackoffAuthoringOnFinalizedHeadLagging {
    /// The most slots to back off, whatever the finality delay.
    pub max_interval: u64,
    /// The unfinalized blocks allowed before backing off is considered.
    pub unfinalized_slack: u64,
    /// Scales the backoff down: a higher value backs off more slowly.
    pub authoring_bias: u64,
}

impl Default for BackoffAuthoringOnFinalizedHeadLagging {
    /// Never wait more than 100 slots, consider backing off from 50
    /// unfinalized blocks on, and let the unfinalized suffix count half.
    fn default() -> (r: Self)
        ensures
            r.max_interval == 100,
            r.unfinalized_slack == 50,
            r.authoring_bias == 2,
    {
        BackoffAuthoringOnFinalizedHeadLagging { max_interval: 100, unfinalized_slack: 50, authoring_bias: 2 }
    }
}

impl BackoffAuthoringOnFinalizedHeadLagging {
    /// The slots to back off for an unfinalized suffix of `unfinalized`
    /// blocks: the part beyond the slack, scaled down by the bias, at most
    /// the maximum interval.
    pub open spec fn interval(self, unfinalized: nat) -> nat {
        let over = if unfinalized >= self.unfinalized_slack { (unfinalized - self.unfinalized_slack) as nat } else { 0 };
        let scaled = over / (self.authoring_bias as nat);
        if scaled <= self.max_interval { scaled } else { self.max_interval as nat }
    }

    /// Whether to back off: only when the slot is past the chain head's,
    /// and then while it is no further ahead than the interval.
    pub open spec fn backs_off(self, chain_head_number: u64, chain_head_slot: u64, finalized_number: u64, slot_now: u64) -> bool {
        slot_now > chain_head_slot
            && slot_now <= chain_head_slot + self.interval((chain_head_number - finalized_number) as nat)
    }

    /// Where the decision does not panic: past the chain head's slot, the
    /// finalized block is not above the head, the bias is not zero, and the
    /// slot bound fits.
    pub open spec fn decidable(self, chain_head_number: u64, chain_head_slot: u64, finalized_number: u64, slot_now: u64) -> bool {
        slot_now > chain_head_slot ==> {
            &&& finalized_number <= chain_head_number
            &&& self.authoring_bias > 0
            &&& chain_head_slot + self.interval((chain_head_number - finalized_number) as nat) <= u64::MAX
        }
    }

    /// Decides whether to back off, as `backs_off` says.
    pub fn should_backoff(&self, chain_head_number: u64, chain_head_slot: u64, finalized_number: u64, slot_now: u64) -> (r: bool)
        requires
            self.decidable(chain_head_number, chain_head_slot, finalized_number, slot_now),
        ensures
            r == self.backs_off(chain_head_number, chain_head_slot, finalized_number, slot_now),
    {
        if slot_now <= chain_head_slot {
            return false;
        }
        let unfinalized_block_length = chain_head_number - finalized_number;
        let interval = unfinalized_block_length.saturating_sub(self.unfinalized_slack) / self.authoring_bias;
        let interval = if interval <= self.max_interval { interval } else { self.max_interval };
        slot_now <= chain_head_slot + interval
    }
}

/// A slot duration read from the chain; valid only when not zero.
#[derive(Clone, Copy, Debug)]
pub struct SlotDuration<T>(T);

/// Errors about slot durations.
#[derive(Debug)]
pub enum SlotError<T> {
    /// The slot duration is zero.
    SlotDurationInvalid(SlotDuration<T>),
}

/// Why the slot duration kept by the node cannot be used.
#[derive(Debug)]
pub enum SlotDurationError {
    /// The stored value does not decode.
    InvalidFormat,
    /// The slot duration is zero.
    SlotDurationInvalid(SlotDuration<u64>),
}

/// The slot duration, in milliseconds, that a stored value gives: its first
/// eight bytes read as a little-endian number; none when it is shorter.
pub open spec fn stored_millis(stored: Seq<u8>) -> Option<u64> {
    if stored.len() < 8 {
        None
    } else {
        Some(le_value(stored.subrange(0, 8)) as u64)
    }
}

/// The slot duration kept by the node, in milliseconds, as it is stored:
/// refused when it does not decode, or when it is zero.
pub fn stored_slot_duration(stored: &Vec<u8>) -> (r: Result<SlotDuration<u64>, SlotDurationError>)
    ensures
        match stored_millis(stored@) {
            None => r is Err && r->Err_0 is InvalidFormat,
            Some(ms) => if ms == 0 {
                r matches Err(SlotDurationError::SlotDurationInvalid(d)) && d.value() == 0
            } else {
                r matches Ok(d) && d.value() == ms
            },
        },
{
    match decode_u64(stored.as_slice()) {
        Err(_) => Err(SlotDurationError::InvalidFormat),
        Ok(ms) => {
            if ms == 0 {
                Err(SlotDurationError::SlotDurationInvalid(SlotDuration(ms)))
            } else {
                Ok(SlotDuration(ms))
            }
        },
    }
}

/// The slot duration computed at genesis, in milliseconds, on first
/// launch: the bytes to keep for the next launches (its SCALE encoding),
/// and the slot duration, refused when zero.
pub fn computed_slot_duration(ms: u64) -> (r: (Vec<u8>, Result<SlotDuration<u64>, SlotDurationError>))
    ensures
        r.0@ == u64_encoding(ms),
        ms == 0 ==> (r.1 matches Err(SlotDurationError::SlotDurationInvalid(d)) && d.value() == 0),
        ms != 0 ==> (r.1 matches Ok(d) && d.value() == ms),
{
    let bytes = encode_u64(ms);
    if ms == 0 {
        (bytes, Err(SlotDurationError::SlotDurationInvalid(SlotDuration(ms))))
    } else {
        (bytes, Ok(SlotDuration(ms)))
    }
}

impl<T> SlotDuration<T> {
    /// The slot data held.
    pub closed spec fn value(self) -> T {
        self.0
    }
}

impl<T: Copy> SlotDuration<T> {
    /// The slot data read or computed, accepted unless its slot duration
    /// is zero.
    pub fn checked(value: T, slot_duration: &Duration) -> (r: Result<SlotDuration<T>, SlotError<T>>)
        ensures
            match r {
                Ok(d) => !(slot_duration@ == 0) && d.value() == value,
                Err(SlotError::SlotDurationInvalid(d)) => slot_duration@ == 0 && d.value() == value,
            },
    {
        if slot_duration.is_zero() {
            Err(SlotError::SlotDurationInvalid(SlotDuration(value)))
        } else {
            Ok(SlotDuration(value))
        }
    }

    /// The slot data.
    pub fn get(&self) -> (r: T)
        ensures
            r == self.value(),
    {
        self.0
    }
}

/// The exponential lenience never exceeds 2^7 slot durations and grows
/// with the number of skipped slots.
pub proof fn lemma_exponential_lenience_bounded(skipped: nat, more: nat)
    requires
        skipped <= more,
    ensures
        1 <= exponential_factor(skipped) <= 128,
        exponential_factor(skipped) <= exponential_factor(more),
{
    let e1: nat = if skipped / 2 <= 7 { skipped / 2 } else { 7 };
    let e2: nat = if more / 2 <= 7 { more / 2 } else { 7 };
    assert(skipped / 2 <= more / 2) by (nonlinear_arith)
        requires
            skipped <= more,
    ;
    vstd::arithmetic::power2::lemma2_to64();
    vstd::arithmetic::power2::lemma_pow2_pos(e1);
    if e1 < e2 {
        vstd::arithmetic::power2::lemma_pow2_strictly_increases(e1, e2);
    }
    if e1 < 7 {
        vstd::arithmetic::power2::lemma_pow2_strictly_increases(e1, 7);
    }
}

/// The linear lenience never exceeds 20 slot durations and grows with the
/// number of skipped slots.
pub proof fn lemma_linear_lenience_bounded(skipped: nat, more: nat)
    requires
        skipped <= more,
    ensures
        linear_factor(skipped) <= 20,
        linear_factor(skipped) <= linear_factor(more),
{
}

/// Authoring never backs off for more than the maximum interval of slots
/// past the chain head, and not at all while the unfinalized blocks do not
/// exceed the slack.
pub proof fn lemma_backoff_bounded(
    strategy: BackoffAuthoringOnFinalizedHeadLagging,
    chain_head_number: u64,
    chain_head_slot: u64,
    finalized_number: u64,
    slot_now: u64,
)
    requires
        strategy.authoring_bias > 0,
        finalized_number <= chain_head_number,
    ensures
        strategy.backs_off(chain_head_number, chain_head_slot, finalized_number, slot_now)
            ==> slot_now <= chain_head_slot + strategy.max_interval,
        chain_head_number - finalized_number <= strategy.unfinalized_slack
            ==> !strategy.backs_off(chain_head_number, chain_head_slot, finalized_number, slot_now),
{
}

/// What a slot worker produced in a slot: the block, and the storage
/// proof recorded while building it.
pub struct SlotResult<B, P> {
    /// The block that was built.
    pub block: B,
    /// The storage proof recorded while building the block.
    pub storage_proof: P,
}

/// A header checked against its slot.
#[derive(Debug)]
pub enum CheckedHeader<H, S> {
    /// The header's slot is in the future: the full header, and the slot in
    /// which it is to be processed.
    Deferred(H, u64),
    /// The header is fully checked, seal included: the pre-header and the
    /// seal components.
    Checked(H, S),
}

/// How proposing a block in a slot ended.
#[derive(Clone, Copy, Debug, PartialEq, Eq, Structural)]
pub enum ProposalOutcome {
    /// A block was proposed in time.
    Proposed,
    /// Proposing failed.
    Failed,
    /// The time left for proposing ran out first.
    TimedOut,
}

/// Where the slot worker is in handling a slot.
#[derive(Clone, Copy, Debug, PartialEq, Eq, Structural)]
pub enum SlotStage {
    /// The slot just started; the time left for proposing is asked.
    Start,
    /// The epoch data is being fetched.
    AwaitEpoch,
    /// The slot was notified; the authorities are being counted.
    AwaitAuthorities,
    /// Whether the node is offline is being asked; the number of
    /// authorities, if known, is kept.
    AwaitOffline(Option<usize>),
    /// The slot is being claimed.
    AwaitClaim,
    /// Whether to back off is being asked.
    AwaitBackoff,
    /// A proposer is being created.
    AwaitProposer,
    /// A block is being proposed.
    AwaitProposal,
    /// The block's import parameters are being built.
    AwaitImportParams,
    /// The block is being imported.
    AwaitImport,
    /// The slot is handled.
    Finished,
}

/// What the slot worker learnt from its last action.
#[derive(Clone, Copy, Debug)]
pub enum SlotEvent {
    /// The time left for proposing in this slot.
    RemainingDuration(Duration),
    /// Whether the epoch data could be fetched.
    EpochData(bool),
    /// Whether authoring is forced, and the number of authorities, if
    /// known.
    Authorities(bool, Option<usize>),
    /// Whether the node is offline.
    Offline(bool),
    /// Whether the slot was claimed.
    Claimed(bool),
    /// Whether to back off.
    Backoff(bool),
    /// Whether a proposer was created.
    ProposerCreated(bool),
    /// How proposing ended.
    Proposal(ProposalOutcome),
    /// Whether the import parameters were built.
    ImportParams(bool),
    /// The block was handed to import, whatever came of it.
    Imported,
}

/// What the slot worker does next.
#[derive(Clone, Copy, Debug, PartialEq, Eq, Structural)]
pub enum SlotAction {
    /// Fetch the epoch data at the chain head.
    FetchEpochData,
    /// Notify the slot and count the authorities.
    NotifyAndCountAuthorities,
    /// Ask whether the node is offline.
    CheckOffline,
    /// Try to claim the slot.
    ClaimSlot,
    /// Ask whether to back off.
    CheckBackoff,
    /// Create a proposer on the chain head.
    CreateProposer,
    /// Propose a block, within the time left.
    Propose,
    /// Build the block's import parameters.
    BuildImportParams,
    /// Import the block.
    ImportBlock,
    /// Stop: whether a block was produced in the slot.
    Done(bool),
}

/// The event answers the stage's question.
pub open spec fn event_fits(stage: SlotStage, event: SlotEvent) -> bool {
    match stage {
        SlotStage::Start => event is RemainingDuration,
        SlotStage::AwaitEpoch => event is EpochData,
        SlotStage::AwaitAuthorities => event is Authorities,
        SlotStage::AwaitOffline(_) => event is Offline,
        SlotStage::AwaitClaim => event is Claimed,
        SlotStage::AwaitBackoff => event is Backoff,
        SlotStage::AwaitProposer => event is ProposerCreated,
        SlotStage::AwaitProposal => event is Proposal,
        SlotStage::AwaitImportParams => event is ImportParams,
        SlotStage::AwaitImport => event is Imported,
        SlotStage::Finished => false,
    }
}

/// The next stage and action: a slot with no time left, no epoch data, an
/// offline node among several authorities (unless authoring is forced), no
/// claim, a backoff, no proposer, a failed or late proposal or no import
/// parameters produces no block; a block handed to import is produced.
pub open spec fn slot_step(stage: SlotStage, event: SlotEvent) -> (SlotStage, SlotAction) {
    match (stage, event) {
        (SlotStage::Start, SlotEvent::RemainingDuration(d)) =>
            if d@ == 0 { (SlotStage::Finished, SlotAction::Done(false)) } else { (SlotStage::AwaitEpoch, SlotAction::FetchEpochData) },
        (SlotStage::AwaitEpoch, SlotEvent::EpochData(ok)) =>
            if ok { (SlotStage::AwaitAuthorities, SlotAction::NotifyAndCountAuthorities) } else { (SlotStage::Finished, SlotAction::Done(false)) },
        (SlotStage::AwaitAuthorities, SlotEvent::Authorities(force, len)) =>
            if force { (SlotStage::AwaitClaim, SlotAction::ClaimSlot) } else { (SlotStage::AwaitOffline(len), SlotAction::CheckOffline) },
        (SlotStage::AwaitOffline(len), SlotEvent::Offline(offline)) =>
            if offline && (len matches Some(n) && n > 1) { (SlotStage::Finished, SlotAction::Done(false)) } else { (SlotStage::AwaitClaim, SlotAction::ClaimSlot) },
        (SlotStage::AwaitClaim, SlotEvent::Claimed(c)) =>
            if c { (SlotStage::AwaitBackoff, SlotAction::CheckBackoff) } else { (SlotStage::Finished, SlotAction::Done(false)) },
        (SlotStage::AwaitBackoff, SlotEvent::Backoff(b)) =>
            if b { (SlotStage::Finished, SlotAction::Done(false)) } else { (SlotStage::AwaitProposer, SlotAction::CreateProposer) },
        (SlotStage::AwaitProposer, SlotEvent::ProposerCreated(ok)) =>
            if ok { (SlotStage::AwaitProposal, SlotAction::Propose) } else { (SlotStage::Finished, SlotAction::Done(false)) },
        (SlotStage::AwaitProposal, SlotEvent::Proposal(o)) =>
            if o == ProposalOutcome::Proposed { (SlotStage::AwaitImportParams, SlotAction::BuildImportParams) } else { (SlotStage::Finished, SlotAction::Done(false)) },
        (SlotStage::AwaitImportParams, SlotEvent::ImportParams(ok)) =>
            if ok { (SlotStage::AwaitImport, SlotAction::ImportBlock) } else { (SlotStage::Finished, SlotAction::Done(false)) },
        (SlotStage::AwaitImport, SlotEvent::Imported) => (SlotStage::Finished, SlotAction::Done(true)),
        _ => (stage, SlotAction::Done(false)),
    }
}

/// The slot worker's next stage and action once `event` answered what the
/// stage asked, as `slot_step` says.
pub fn on_slot_step(stage: SlotStage, event: SlotEvent) -> (r: (SlotStage, SlotAction))
    requires
        event_fits(stage, event),
    ensures
        r == slot_step(stage, event),
{
    match (stage, event) {
        (SlotStage::Start, SlotEvent::RemainingDuration(d)) => {
            if d.is_zero() { (SlotStage::Finished, SlotAction::Done(false)) } else { (SlotStage::AwaitEpoch, SlotAction::FetchEpochData) }
        },
        (SlotStage::AwaitEpoch, SlotEvent::EpochData(ok)) => {
            if ok { (SlotStage::AwaitAuthorities, SlotAction::NotifyAndCountAuthorities) } else { (SlotStage::Finished, SlotAction::Done(false)) }
        },
        (SlotStage::AwaitAuthorities, SlotEvent::Authorities(force, len)) => {
            if force { (SlotStage::AwaitClaim, SlotAction::ClaimSlot) } else { (SlotStage::AwaitOffline(len), SlotAction::CheckOffline) }
        },
        (SlotStage::AwaitOffline(len), SlotEvent::Offline(offline)) => {
            let many = match len {
                Some(n) => n > 1,
                None => false,
            };
            if offline && many { (SlotStage::Finished, SlotAction::Done(false)) } else { (SlotStage::AwaitClaim, SlotAction::ClaimSlot) }
        },
        (SlotStage::AwaitClaim, SlotEvent::Claimed(c)) => {
            if c { (SlotStage::AwaitBackoff, SlotAction::CheckBackoff) } else { (SlotStage::Finished, SlotAction::Done(false)) }
        },
        (SlotStage::AwaitBackoff, SlotEvent::Backoff(b)) => {
            if b { (SlotStage::Finished, SlotAction::Done(false)) } else { (SlotStage::AwaitProposer, SlotAction::CreateProposer) }
        },
        (SlotStage::AwaitProposer, SlotEvent::ProposerCreated(ok)) => {
            if ok { (SlotStage::AwaitProposal, SlotAction::Propose) } else { (SlotStage::Finished, SlotAction::Done(false)) }
        },
        (SlotStage::AwaitProposal, SlotEvent::Proposal(o)) => {
            if o == ProposalOutcome::Proposed {
                (SlotStage::AwaitImportParams, SlotAction::BuildImportParams)
            } else {
                (SlotStage::Finished, SlotAction::Done(false))
            }
        },
        (SlotStage::AwaitImportParams, SlotEvent::ImportParams(ok)) => {
            if ok { (SlotStage::AwaitImport, SlotAction::ImportBlock) } else { (SlotStage::Finished, SlotAction::Done(false)) }
        },
        (SlotStage::AwaitImport, SlotEvent::Imported) => (SlotStage::Finished, SlotAction::Done(true)),
        _ => (stage, SlotAction::Done(false)),
    }
}

/// Running the slot worker from the start on a sequence of answers, each
/// fitting the stage it answers, until it is done: the final stage and
/// action.
pub open spec fn run_slot(events: Seq<SlotEvent>) -> (SlotStage, SlotAction)
    decreases events.len(),
{
    if events.len() == 0 {
        (SlotStage::Start, SlotAction::Done(false))
    } else {
        let (stage, _) = run_slot(events.drop_last());
        slot_step(stage, events.last())
    }
}

/// A block is produced only at the end of the full sequence of steps: the
/// slot had time left, the epoch data was there, the slot was claimed, no
/// backoff was asked, the proposal was made in time and it was imported.
pub proof fn lemma_block_only_after_claim(events: Seq<SlotEvent>)
    requires
        run_slot(events).1 == SlotAction::Done(true),
        forall|i: int| 0 <= i < events.len() ==> #[trigger] event_fits(run_slot(events.take(i)).0, events[i]),
    ensures
        exists|i: int| 0 <= i < events.len() && events[i] == SlotEvent::Claimed(true),
        exists|i: int| 0 <= i < events.len() && events[i] == SlotEvent::Backoff(false),
        exists|i: int| 0 <= i < events.len() && events[i] == SlotEvent::Proposal(ProposalOutcome::Proposed),
        events.last() == SlotEvent::Imported,
    decreases events.len(),
{
    lemma_stage_history(events);
}

/// What reaching a stage says of the answers given so far.
proof fn lemma_stage_history(events: Seq<SlotEvent>)
    requires
        forall|i: int| 0 <= i < events.len() ==> #[trigger] event_fits(run_slot(events.take(i)).0, events[i]),
    ensures
        ({
            let (stage, action) = run_slot(events);
            &&& (stage is AwaitBackoff || stage is AwaitProposer || stage is AwaitProposal || stage is AwaitImportParams
                || stage is AwaitImport || action == SlotAction::Done(true))
                ==> exists|i: int| 0 <= i < events.len() && events[i] == SlotEvent::Claimed(true)
            &&& (stage is AwaitProposer || stage is AwaitProposal || stage is AwaitImportParams
                || stage is AwaitImport || action == SlotAction::Done(true))
                ==> exists|i: int| 0 <= i < events.len() && events[i] == SlotEvent::Backoff(false)
            &&& (stage is AwaitImportParams || stage is AwaitImport || action == SlotAction::Done(true))
                ==> exists|i: int| 0 <= i < events.len() && events[i] == SlotEvent::Proposal(ProposalOutcome::Proposed)
            &&& action == SlotAction::Done(true) ==> events.len() > 0 && events.last() == SlotEvent::Imported
            &&& stage is Finished ==> action is Done
        }),
    decreases events.len(),
{
    if events.len() > 0 {
        let prefix = events.drop_last();
        assert forall|i: int| 0 <= i < prefix.len() implies #[trigger] event_fits(run_slot(prefix.take(i)).0, prefix[i]) by {
            assert(prefix.take(i) =~= events.take(i));
            assert(event_fits(run_slot(events.take(i)).0, events[i]));
        }
        lemma_stage_history(prefix);
        let n = events.len() - 1;
        assert(events.take(n) =~= prefix);
        assert(event_fits(run_slot(events.take(n)).0, events[n]));
        let (stage, _) = run_slot(prefix);
        let e = events.last();
        if exists|i: int| 0 <= i < prefix.len() && prefix[i] == SlotEvent::Claimed(true) {
            let i = choose|i: int| 0 <= i < prefix.len() && prefix[i] == SlotEvent::Claimed(true);
            assert(events[i] == SlotEvent::Claimed(true));
        }
        if exists|i: int| 0 <= i < prefix.len() && prefix[i] == SlotEvent::Backoff(false) {
            let i = choose|i: int| 0 <= i < prefix.len() && prefix[i] == SlotEvent::Backoff(false);
            assert(events[i] == SlotEvent::Backoff(false));
        }
        if exists|i: int| 0 <= i < prefix.len() && prefix[i] == SlotEvent::Proposal(ProposalOutcome::Proposed) {
            let i = choose|i: int| 0 <= i < prefix.len() && prefix[i] == SlotEvent::Proposal(ProposalOutcome::Proposed);
            assert(events[i] == SlotEvent::Proposal(ProposalOutcome::Proposed));
        }
        assert(events[n] == e);
    }
}

/// What the slot loop learnt, on its way to deciding whether to author in
/// a slot.
#[derive(Clone, Copy, Debug)]
pub enum GateEvent {
    /// Whether the timer gave a slot.
    Timer(bool),
    /// Whether the node is in a major sync.
    MajorSyncing(bool),
    /// Whether the best block could be read.
    BestChain(bool),
    /// Whether a block can be authored on the best block.
    CanAuthor(bool),
}

/// What the slot loop does next.
#[derive(Clone, Copy, Debug, PartialEq, Eq, Structural)]
pub enum GateAction {
    /// Ask whether the node is in a major sync.
    CheckSyncing,
    /// Read the best block.
    ReadBestChain,
    /// Ask whether a block can be authored on the best block.
    CheckCanAuthor,
    /// Hand the slot to the slot worker.
    Author,
    /// Skip the slot and wait for the next.
    Skip,
    /// The timer failed: the loop ends.
    Stop,
}

/// The slot loop's decision: the loop ends when the timer fails; a slot is
/// skipped while syncing, without a best block, or when no block can be
/// authored on it; otherwise it goes to the slot worker. The questions are
/// asked in that order, each only when the one before let the slot through.
pub open spec fn slot_gate_spec(event: GateEvent) -> GateAction {
    match event {
        GateEvent::Timer(ok) => if ok { GateAction::CheckSyncing } else { GateAction::Stop },
        GateEvent::MajorSyncing(syncing) => if syncing { GateAction::Skip } else { GateAction::ReadBestChain },
        GateEvent::BestChain(found) => if found { GateAction::CheckCanAuthor } else { GateAction::Skip },
        GateEvent::CanAuthor(can) => if can { GateAction::Author } else { GateAction::Skip },
    }
}

/// The slot loop's decision on what it learnt, as `slot_gate_spec` says.
pub fn slot_gate(event: GateEvent) -> (r: GateAction)
    ensures
        r == slot_gate_spec(event),
{
    match event {
        GateEvent::Timer(ok) => if ok { GateAction::CheckSyncing } else { GateAction::Stop },
        GateEvent::MajorSyncing(syncing) => if syncing { GateAction::Skip } else { GateAction::ReadBestChain },
        GateEvent::BestChain(found) => if found { GateAction::CheckCanAuthor } else { GateAction::Skip },
        GateEvent::CanAuthor(can) => if can { GateAction::Author } else { GateAction::Skip },
    }
}

/// The answers the slot loop gets for one slot, asked in turn until one
/// decides: `(timer, syncing, best chain, can author)`.
pub open spec fn gate_outcome(timer: bool, syncing: bool, best_chain: bool, can_author: bool) -> GateAction {
    match slot_gate_spec(GateEvent::Timer(timer)) {
        GateAction::CheckSyncing => match slot_gate_spec(GateEvent::MajorSyncing(syncing)) {
            GateAction::ReadBestChain => match slot_gate_spec(GateEvent::BestChain(best_chain)) {
                GateAction::CheckCanAuthor => slot_gate_spec(GateEvent::CanAuthor(can_author)),
                a => a,
            },
            a => a,
        },
        a => a,
    }
}

/// A slot goes to the slot worker exactly when the timer gave it, the node
/// is not syncing, there is a best block and a block can be authored on it;
/// the loop ends exactly when the timer fails.
pub proof fn lemma_gate_authors_only_when_all_allow(timer: bool, syncing: bool, best_chain: bool, can_author: bool)
    ensures
        (gate_outcome(timer, syncing, best_chain, can_author) == GateAction::Author)
            == (timer && !syncing && best_chain && can_author),
        (gate_outcome(timer, syncing, best_chain, can_author) == GateAction::Stop) == !timer,
{
}

} // verus!
