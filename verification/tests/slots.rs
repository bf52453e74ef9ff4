use vertic::slots::{
    slot_lenience_exponential, slot_lenience_linear, BackoffAuthoringOnFinalizedHeadLagging, Duration,
    SlotDuration, SlotError, SlotInfo,
};

fn info(slot: u64, ms: u64) -> SlotInfo {
    SlotInfo { slot, timestamp: 0, duration: Duration::from_millis(ms) }
}

#[test]
fn no_lenience_without_skipped_slots() {
    assert!(slot_lenience_exponential(9, &info(10, 1000)).is_none());
    assert!(slot_lenience_linear(9, &info(10, 1000)).is_none());
    assert!(slot_lenience_exponential(12, &info(10, 1000)).is_none());
}

#[test]
fn exponential_lenience_doubles_every_two_slots() {
    let d = |parent: u64| slot_lenience_exponential(parent, &info(100, 1000)).unwrap().as_nanos();
    assert_eq!(d(98), 1_000_000_000);
    assert_eq!(d(97), 2_000_000_000);
    assert_eq!(d(96), 2_000_000_000);
    assert_eq!(d(95), 4_000_000_000);
    assert_eq!(d(0), 128_000_000_000);
}

#[test]
fn linear_lenience_grows_to_twenty_slots() {
    let d = |parent: u64| slot_lenience_linear(parent, &info(100, 1000)).unwrap().as_nanos();
    assert_eq!(d(98), 1_000_000_000);
    assert_eq!(d(95), 4_000_000_000);
    assert_eq!(d(0), 20_000_000_000);
}

#[test]
fn duration_parts() {
    let d = Duration::new(3, 1_500_000_000);
    assert_eq!(d.as_secs(), 4);
    assert_eq!(d.subsec_nanos(), 500_000_000);
    assert_eq!(d.mul_u32(3).as_nanos(), 13_500_000_000);
    assert!(Duration::zero().is_zero());
    assert!(!d.is_zero());
}

#[test]
fn default_backoff_parameters() {
    let b = BackoffAuthoringOnFinalizedHeadLagging::default();
    assert_eq!(b.max_interval, 100);
    assert_eq!(b.unfinalized_slack, 50);
    assert_eq!(b.authoring_bias, 2);
}

#[test]
fn backoff_while_finality_lags() {
    let b = BackoffAuthoringOnFinalizedHeadLagging::default();
    // slot not past the head's: never back off
    assert!(!b.should_backoff(100, 10, 0, 10));
    // 30 unfinalized blocks is within the slack
    assert!(!b.should_backoff(130, 10, 100, 11));
    // 150 unfinalized blocks: interval (150 - 50) / 2 = 50 slots
    assert!(b.should_backoff(150, 10, 0, 60));
    assert!(!b.should_backoff(150, 10, 0, 61));
    // the interval never exceeds 100 slots
    assert!(b.should_backoff(10_000, 10, 0, 110));
    assert!(!b.should_backoff(10_000, 10, 0, 111));
}

#[test]
fn zero_slot_duration_is_invalid() {
    assert!(matches!(SlotDuration::checked(7u64, &Duration::zero()), Err(SlotError::SlotDurationInvalid(_))));
    let d = SlotDuration::checked(7u64, &Duration::from_millis(3000)).ok().unwrap();
    assert_eq!(d.get(), 7);
}

use vertic::slots::{computed_slot_duration, stored_slot_duration, SlotDurationError};
use vertic::slots::{on_slot_step, slot_gate, GateAction, GateEvent, ProposalOutcome, SlotAction, SlotEvent, SlotStage};

fn run(events: &[SlotEvent]) -> (SlotStage, SlotAction) {
    let mut stage = SlotStage::Start;
    let mut action = SlotAction::Done(false);
    for e in events {
        let (s, a) = on_slot_step(stage, *e);
        stage = s;
        action = a;
    }
    (stage, action)
}

#[test]
fn slot_with_claim_produces_block() {
    let events = [
        SlotEvent::RemainingDuration(Duration::from_millis(100)),
        SlotEvent::EpochData(true),
        SlotEvent::Authorities(false, Some(3)),
        SlotEvent::Offline(false),
        SlotEvent::Claimed(true),
        SlotEvent::Backoff(false),
        SlotEvent::ProposerCreated(true),
        SlotEvent::Proposal(ProposalOutcome::Proposed),
        SlotEvent::ImportParams(true),
        SlotEvent::Imported,
    ];
    assert_eq!(run(&events), (SlotStage::Finished, SlotAction::Done(true)));
    assert_eq!(run(&events[..3]), (SlotStage::AwaitOffline(Some(3)), SlotAction::CheckOffline));
}

#[test]
fn slot_skipped_for_each_reason() {
    assert_eq!(run(&[SlotEvent::RemainingDuration(Duration::zero())]), (SlotStage::Finished, SlotAction::Done(false)));
    let start = [SlotEvent::RemainingDuration(Duration::from_millis(5)), SlotEvent::EpochData(true)];
    assert_eq!(
        run(&[start[0], SlotEvent::EpochData(false)]),
        (SlotStage::Finished, SlotAction::Done(false))
    );
    assert_eq!(
        run(&[start[0], start[1], SlotEvent::Authorities(false, Some(2)), SlotEvent::Offline(true)]),
        (SlotStage::Finished, SlotAction::Done(false))
    );
    assert_eq!(
        run(&[start[0], start[1], SlotEvent::Authorities(false, Some(1)), SlotEvent::Offline(true)]),
        (SlotStage::AwaitClaim, SlotAction::ClaimSlot)
    );
    assert_eq!(
        run(&[start[0], start[1], SlotEvent::Authorities(true, Some(5))]),
        (SlotStage::AwaitClaim, SlotAction::ClaimSlot)
    );
    assert_eq!(
        run(&[start[0], start[1], SlotEvent::Authorities(true, None), SlotEvent::Claimed(false)]),
        (SlotStage::Finished, SlotAction::Done(false))
    );
    assert_eq!(
        run(&[start[0], start[1], SlotEvent::Authorities(true, None), SlotEvent::Claimed(true), SlotEvent::Backoff(true)]),
        (SlotStage::Finished, SlotAction::Done(false))
    );
    assert_eq!(
        run(&[
            start[0], start[1], SlotEvent::Authorities(true, None), SlotEvent::Claimed(true), SlotEvent::Backoff(false),
            SlotEvent::ProposerCreated(true), SlotEvent::Proposal(ProposalOutcome::TimedOut),
        ]),
        (SlotStage::Finished, SlotAction::Done(false))
    );
}

#[test]
fn slot_loop_gate() {
    assert_eq!(slot_gate(GateEvent::Timer(false)), GateAction::Stop);
    assert_eq!(slot_gate(GateEvent::Timer(true)), GateAction::CheckSyncing);
    assert_eq!(slot_gate(GateEvent::MajorSyncing(true)), GateAction::Skip);
    assert_eq!(slot_gate(GateEvent::MajorSyncing(false)), GateAction::ReadBestChain);
    assert_eq!(slot_gate(GateEvent::BestChain(false)), GateAction::Skip);
    assert_eq!(slot_gate(GateEvent::BestChain(true)), GateAction::CheckCanAuthor);
    assert_eq!(slot_gate(GateEvent::CanAuthor(false)), GateAction::Skip);
    assert_eq!(slot_gate(GateEvent::CanAuthor(true)), GateAction::Author);
}

#[test]
fn slot_duration_kept_or_computed() {
    assert_eq!(stored_slot_duration(&6000u64.to_le_bytes().to_vec()).ok().unwrap().get(), 6000);
    assert!(matches!(stored_slot_duration(&vec![1, 2, 3]), Err(SlotDurationError::InvalidFormat)));
    assert!(matches!(stored_slot_duration(&vec![0; 8]), Err(SlotDurationError::SlotDurationInvalid(_))));
    let (bytes, checked) = computed_slot_duration(3000);
    assert_eq!(bytes, 3000u64.to_le_bytes().to_vec());
    assert_eq!(checked.ok().unwrap().get(), 3000);
    let (bytes, checked) = computed_slot_duration(0);
    assert_eq!(bytes, vec![0; 8]);
    assert!(matches!(checked, Err(SlotDurationError::SlotDurationInvalid(_))));
}
