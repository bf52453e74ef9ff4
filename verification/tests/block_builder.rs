use vertic::basic_authorship::PushResult;
use vertic::block_builder::{BlockBuilder, RecordProof};

#[test]
fn record_proof_from_flag() {
    assert_eq!(RecordProof::from(true), RecordProof::Yes);
    assert_eq!(RecordProof::from(false), RecordProof::No);
    assert!(RecordProof::from(true).yes());
    assert!(!RecordProof::from(false).yes());
    let r: RecordProof = true.into();
    assert!(r.yes());
}

#[test]
fn record_proof_default_is_no() {
    assert_eq!(RecordProof::default(), RecordProof::No);
    assert!(!RecordProof::default().yes());
}

#[test]
fn builder_keeps_applied_extrinsics_only() {
    let mut b = BlockBuilder::new([1; 32], 41, RecordProof::Yes);
    assert_eq!(b.number(), 42);
    assert_eq!(b.record_proof(), RecordProof::Yes);
    assert_eq!(b.push(vec![1], PushResult::Applied), Ok(()));
    assert_eq!(b.push(vec![2], PushResult::ExhaustsResources), Err(PushResult::ExhaustsResources));
    assert_eq!(b.push(vec![3], PushResult::Failed), Err(PushResult::Failed));
    assert_eq!(b.push(vec![4], PushResult::Applied), Ok(()));
    assert_eq!(b.extrinsics(), &vec![vec![1], vec![4]]);
}
