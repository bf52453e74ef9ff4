use vertic::basic_authorship::{inherent_accepted, PushResult, TransactionSelection, DEFAULT_MAX_BLOCK_SIZE, MAX_SKIPPED_TRANSACTIONS};

#[test]
fn only_failed_mandatory_inherent_stops_the_block() {
    assert!(inherent_accepted(PushResult::Applied));
    assert!(inherent_accepted(PushResult::ExhaustsResources));
    assert!(inherent_accepted(PushResult::Failed));
    assert!(!inherent_accepted(PushResult::InvalidMandatory));
}

#[test]
fn invalid_transactions_are_unqueued_before_skipping() {
    let mut s = TransactionSelection::new();
    assert!(s.on_push_result([1; 32], PushResult::Applied));
    assert!(s.on_push_result([2; 32], PushResult::Failed));
    assert_eq!(s.unqueue_invalid(), &vec![[2; 32]]);
    assert!(s.on_push_result([3; 32], PushResult::ExhaustsResources));
    assert_eq!(s.skipped(), 1);
    assert!(s.on_push_result([4; 32], PushResult::Failed));
    assert_eq!(s.unqueue_invalid().len(), 1);
}

#[test]
fn full_block_stops_after_eight_skipped() {
    let mut s = TransactionSelection::new();
    for i in 0..MAX_SKIPPED_TRANSACTIONS {
        assert!(s.on_push_result([i as u8; 32], PushResult::ExhaustsResources));
    }
    assert_eq!(s.skipped(), 8);
    assert!(!s.on_push_result([9; 32], PushResult::ExhaustsResources));
    assert_eq!(s.skipped(), 8);
    assert_eq!(DEFAULT_MAX_BLOCK_SIZE, 4 * 1024 * 1024 + 512);
}
