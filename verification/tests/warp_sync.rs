use vertic::warp_sync::{
    fragment_refused, verify_proof, verify_step, warp_begin, warp_change, warp_check_canonical, warp_finish, warp_full, ChangeStep, FragmentCheck, WarpError,
    MAX_CHANGES_PER_WARP_SYNC_PROOF,
};

#[test]
fn start_block_checks() {
    assert_eq!(warp_begin(None, 10), Err(WarpError::MissingStartBlock));
    assert_eq!(warp_begin(Some(11), 10), Err(WarpError::StartBlockNotFinalized));
    assert_eq!(warp_begin(Some(10), 10), Ok(10));
    assert_eq!(warp_check_canonical(&[1; 32], &[1; 32]), Ok(()));
    assert_eq!(warp_check_canonical(&[1; 32], &[2; 32]), Err(WarpError::StartBlockNotInFinalizedChain));
}

#[test]
fn set_changes_until_limit_or_forced_change() {
    assert!(!warp_full(0));
    assert!(warp_full(MAX_CHANGES_PER_WARP_SYNC_PROOF));
    assert_eq!(warp_change(3, true), ChangeStep::Include);
    assert_eq!(warp_change(3, false), ChangeStep::Broken);
    assert_eq!(warp_change(256, true), ChangeStep::LimitReached);
}

#[test]
fn proof_end() {
    // full: unfinished, nothing added
    assert_eq!(warp_finish(true, Some(5), 1, Some(100)), (false, false));
    // best justification past the last fragment
    assert_eq!(warp_finish(false, Some(5), 1, Some(6)), (true, true));
    assert_eq!(warp_finish(false, Some(5), 1, Some(5)), (false, true));
    // no fragment: not before the start block
    assert_eq!(warp_finish(false, None, 7, Some(7)), (true, true));
    assert_eq!(warp_finish(false, None, 7, Some(6)), (false, true));
    assert_eq!(warp_finish(false, None, 7, None), (false, true));
}

#[test]
fn fragments_checked_in_turn() {
    let a = vec![([1u8; 32], 1u64)];
    let b = vec![([2u8; 32], 1u64), ([3u8; 32], 2u64)];
    let ok = FragmentCheck { justification_valid: true, target_is_header: true, scheduled_change: Some(b.clone()) };
    assert_eq!(verify_step(4, a.clone(), 0, 2, ok), Ok((5, b.clone())));
    let last = FragmentCheck { justification_valid: true, target_is_header: true, scheduled_change: None };
    assert_eq!(verify_step(5, b.clone(), 1, 2, last.clone()), Ok((5, b.clone())));
    assert_eq!(verify_step(5, b.clone(), 0, 2, last), Err(WarpError::MissingAuthoritySetChange));
    let bad = FragmentCheck { justification_valid: false, target_is_header: true, scheduled_change: None };
    assert_eq!(verify_step(5, b.clone(), 1, 2, bad), Err(WarpError::InvalidJustification));
    let mismatch = FragmentCheck { justification_valid: true, target_is_header: false, scheduled_change: None };
    assert_eq!(verify_step(5, b, 1, 2, mismatch), Err(WarpError::HeaderMismatch));
}

#[test]
fn whole_proof_checked_fragment_by_fragment() {
    let a = vec![([1u8; 32], 1u64)];
    let b = vec![([2u8; 32], 1u64)];
    let c = vec![([3u8; 32], 4u64)];
    let change = |next: &Vec<([u8; 32], u64)>| FragmentCheck {
        justification_valid: true,
        target_is_header: true,
        scheduled_change: Some(next.clone()),
    };
    let last = FragmentCheck { justification_valid: true, target_is_header: true, scheduled_change: None };
    assert_eq!(verify_proof(7, a.clone(), 0, vec![]), Ok((7, a.clone())));
    assert_eq!(verify_proof(7, a.clone(), 2, vec![change(&b), change(&c)]), Ok((9, c.clone())));
    assert_eq!(verify_proof(7, a.clone(), 2, vec![change(&b), last.clone()]), Ok((8, b.clone())));
    assert_eq!(
        verify_proof(7, a.clone(), 2, vec![last.clone(), change(&b)]),
        Err(WarpError::MissingAuthoritySetChange)
    );
    let bad = FragmentCheck { justification_valid: false, target_is_header: true, scheduled_change: None };
    assert_eq!(verify_proof(7, a.clone(), 3, vec![change(&b), bad, last]), Err(WarpError::InvalidJustification));
}

#[test]
fn checking_stops_at_the_first_refused_fragment() {
    let a = vec![([1u8; 32], 1u64)];
    let b = vec![([2u8; 32], 1u64)];
    let last = FragmentCheck { justification_valid: true, target_is_header: true, scheduled_change: None };
    let change = FragmentCheck { justification_valid: true, target_is_header: true, scheduled_change: Some(b.clone()) };
    assert!(fragment_refused(0, 3, &last));
    assert!(!fragment_refused(2, 3, &last));
    assert!(!fragment_refused(0, 3, &change));
    assert_eq!(verify_proof(7, a.clone(), 3, vec![last.clone()]), Err(WarpError::MissingAuthoritySetChange));
    assert_eq!(verify_proof(7, a, 3, vec![change.clone(), change]), Ok((9, b)));
}
