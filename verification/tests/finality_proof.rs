use vertic::finality_proof::{encode_finality_proof, proof_target, unknown_headers, FinalityProofError, MAX_UNKNOWN_HEADERS};

#[test]
fn only_finalized_covered_blocks_are_proved() {
    assert_eq!(proof_target(10, 10, Some(12)), Err(FinalityProofError::BlockNotYetFinalized));
    assert_eq!(proof_target(10, 20, None), Err(FinalityProofError::BlockNotInAuthoritySetChanges));
    assert_eq!(proof_target(10, 20, Some(15)), Ok(15));
}

#[test]
fn headers_after_block_up_to_set_end() {
    // the headers 11..=15, the set's last block included
    assert_eq!(unknown_headers(10, 15), (11, 5));
    assert_eq!(unknown_headers(10, 11), (11, 1));
    assert_eq!(unknown_headers(10, 10), (11, 0));
    assert_eq!(unknown_headers(10, 5), (11, 0));
    assert_eq!(unknown_headers(0, 1_000_000), (1, MAX_UNKNOWN_HEADERS as u64));
    assert_eq!(unknown_headers(u64::MAX - 1, u64::MAX), (u64::MAX, 1));
}

#[test]
fn proof_encoding_is_scale() {
    let encoded = encode_finality_proof([1; 32], &vec![9, 9], &vec![vec![1, 2], vec![3]]);
    let mut expected = vec![1u8; 32];
    expected.extend_from_slice(&[8, 9, 9, 8, 1, 2, 3]);
    assert_eq!(encoded, expected);
}
