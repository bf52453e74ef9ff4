use vertic::babe_rpc::{tally_epoch_authorship, ClaimKind};

#[test]
fn claims_are_tallied_per_key_and_kind() {
    let a = [1u8; 32];
    let b = [2u8; 32];
    let claims = vec![
        Some((ClaimKind::Primary, a)),
        None,
        Some((ClaimKind::SecondaryPlain, a)),
        Some((ClaimKind::SecondaryVRF, b)),
        Some((ClaimKind::Primary, a)),
    ];
    let t = tally_epoch_authorship(100, &claims);
    let ea = t.get(&a).unwrap();
    assert_eq!(ea.primary, vec![100, 104]);
    assert_eq!(ea.secondary, vec![102]);
    assert!(ea.secondary_vrf.is_empty());
    let eb = t.get(&b).unwrap();
    assert_eq!(eb.secondary_vrf, vec![103]);
    assert!(eb.primary.is_empty());
    assert!(t.get(&[3u8; 32]).is_none());
    assert_eq!(t.keys().len(), 2);
}
