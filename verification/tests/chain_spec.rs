use vertic::chain_spec::{testnet_genesis, ENDOWMENT};

#[test]
fn endowment_is_two_to_the_sixty() {
    assert_eq!(ENDOWMENT, 1u128 << 60);
}

#[test]
fn genesis_lists_authorities_and_endowments() {
    let alice = [1u8; 32];
    let bob = [2u8; 32];
    let authorities = vec![([10u8; 32], [11u8; 32], alice, 1u64), ([20u8; 32], [21u8; 32], bob, 2u64)];
    let g = testnet_genesis(vec![0, 97, 115, 109], &authorities, alice, &vec![alice, bob]);
    assert_eq!(g.code, vec![0, 97, 115, 109]);
    assert_eq!(g.balances, vec![(alice, 1u128 << 60), (bob, 1u128 << 60)]);
    assert_eq!(g.aura_authorities, vec![[10u8; 32], [20u8; 32]]);
    assert_eq!(g.aura_accounts, vec![alice, bob]);
    assert_eq!(g.grandpa_authorities, vec![([11u8; 32], 1), ([21u8; 32], 2)]);
    assert_eq!(g.sudo_key, alice);
}
