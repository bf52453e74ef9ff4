//! The genesis state of the test networks: the runtime code, the endowed
//! accounts, the block authorities and the root key.

use vstd::prelude::*;
use crate::accounts::AccountId32;

verus! {

/// The balance every endowed account starts with: 2^60.
pub const ENDOWMENT: u128 = 1152921504606846976;

/// An initial authority: its AURA key, its GRANDPA key, its account and
/// its GRANDPA weight.
pub type InitialAuthority = ([u8; 32], [u8; 32], AccountId32, u64);

/// The genesis configuration of a test network.
#[derive(Debug)]
pub struct TestnetGenesis {
    /// The runtime code.
    pub code: Vec<u8>,
    /// The endowed accounts and their balances.
    pub balances: Vec<(AccountId32, u128)>,
    /// The AURA authorities.
    pub aura_authorities: Vec<[u8; 32]>,
    /// The accounts of the AURA authorities.
    pub aura_accounts: Vec<AccountId32>,
    /// The GRANDPA authorities and their weights.
    pub grandpa_authorities: Vec<([u8; 32], u64)>,
    /// The root key.
    pub sudo_key: AccountId32,
}

/// The genesis configuration of a test network: the code; each endowed
/// account with `ENDOWMENT`; the authorities' AURA keys, accounts, and
/// GRANDPA keys with weights, in order; the root key.
pub fn testnet_genesis(code: Vec<u8>, initial_authorities: &Vec<InitialAuthority>, root_key: AccountId32, endowed_accounts: &Vec<AccountId32>) -> (r: TestnetGenesis)
    ensures
        r.code@ == code@,
        r.balances@ == endowed_accounts@.map_values(|k: AccountId32| (k, ENDOWMENT)),
        r.aura_authorities@ == initial_authorities@.map_values(|x: InitialAuthority| x.0),
        r.aura_accounts@ == initial_authorities@.map_values(|x: InitialAuthority| x.2),
        r.grandpa_authorities@ == initial_authorities@.map_values(|x: InitialAuthority| (x.1, x.3)),
        r.sudo_key == root_key,
{
    let mut balances: Vec<(AccountId32, u128)> = Vec::new();
    let mut i: usize = 0;
    while i < endowed_accounts.len()
        invariant
            i <= endowed_accounts@.len(),
            balances@ == endowed_accounts@.take(i as int).map_values(|k: AccountId32| (k, ENDOWMENT)),
        decreases endowed_accounts@.len() - i,
    {
        balances.push((endowed_accounts[i], ENDOWMENT));
        assert(endowed_accounts@.take(i as int + 1) =~= endowed_accounts@.take(i as int).push(endowed_accounts@[i as int]));
        assert(balances@ =~= endowed_accounts@.take(i as int + 1).map_values(|k: AccountId32| (k, ENDOWMENT)));
        i = i + 1;
    }
    assert(endowed_accounts@.take(endowed_accounts@.len() as int) =~= endowed_accounts@);

    let mut aura_authorities: Vec<[u8; 32]> = Vec::new();
    let mut aura_accounts: Vec<AccountId32> = Vec::new();
    let mut grandpa_authorities: Vec<([u8; 32], u64)> = Vec::new();
    let mut j: usize = 0;
    while j < initial_authorities.len()
        invariant
            j <= initial_authorities@.len(),
            aura_authorities@ == initial_authorities@.take(j as int).map_values(|x: InitialAuthority| x.0),
            aura_accounts@ == initial_authorities@.take(j as int).map_values(|x: InitialAuthority| x.2),
            grandpa_authorities@ == initial_authorities@.take(j as int).map_values(|x: InitialAuthority| (x.1, x.3)),
        decreases initial_authorities@.len() - j,
    {
        let a = initial_authorities[j];
        aura_authorities.push(a.0);
        aura_accounts.push(a.2);
        grandpa_authorities.push((a.1, a.3));
        let ghost next = initial_authorities@.take(j as int + 1);
        assert(next =~= initial_authorities@.take(j as int).push(a));
        assert(aura_authorities@ =~= next.map_values(|x: InitialAuthority| x.0));
        assert(aura_accounts@ =~= next.map_values(|x: InitialAuthority| x.2));
        assert(grandpa_authorities@ =~= next.map_values(|x: InitialAuthority| (x.1, x.3)));
        j = j + 1;
    }
    assert(initial_authorities@.take(initial_authorities@.len() as int) =~= initial_authorities@);
    TestnetGenesis { code, balances, aura_authorities, aura_accounts, grandpa_authorities, sudo_key: root_key }
}

} // verus!
