//! Which slots of an epoch each of the node's authority keys can claim,
//! tallied from the claims found slot by slot.

use vstd::prelude::*;
use crate::accounts::KeyMap;

verus! {

/// The kind of a slot claim.
#[derive(Clone, Copy, Debug, PartialEq, Eq, Structural)]
pub enum ClaimKind {
    /// A primary claim, by VRF.
    Primary,
    /// A secondary claim, in turn.
    SecondaryPlain,
    /// A secondary claim with a VRF output.
    SecondaryVRF,
}

/// The slots an authority key can claim in an epoch, by kind of claim.
#[derive(Debug)]
pub struct EpochAuthorship {
    /// The slots claimable as primary.
    pub primary: Vec<u64>,
    /// The slots claimable as secondary.
    pub secondary: Vec<u64>,
    /// The slots claimable as secondary with a VRF output.
    pub secondary_vrf: Vec<u64>,
}

impl Default for EpochAuthorship {
    /// No slots.
    fn default() -> (r: Self)
        ensures
            r.primary@ == Seq::<u64>::empty(),
            r.secondary@ == Seq::<u64>::empty(),
            r.secondary_vrf@ == Seq::<u64>::empty(),
    {
        EpochAuthorship { primary: Vec::new(), secondary: Vec::new(), secondary_vrf: Vec::new() }
    }
}

/// The slots, from `start` on, claimed by `key` with claims of `kind`, in
/// increasing order; `claims[i]` is the claim found for slot `start + i`.
pub open spec fn claimed_slots(claims: Seq<Option<(ClaimKind, [u8; 32])>>, start: nat, key: [u8; 32], kind: ClaimKind) -> Seq<u64>
    decreases claims.len(),
{
    if claims.len() == 0 {
        Seq::empty()
    } else {
        let prev = claimed_slots(claims.drop_last(), start, key, kind);
        match claims.last() {
            Some((k, a)) => if k == kind && a == key {
                prev.push((start + claims.len() - 1) as u64)
            } else {
                prev
            },
            None => prev,
        }
    }
}

/// Whether `key` claims some slot.
pub open spec fn has_claim(claims: Seq<Option<(ClaimKind, [u8; 32])>>, key: [u8; 32]) -> bool {
    exists|i: int| 0 <= i < claims.len() && (#[trigger] claims[i] matches Some((_, a)) && a == key)
}

/// The slots each key can claim in the epoch starting at `epoch_start`,
/// given the claim found for each of its slots in turn.
pub fn tally_epoch_authorship(epoch_start: u64, claims: &Vec<Option<(ClaimKind, [u8; 32])>>) -> (r: KeyMap<EpochAuthorship>)
    requires
        epoch_start + claims@.len() <= u64::MAX + 1,
    ensures
        forall|key: [u8; 32]| #[trigger] r@.contains_key(key) == has_claim(claims@, key),
        forall|key: [u8; 32]| #[trigger] r@.contains_key(key) ==> {
            &&& r@[key].primary@ == claimed_slots(claims@, epoch_start as nat, key, ClaimKind::Primary)
            &&& r@[key].secondary@ == claimed_slots(claims@, epoch_start as nat, key, ClaimKind::SecondaryPlain)
            &&& r@[key].secondary_vrf@ == claimed_slots(claims@, epoch_start as nat, key, ClaimKind::SecondaryVRF)
        },
{
    let mut tally: KeyMap<EpochAuthorship> = KeyMap::new();
    let mut i: usize = 0;
    while i < claims.len()
        invariant
            i <= claims@.len(),
            epoch_start + claims@.len() <= u64::MAX + 1,
            forall|key: [u8; 32]| #[trigger] tally@.contains_key(key) == has_claim(claims@.subrange(0, i as int), key),
            forall|key: [u8; 32]| #[trigger] tally@.contains_key(key) ==> {
                &&& tally@[key].primary@ == claimed_slots(claims@.subrange(0, i as int), epoch_start as nat, key, ClaimKind::Primary)
                &&& tally@[key].secondary@ == claimed_slots(claims@.subrange(0, i as int), epoch_start as nat, key, ClaimKind::SecondaryPlain)
                &&& tally@[key].secondary_vrf@ == claimed_slots(claims@.subrange(0, i as int), epoch_start as nat, key, ClaimKind::SecondaryVRF)
            },
        decreases claims@.len() - i,
    {
        let ghost pre = claims@.subrange(0, i as int);
        let ghost post = claims@.subrange(0, i as int + 1);
        assert(post.drop_last() =~= pre);
        assert(post.last() == claims@[i as int]);
        let slot = epoch_start + i as u64;
        let ghost old_tally = tally@;
        match claims[i] {
            Some((kind, key)) => {
                proof {
                    if !old_tally.contains_key(key) {
                        lemma_no_claim_no_slots(pre, epoch_start as nat, key, ClaimKind::Primary);
                        lemma_no_claim_no_slots(pre, epoch_start as nat, key, ClaimKind::SecondaryPlain);
                        lemma_no_claim_no_slots(pre, epoch_start as nat, key, ClaimKind::SecondaryVRF);
                    }
                }
                let mut entry = match tally.remove(&key) {
                    Some(e) => e,
                    None => EpochAuthorship::default(),
                };
                match kind {
                    ClaimKind::Primary => entry.primary.push(slot),
                    ClaimKind::SecondaryPlain => entry.secondary.push(slot),
                    ClaimKind::SecondaryVRF => entry.secondary_vrf.push(slot),
                }
                tally.insert(key, entry);
                proof {
                    assert forall|k: [u8; 32]| #[trigger] tally@.contains_key(k) == has_claim(post, k) by {
                        if has_claim(pre, k) {
                            let j = choose|j: int| 0 <= j < pre.len() && (#[trigger] pre[j] matches Some((_, a)) && a == k);
                            assert(post[j] == pre[j]);
                        }
                        if has_claim(post, k) && k != key {
                            let j = choose|j: int| 0 <= j < post.len() && (#[trigger] post[j] matches Some((_, a)) && a == k);
                            assert(j < i);
                            assert(pre[j] == post[j]);
                        }
                        if k == key {
                            assert(post[i as int] matches Some((_, a)) && a == k);
                        }
                    }
                    assert forall|k: [u8; 32]| #[trigger] tally@.contains_key(k) implies {
                        &&& tally@[k].primary@ == claimed_slots(post, epoch_start as nat, k, ClaimKind::Primary)
                        &&& tally@[k].secondary@ == claimed_slots(post, epoch_start as nat, k, ClaimKind::SecondaryPlain)
                        &&& tally@[k].secondary_vrf@ == claimed_slots(post, epoch_start as nat, k, ClaimKind::SecondaryVRF)
                    } by {
                        if k != key {
                            assert(old_tally.contains_key(k));
                            assert(tally@[k] == old_tally[k]);
                        }
                    }
                }
            },
            None => {
                proof {
                    assert forall|k: [u8; 32]| #[trigger] tally@.contains_key(k) == has_claim(post, k) by {
                        if has_claim(pre, k) {
                            let j = choose|j: int| 0 <= j < pre.len() && (#[trigger] pre[j] matches Some((_, a)) && a == k);
                            assert(post[j] == pre[j]);
                        }
                        if has_claim(post, k) {
                            let j = choose|j: int| 0 <= j < post.len() && (#[trigger] post[j] matches Some((_, a)) && a == k);
                            assert(j < i);
                            assert(pre[j] == post[j]);
                        }
                    }
                    assert forall|k: [u8; 32]| #[trigger] tally@.contains_key(k) implies {
                        &&& tally@[k].primary@ == claimed_slots(post, epoch_start as nat, k, ClaimKind::Primary)
                        &&& tally@[k].secondary@ == claimed_slots(post, epoch_start as nat, k, ClaimKind::SecondaryPlain)
                        &&& tally@[k].secondary_vrf@ == claimed_slots(post, epoch_start as nat, k, ClaimKind::SecondaryVRF)
                    } by {
                    }
                }
            },
        }
        i = i + 1;
    }
    assert(claims@.subrange(0, claims@.len() as int) =~= claims@);
    tally
}

/// A key that claims no slot has no slots.
proof fn lemma_no_claim_no_slots(claims: Seq<Option<(ClaimKind, [u8; 32])>>, start: nat, key: [u8; 32], kind: ClaimKind)
    requires
        !has_claim(claims, key),
    ensures
        claimed_slots(claims, start, key, kind) == Seq::<u64>::empty(),
    decreases claims.len(),
{
    if claims.len() > 0 {
        let prefix = claims.drop_last();
        assert(!has_claim(prefix, key)) by {
            if has_claim(prefix, key) {
                let j = choose|j: int| 0 <= j < prefix.len() && (#[trigger] prefix[j] matches Some((_, a)) && a == key);
                assert(claims[j] == prefix[j]);
            }
        }
        lemma_no_claim_no_slots(prefix, start, key, kind);
        assert(!(claims[claims.len() - 1] matches Some((_, a)) && a == key));
    }
}

} // verus!
