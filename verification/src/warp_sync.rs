//! The decisions of GRANDPA warp sync proofs: which authority set changes a
//! proof carries, whether it is finished, and how a proof is checked
//! fragment by fragment.
//!
//! A proof is made of fragments, one per authority set change since the
//! start block: the last block finalized by a set, whose header signals
//! the change, with its justification. Reading headers and justifications,
//! and checking a justification's signatures, stay with the caller; each
//! step here takes what was read or checked.

use vstd::prelude::*;

verus! {

/// The most authority set changes a single proof carries.
pub const MAX_CHANGES_PER_WARP_SYNC_PROOF: usize = 256;

/// Why a proof request or a proof is refused.
#[derive(Clone, Copy, Debug, PartialEq, Eq, Structural)]
pub enum WarpError {
    /// The start block is not known.
    MissingStartBlock,
    /// The start block is not finalized yet.
    StartBlockNotFinalized,
    /// The start block is not on the finalized chain.
    StartBlockNotInFinalizedChain,
    /// A fragment's justification does not hold for the current set.
    InvalidJustification,
    /// A fragment's justification is not for the fragment's header.
    HeaderMismatch,
    /// A fragment other than the last does not signal a set change.
    MissingAuthoritySetChange,
}

/// The number of the start block, when a proof can be made from it: the
/// block must be known and finalized.
pub open spec fn warp_begin_spec(begin_number: Option<u64>, finalized_number: u64) -> Result<u64, WarpError> {
    match begin_number {
        None => Err(WarpError::MissingStartBlock),
        Some(n) => if n > finalized_number { Err(WarpError::StartBlockNotFinalized) } else { Ok(n) },
    }
}

/// Checks the start block's number, as `warp_begin_spec` says.
pub fn warp_begin(begin_number: Option<u64>, finalized_number: u64) -> (r: Result<u64, WarpError>)
    ensures
        r == warp_begin_spec(begin_number, finalized_number),
{
    match begin_number {
        None => Err(WarpError::MissingStartBlock),
        Some(n) => if n > finalized_number { Err(WarpError::StartBlockNotFinalized) } else { Ok(n) },
    }
}

/// Checks that the start block is the canonical block at its number.
pub fn warp_check_canonical(canonical_hash: &[u8; 32], begin: &[u8; 32]) -> (r: Result<(), WarpError>)
    ensures
        r == if *canonical_hash == *begin { Ok(()) } else { Err(WarpError::StartBlockNotInFinalizedChain) },
{
    if crate::accounts::account_id_eq(canonical_hash, begin) {
        Ok(())
    } else {
        Err(WarpError::StartBlockNotInFinalizedChain)
    }
}

/// What becomes of the next authority set change while a proof is built.
#[derive(Clone, Copy, Debug, PartialEq, Eq, Structural)]
pub enum ChangeStep {
    /// The proof is full: it stops here, unfinished.
    LimitReached,
    /// The set changed by a forced change: the chain of handoffs is broken
    /// and the proof stops here.
    Broken,
    /// The change's last block goes into the proof, with its justification.
    Include,
}

/// What becomes of the next set change, given how many fragments the
/// proof holds and whether the header of the set's last block signals a
/// standard change (the header is not read once the proof is full).
pub open spec fn warp_change_spec(collected: nat, signals_change: bool) -> ChangeStep {
    if collected >= MAX_CHANGES_PER_WARP_SYNC_PROOF {
        ChangeStep::LimitReached
    } else if !signals_change {
        ChangeStep::Broken
    } else {
        ChangeStep::Include
    }
}

/// Whether the proof is full already, before the next change's header is
/// read.
pub fn warp_full(collected: usize) -> (r: bool)
    ensures
        r == (collected >= MAX_CHANGES_PER_WARP_SYNC_PROOF),
{
    collected >= MAX_CHANGES_PER_WARP_SYNC_PROOF
}

/// What becomes of the next set change, as `warp_change_spec` says.
pub fn warp_change(collected: usize, signals_change: bool) -> (r: ChangeStep)
    ensures
        r == warp_change_spec(collected as nat, signals_change),
{
    if collected >= MAX_CHANGES_PER_WARP_SYNC_PROOF {
        ChangeStep::LimitReached
    } else if !signals_change {
        ChangeStep::Broken
    } else {
        ChangeStep::Include
    }
}

/// The fragments a proof carries, given the set changes from the start
/// block: each change whose header signals it, in order, until a forced
/// change or until the proof is full; and whether it stopped because it
/// was full.
pub open spec fn warp_select(signals: Seq<bool>) -> (nat, bool)
    decreases signals.len(),
{
    if signals.len() == 0 {
        (0, false)
    } else {
        let (n, full) = warp_select(signals.drop_last());
        if full || n < signals.len() - 1 {
            (n, full)
        } else {
            match warp_change_spec(n, signals.last()) {
                ChangeStep::LimitReached => (n, true),
                ChangeStep::Broken => (n, false),
                ChangeStep::Include => ((n + 1) as nat, false),
            }
        }
    }
}

/// How a proof ends: when it stopped full, it is unfinished and nothing
/// is added; otherwise it is finished, and the best justification is added
/// when it is for a block past the last fragment's target (or not before
/// the start block when there is no fragment).
pub open spec fn warp_finish_spec(full: bool, last_target: Option<u64>, begin_number: u64, best_target: Option<u64>) -> (bool, bool) {
    if full {
        (false, false)
    } else {
        let limit: int = match last_target {
            Some(t) => t + 1,
            None => begin_number as int,
        };
        let add_best = match best_target {
            Some(b) => b >= limit,
            None => false,
        };
        (add_best, true)
    }
}

/// How a proof ends, as `warp_finish_spec` says: whether the best
/// justification is added, and whether the proof is finished.
pub fn warp_finish(full: bool, last_target: Option<u64>, begin_number: u64, best_target: Option<u64>) -> (r: (bool, bool))
    ensures
        r == warp_finish_spec(full, last_target, begin_number, best_target),
{
    if full {
        return (false, false);
    }
    let add_best = match best_target {
        Some(b) => match last_target {
            Some(t) => b > t,
            None => b >= begin_number,
        },
        None => false,
    };
    (add_best, true)
}

/// An authority: its key and its weight.
pub type Authority = ([u8; 32], u64);

/// What the caller found out about one fragment of a proof being checked.
#[derive(Clone, Debug)]
pub struct FragmentCheck {
    /// Whether the justification holds for the current set id and
    /// authorities.
    pub justification_valid: bool,
    /// Whether the justification's target is the fragment's header.
    pub target_is_header: bool,
    /// The next authorities, when the header signals a standard change.
    pub scheduled_change: Option<Vec<Authority>>,
}

/// The set id and authorities after checking fragment `index` of a proof
/// of `count` fragments: the justification must hold and be for the
/// header; a signalled change moves to the next set; only the last
/// fragment may signal none.
pub open spec fn verify_step_spec(set_id: u64, authorities: Seq<Authority>, index: nat, count: nat, justification_valid: bool, target_is_header: bool, scheduled_change: Option<Seq<Authority>>) -> Result<(u64, Seq<Authority>), WarpError> {
    if !justification_valid {
        Err(WarpError::InvalidJustification)
    } else if !target_is_header {
        Err(WarpError::HeaderMismatch)
    } else {
        match scheduled_change {
            Some(next) => Ok(((set_id + 1) as u64, next)),
            None => if index + 1 != count {
                Err(WarpError::MissingAuthoritySetChange)
            } else {
                Ok((set_id, authorities))
            },
        }
    }
}

/// Checks fragment `index` of a proof of `count` fragments against the
/// current set, as `verify_step_spec` says.
pub fn verify_step(set_id: u64, authorities: Vec<Authority>, index: usize, count: usize, fragment: FragmentCheck) -> (r: Result<(u64, Vec<Authority>), WarpError>)
    requires
        index < count,
        fragment.scheduled_change is Some ==> set_id < u64::MAX,
    ensures
        ({
            let expected = verify_step_spec(set_id, authorities@, index as nat, count as nat, fragment.justification_valid,
                fragment.target_is_header, match fragment.scheduled_change { Some(v) => Some(v@), None => None });
            match r {
                Ok((id, auth)) => expected == Ok::<(u64, Seq<Authority>), WarpError>((id, auth@)),
                Err(e) => expected == Err::<(u64, Seq<Authority>), WarpError>(e),
            }
        }),
{
    if !fragment.justification_valid {
        return Err(WarpError::InvalidJustification);
    }
    if !fragment.target_is_header {
        return Err(WarpError::HeaderMismatch);
    }
    match fragment.scheduled_change {
        Some(next) => Ok((set_id + 1, next)),
        None => {
            if index != count - 1 {
                Err(WarpError::MissingAuthoritySetChange)
            } else {
                Ok((set_id, authorities))
            }
        },
    }
}

/// The set id and authorities after a whole proof is checked, fragment by
/// fragment from the given set; the first refused fragment refuses it.
pub open spec fn verify_all(set_id: u64, authorities: Seq<Authority>, checks: Seq<(bool, bool, Option<Seq<Authority>>)>, count: nat) -> Result<(u64, Seq<Authority>), WarpError>
    decreases checks.len(),
{
    if checks.len() == 0 {
        Ok((set_id, authorities))
    } else {
        match verify_all(set_id, authorities, checks.drop_last(), count) {
            Ok((id, auth)) => verify_step_spec(id, auth, (checks.len() - 1) as nat, count,
                checks.last().0, checks.last().1, checks.last().2),
            Err(e) => Err(e),
        }
    }
}

/// What the caller found out about a fragment, as values.
pub open spec fn check_view(c: FragmentCheck) -> (bool, bool, Option<Seq<Authority>>) {
    (c.justification_valid, c.target_is_header, match c.scheduled_change { Some(v) => Some(v@), None => None })
}

/// What the caller found out about each fragment, as values.
pub open spec fn checks_view(checks: Seq<FragmentCheck>) -> Seq<(bool, bool, Option<Seq<Authority>>)> {
    checks.map_values(|c: FragmentCheck| check_view(c))
}

/// Whether fragment `index` of a proof of `count` fragments is refused,
/// whatever set it is checked with: the refusal does not depend on it.
pub fn fragment_refused(index: usize, count: usize, fragment: &FragmentCheck) -> (r: bool)
    requires
        index < count,
    ensures
        forall|set_id: u64, authorities: Seq<Authority>|
            r == #[trigger] verify_step_spec(set_id, authorities, index as nat, count as nat, fragment.justification_valid,
                fragment.target_is_header, check_view(*fragment).2) is Err,
{
    !fragment.justification_valid || !fragment.target_is_header
        || (fragment.scheduled_change.is_none() && index != count - 1)
}

/// Once a prefix of a proof is refused, the whole proof is refused with
/// the same error.
proof fn lemma_verify_all_refused(set_id: u64, authorities: Seq<Authority>, checks: Seq<(bool, bool, Option<Seq<Authority>>)>, k: int, count: nat)
    requires
        0 <= k <= checks.len(),
        verify_all(set_id, authorities, checks.take(k), count) is Err,
    ensures
        verify_all(set_id, authorities, checks, count) == verify_all(set_id, authorities, checks.take(k), count),
    decreases checks.len() - k,
{
    if k < checks.len() {
        assert(checks.take(k + 1).drop_last() =~= checks.take(k));
        lemma_verify_all_refused(set_id, authorities, checks, k + 1, count);
    } else {
        assert(checks.take(k) =~= checks);
    }
}

/// Checks a proof of `count` fragments, fragment by fragment from the set
/// `set_id` with `authorities`, as `verify_all` says: `checks[i]` is what
/// the caller found out about fragment `i` against the set it is checked
/// with. The caller may stop at the first refused fragment
/// (`fragment_refused`): the refusal is the same. Returns the set reached,
/// or the first fragment's refusal.
pub fn verify_proof(set_id: u64, authorities: Vec<Authority>, count: usize, checks: Vec<FragmentCheck>) -> (r: Result<(u64, Vec<Authority>), WarpError>)
    requires
        checks@.len() <= count,
        set_id + checks@.len() <= u64::MAX,
    ensures
        ({
            let expected = verify_all(set_id, authorities@, checks_view(checks@), count as nat);
            match r {
                Ok((id, auth)) => expected == Ok::<(u64, Seq<Authority>), WarpError>((id, auth@)),
                Err(e) => expected == Err::<(u64, Seq<Authority>), WarpError>(e),
            }
        }),
{
    let ghost cv = checks_view(checks@);
    let ghost auth0 = authorities@;
    let n = checks.len();
    let mut current_id = set_id;
    let mut current = authorities;
    let mut rest = checks;
    let mut i: usize = 0;
    assert(cv.take(0) =~= Seq::<(bool, bool, Option<Seq<Authority>>)>::empty());
    while i < n
        invariant
            cv == checks_view(checks@),
            auth0 == authorities@,
            n == cv.len(),
            n <= count,
            i <= n,
            set_id + n <= u64::MAX,
            current_id <= set_id + i,
            rest@.len() == n - i,
            forall|k: int| 0 <= k < rest@.len() ==> check_view(#[trigger] rest@[k]) == cv[i + k],
            verify_all(set_id, auth0, cv.take(i as int), count as nat) == Ok::<(u64, Seq<Authority>), WarpError>((current_id, current@)),
        decreases n - i,
    {
        let fragment = rest.remove(0);
        assert(check_view(fragment) == cv[i as int]);
        assert(cv.take(i as int + 1).drop_last() =~= cv.take(i as int));
        assert(cv.take(i as int + 1).last() == cv[i as int]);
        let ghost cid = current_id;
        let ghost cauth = current@;
        let ghost fv = check_view(fragment);
        assert(verify_all(set_id, auth0, cv.take(i as int + 1), count as nat)
            == verify_step_spec(cid, cauth, i as nat, count as nat, fv.0, fv.1, fv.2));
        match verify_step(current_id, current, i, count, fragment) {
            Ok((id, auth)) => {
                current_id = id;
                current = auth;
            },
            Err(e) => {
                proof {
                    assert(verify_all(set_id, auth0, cv.take(i as int + 1), count as nat) == Err::<(u64, Seq<Authority>), WarpError>(e));
                    lemma_verify_all_refused(set_id, auth0, cv, i as int + 1, count as nat);
                    assert(verify_all(set_id, auth0, cv, count as nat) == Err::<(u64, Seq<Authority>), WarpError>(e));
                }
                return Err(e);
            },
        }
        i = i + 1;
    }
    assert(cv.take(n as int) =~= cv);
    Ok((current_id, current))
}

/// A proof whose fragments all signal a change moves the set id on by
/// the number of fragments, and ends on the authorities of the last
/// change.
pub proof fn lemma_verify_counts_changes(set_id: u64, authorities: Seq<Authority>, checks: Seq<(bool, bool, Option<Seq<Authority>>)>, count: nat)
    requires
        checks.len() <= count,
        set_id + checks.len() <= u64::MAX,
        forall|i: int| 0 <= i < checks.len() ==> (#[trigger] checks[i]).0 && checks[i].1 && checks[i].2 is Some,
    ensures
        verify_all(set_id, authorities, checks, count) matches Ok((id, auth))
            && id == set_id + checks.len()
            && (checks.len() > 0 ==> auth == checks.last().2->0),
    decreases checks.len(),
{
    if checks.len() > 0 {
        let prefix = checks.drop_last();
        assert forall|i: int| 0 <= i < prefix.len() implies (#[trigger] prefix[i]).0 && prefix[i].1 && prefix[i].2 is Some by {
            assert(prefix[i] == checks[i]);
        }
        lemma_verify_counts_changes(set_id, authorities, prefix, count);
        assert(checks[checks.len() - 1] == checks.last());
    }
}

/// A proof carries at most `MAX_CHANGES_PER_WARP_SYNC_PROOF` set changes,
/// and no more than there were since the start block.
pub proof fn lemma_select_bounded(signals: Seq<bool>)
    ensures
        warp_select(signals).0 <= MAX_CHANGES_PER_WARP_SYNC_PROOF,
        warp_select(signals).0 <= signals.len(),
    decreases signals.len(),
{
    if signals.len() > 0 {
        lemma_select_bounded(signals.drop_last());
    }
}

} // verus!
