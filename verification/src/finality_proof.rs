//! Proving the finality of a block to a light client: the justification of
//! the last block of the block's authority set, and the headers after the
//! block up to and including that last block, SCALE-encoded.
//!
//! Reading the authority set changes, the justification and the headers
//! stays with the caller; the decisions and the encoding are made here.

use vstd::prelude::*;
use crate::scale::{compact_len_prefix, encode_bytes, encode_compact_len};

verus! {

/// The most headers a finality proof carries.
pub const MAX_UNKNOWN_HEADERS: usize = 100_000;

/// Why no finality proof can be made.
#[derive(Clone, Copy, Debug, PartialEq, Eq, Structural)]
pub enum FinalityProofError {
    /// The block is not finalized yet.
    BlockNotYetFinalized,
    /// No authority set change covers the block.
    BlockNotInAuthoritySetChanges,
}

/// The last block of the authority set of `block`, whose justification
/// proves it, when a proof can be made: the block must be before the last
/// finalized block, and covered by the authority set changes
/// (`last_block_for_set` is what they say of it).
pub open spec fn proof_target_spec(block: u64, finalized_number: u64, last_block_for_set: Option<u64>) -> Result<u64, FinalityProofError> {
    if finalized_number <= block {
        Err(FinalityProofError::BlockNotYetFinalized)
    } else {
        match last_block_for_set {
            None => Err(FinalityProofError::BlockNotInAuthoritySetChanges),
            Some(last) => Ok(last),
        }
    }
}

/// The block whose justification proves `block`, as `proof_target_spec`
/// says.
pub fn proof_target(block: u64, finalized_number: u64, last_block_for_set: Option<u64>) -> (r: Result<u64, FinalityProofError>)
    ensures
        r == proof_target_spec(block, finalized_number, last_block_for_set),
{
    if finalized_number <= block {
        return Err(FinalityProofError::BlockNotYetFinalized);
    }
    match last_block_for_set {
        None => Err(FinalityProofError::BlockNotInAuthoritySetChanges),
        Some(last) => Ok(last),
    }
}

/// The numbers of the headers a proof carries: the blocks after `block`
/// up to and including `last`, the last block of the set, at most
/// `MAX_UNKNOWN_HEADERS` of them: the first number and how many.
pub open spec fn unknown_headers_spec(block: u64, last: u64) -> (u64, u64) {
    let first = block + 1;
    let count = if last < first {
        0
    } else if last - first + 1 > MAX_UNKNOWN_HEADERS {
        MAX_UNKNOWN_HEADERS as int
    } else {
        last - first + 1
    };
    (first as u64, count as u64)
}

/// The headers a proof carries, as `unknown_headers_spec` says: they are
/// numbered `r.0`, `r.0 + 1`, ..., `r.0 + r.1 - 1`.
pub fn unknown_headers(block: u64, last: u64) -> (r: (u64, u64))
    requires
        block < u64::MAX,
    ensures
        r == unknown_headers_spec(block, last),
        r.1 <= MAX_UNKNOWN_HEADERS,
        r.1 > 0 ==> r.0 + r.1 - 1 <= last,
{
    let first = block + 1;
    let count = if last < first {
        0
    } else if last - first >= MAX_UNKNOWN_HEADERS as u64 {
        MAX_UNKNOWN_HEADERS as u64
    } else {
        last - first + 1
    };
    (first, count)
}

/// The concatenation of encoded items.
pub open spec fn concat(items: Seq<Seq<u8>>) -> Seq<u8>
    decreases items.len(),
{
    if items.len() == 0 {
        Seq::empty()
    } else {
        concat(items.drop_last()) + items.last()
    }
}

/// The SCALE encoding of a finality proof: the block hash, the
/// justification as bytes, and the headers as a list of encoded headers.
pub open spec fn proof_encoding(block_hash: [u8; 32], justification: Seq<u8>, headers: Seq<Seq<u8>>) -> Seq<u8> {
    block_hash@ + compact_len_prefix(justification.len()) + justification
        + compact_len_prefix(headers.len()) + concat(headers)
}

/// Encodes a finality proof, as `proof_encoding` says; the headers come
/// encoded already.
pub fn encode_finality_proof(block_hash: [u8; 32], justification: &Vec<u8>, unknown_headers: &Vec<Vec<u8>>) -> (r: Vec<u8>)
    requires
        justification@.len() <= u32::MAX,
        unknown_headers@.len() <= u32::MAX,
    ensures
        r@ == proof_encoding(block_hash, justification@, unknown_headers@.map_values(|h: Vec<u8>| h@)),
{
    let mut out: Vec<u8> = Vec::new();
    let mut k: usize = 0;
    while k < 32
        invariant
            k <= 32,
            out@ == block_hash@.take(k as int),
        decreases 32 - k,
    {
        out.push(block_hash[k]);
        assert(block_hash@.take(k as int + 1) =~= block_hash@.take(k as int).push(block_hash@[k as int]));
        k = k + 1;
    }
    assert(block_hash@.take(32) =~= block_hash@);
    let mut j = encode_bytes(justification.as_slice());
    out.append(&mut j);
    let mut n = encode_compact_len(unknown_headers.len());
    out.append(&mut n);
    let ghost prefix = out@;
    let ghost hs = unknown_headers@.map_values(|h: Vec<u8>| h@);
    let mut i: usize = 0;
    assert(hs.take(0) =~= Seq::<Seq<u8>>::empty());
    assert(prefix + concat(hs.take(0)) =~= prefix);
    while i < unknown_headers.len()
        invariant
            hs == unknown_headers@.map_values(|h: Vec<u8>| h@),
            i <= unknown_headers@.len(),
            out@ == prefix + concat(hs.take(i as int)),
        decreases unknown_headers@.len() - i,
    {
        let h = &unknown_headers[i];
        let mut k: usize = 0;
        let ghost before = out@;
        while k < h.len()
            invariant
                k <= h@.len(),
                out@ == before + h@.take(k as int),
            decreases h@.len() - k,
        {
            out.push(h[k]);
            assert(h@.take(k as int + 1) =~= h@.take(k as int).push(h@[k as int]));
            k = k + 1;
        }
        assert(h@.take(h@.len() as int) =~= h@);
        assert(hs.take(i as int + 1).drop_last() =~= hs.take(i as int));
        assert(hs.take(i as int + 1).last() == h@);
        assert(out@ =~= prefix + concat(hs.take(i as int + 1)));
        i = i + 1;
    }
    assert(hs.take(unknown_headers@.len() as int) =~= hs);
    out
}

} // verus!
