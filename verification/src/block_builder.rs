//! Building a block: the header's number and parent, the extrinsics
//! pushed so far, and whether a storage proof is recorded. Executing an
//! extrinsic is the runtime's work, done by the caller; an extrinsic is
//! kept only when the runtime applied it.

use vstd::prelude::*;
use vstd::std_specs::convert::FromSpecImpl;
use vstd::std_specs::convert::FromSpec;
use crate::basic_authorship::PushResult;

verus! {

/// Whether to record a proof of the storage accessed while building a
/// block.
#[derive(Clone, Copy, Debug, PartialEq, Eq, Structural)]
pub enum RecordProof {
    /// Record a proof.
    Yes,
    /// Do not record any proof.
    No,
}

impl RecordProof {
    /// Whether this is `Yes`.
    pub fn yes(&self) -> (r: bool)
        ensures
            r == (*self == RecordProof::Yes),
    {
        match self {
            RecordProof::Yes => true,
            RecordProof::No => false,
        }
    }
}

impl Default for RecordProof {
    /// No proof is recorded by default.
    fn default() -> (r: Self)
        ensures
            r == RecordProof::No,
    {
        RecordProof::No
    }
}

impl From<bool> for RecordProof {
    /// `Yes` for `true`, `No` for `false`.
    fn from(val: bool) -> (r: Self) {
        if val {
            RecordProof::Yes
        } else {
            RecordProof::No
        }
    }
}

impl FromSpecImpl<bool> for RecordProof {
    open spec fn obeys_from_spec() -> bool {
        true
    }

    open spec fn from_spec(val: bool) -> RecordProof {
        if val {
            RecordProof::Yes
        } else {
            RecordProof::No
        }
    }
}

/// Converting a flag and asking whether it is `Yes` gives the flag back.
pub proof fn lemma_record_proof_roundtrip(val: bool)
    ensures
        (<RecordProof as FromSpec<bool>>::from_spec(val) == RecordProof::Yes) == val,
{
}

/// A block under construction on top of a parent.
pub struct BlockBuilder {
    parent_hash: [u8; 32],
    number: u64,
    record_proof: RecordProof,
    extrinsics: Vec<Vec<u8>>,
}

/// A block under construction as values.
pub struct BuilderView {
    /// The parent block's hash.
    pub parent_hash: [u8; 32],
    /// The number of the new block.
    pub number: nat,
    /// Whether a storage proof is recorded.
    pub record_proof: RecordProof,
    /// The extrinsics pushed so far, encoded, in order.
    pub extrinsics: Seq<Seq<u8>>,
}

impl View for BlockBuilder {
    type V = BuilderView;

    closed spec fn view(&self) -> BuilderView {
        BuilderView {
            parent_hash: self.parent_hash,
            number: self.number as nat,
            record_proof: self.record_proof,
            extrinsics: self.extrinsics@.map_values(|x: Vec<u8>| x@),
        }
    }
}

impl BlockBuilder {
    /// Starts a block on top of the parent `parent_hash` numbered
    /// `parent_number`: it is numbered one more and holds no extrinsic.
    pub fn new(parent_hash: [u8; 32], parent_number: u64, record_proof: RecordProof) -> (r: Self)
        requires
            parent_number < u64::MAX,
        ensures
            r@.parent_hash == parent_hash,
            r@.number == parent_number + 1,
            r@.record_proof == record_proof,
            r@.extrinsics == Seq::<Seq<u8>>::empty(),
    {
        let r = BlockBuilder { parent_hash, number: parent_number + 1, record_proof, extrinsics: Vec::new() };
        assert(r@.extrinsics =~= Seq::<Seq<u8>>::empty());
        r
    }

    /// The extrinsics pushed so far.
    pub fn extrinsics(&self) -> (r: &Vec<Vec<u8>>)
        ensures
            r@.map_values(|x: Vec<u8>| x@) == self@.extrinsics,
    {
        &self.extrinsics
    }

    /// The number of the new block.
    pub fn number(&self) -> (r: u64)
        ensures
            r == self@.number,
    {
        self.number
    }

    /// Whether a storage proof is recorded.
    pub fn record_proof(&self) -> (r: RecordProof)
        ensures
            r == self@.record_proof,
    {
        self.record_proof
    }

    /// Pushes an extrinsic that the runtime executed with the outcome
    /// `outcome`: when it was applied it is kept, and otherwise its
    /// changes are rolled back and the outcome is the error.
    pub fn push(&mut self, xt: Vec<u8>, outcome: PushResult) -> (r: Result<(), PushResult>)
        ensures
            outcome == PushResult::Applied ==> r is Ok
                && final(self)@ == (BuilderView { extrinsics: old(self)@.extrinsics.push(xt@), ..old(self)@ }),
            outcome != PushResult::Applied ==> r == Err::<(), PushResult>(outcome) && final(self)@ == old(self)@,
    {
        match outcome {
            PushResult::Applied => {
                let ghost before = self.extrinsics@;
                let ghost x = xt@;
                self.extrinsics.push(xt);
                assert(self.extrinsics@.map_values(|x: Vec<u8>| x@) =~= before.map_values(|x: Vec<u8>| x@).push(x));
                Ok(())
            },
            _ => Err(outcome),
        }
    }
}

} // verus!
