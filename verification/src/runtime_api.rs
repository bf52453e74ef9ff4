//! The node's runtime as the node sees it: its pallets, in the order
//! they are indexed, and the methods of its API, by name. Decoding the
//! arguments, running the runtime and encoding the result are the
//! runtime's own work.

use vstd::prelude::*;

verus! {

/// A pallet of the runtime.
#[derive(Clone, Copy, Debug, PartialEq, Eq, Structural)]
pub enum RuntimePallet {
    /// Accounts, blocks and events.
    System,
    /// Batches of calls.
    Utility,
    /// BABE block production.
    Babe,
    /// The time of each block.
    Timestamp,
    /// The native balances.
    Balances,
    /// GRANDPA finality.
    Grandpa,
    /// The root key.
    Sudo,
}

/// The index of a pallet, its position in the runtime; calls to it are
/// encoded with this index.
pub open spec fn pallet_index_spec(p: RuntimePallet) -> nat {
    match p {
        RuntimePallet::System => 0,
        RuntimePallet::Utility => 1,
        RuntimePallet::Babe => 2,
        RuntimePallet::Timestamp => 3,
        RuntimePallet::Balances => 4,
        RuntimePallet::Grandpa => 5,
        RuntimePallet::Sudo => 6,
    }
}

/// The name of a pallet.
pub open spec fn pallet_name_spec(p: RuntimePallet) -> &'static str {
    match p {
        RuntimePallet::System => "System",
        RuntimePallet::Utility => "Utility",
        RuntimePallet::Babe => "Babe",
        RuntimePallet::Timestamp => "Timestamp",
        RuntimePallet::Balances => "Balances",
        RuntimePallet::Grandpa => "Grandpa",
        RuntimePallet::Sudo => "Sudo",
    }
}

/// The index of a pallet, as `pallet_index_spec` says.
pub fn pallet_index(p: RuntimePallet) -> (r: usize)
    ensures
        r == pallet_index_spec(p),
{
    match p {
        RuntimePallet::System => 0,
        RuntimePallet::Utility => 1,
        RuntimePallet::Babe => 2,
        RuntimePallet::Timestamp => 3,
        RuntimePallet::Balances => 4,
        RuntimePallet::Grandpa => 5,
        RuntimePallet::Sudo => 6,
    }
}

/// The name of a pallet, as `pallet_name_spec` says.
pub fn pallet_name(p: RuntimePallet) -> (r: &'static str)
    ensures
        r == pallet_name_spec(p),
{
    match p {
        RuntimePallet::System => "System",
        RuntimePallet::Utility => "Utility",
        RuntimePallet::Babe => "Babe",
        RuntimePallet::Timestamp => "Timestamp",
        RuntimePallet::Balances => "Balances",
        RuntimePallet::Grandpa => "Grandpa",
        RuntimePallet::Sudo => "Sudo",
    }
}

/// The pallet with the index `i`, if any.
pub fn pallet_at(i: usize) -> (r: Option<RuntimePallet>)
    ensures
        match r {
            Some(p) => pallet_index_spec(p) == i,
            None => forall|p: RuntimePallet| pallet_index_spec(p) != i,
        },
{
    match i {
        0 => Some(RuntimePallet::System),
        1 => Some(RuntimePallet::Utility),
        2 => Some(RuntimePallet::Babe),
        3 => Some(RuntimePallet::Timestamp),
        4 => Some(RuntimePallet::Balances),
        5 => Some(RuntimePallet::Grandpa),
        6 => Some(RuntimePallet::Sudo),
        _ => None,
    }
}

/// The names of the pallets, in index order.
pub fn module_names() -> (r: Vec<&'static str>)
    ensures
        r@.len() == 7,
        forall|p: RuntimePallet| r@[pallet_index_spec(p) as int] == pallet_name_spec(p),
{
    let mut r: Vec<&'static str> = Vec::new();
    r.push("System");
    r.push("Utility");
    r.push("Babe");
    r.push("Timestamp");
    r.push("Balances");
    r.push("Grandpa");
    r.push("Sudo");
    r
}

/// The pallet named `module`; none for a name of no pallet.
pub fn pallet_by_name(module: &str) -> (r: Option<RuntimePallet>)
    ensures
        match r {
            Some(p) => module@ == pallet_name_spec(p)@,
            None => forall|p: RuntimePallet| module@ != #[trigger] pallet_name_spec(p)@,
        },
{
    let name = module.to_owned();
    if name == String::from_str("System") {
        return Some(RuntimePallet::System);
    }
    if name == String::from_str("Utility") {
        return Some(RuntimePallet::Utility);
    }
    if name == String::from_str("Babe") {
        return Some(RuntimePallet::Babe);
    }
    if name == String::from_str("Timestamp") {
        return Some(RuntimePallet::Timestamp);
    }
    if name == String::from_str("Balances") {
        return Some(RuntimePallet::Balances);
    }
    if name == String::from_str("Grandpa") {
        return Some(RuntimePallet::Grandpa);
    }
    if name == String::from_str("Sudo") {
        return Some(RuntimePallet::Sudo);
    }
    None
}

/// A method of the runtime API.
#[derive(Clone, Copy, Debug, PartialEq, Eq, Structural)]
pub enum RuntimeApiMethod {
    /// The runtime's version.
    CoreVersion,
    /// Executes a block.
    CoreExecuteBlock,
    /// Starts executing a block from its header.
    CoreInitializeBlock,
    /// The runtime's metadata.
    MetadataMetadata,
    /// Applies an extrinsic to the block being built.
    BlockBuilderApplyExtrinsic,
    /// Finishes the block being built, giving its header.
    BlockBuilderFinalizeBlock,
    /// The inherent extrinsics for the inherent data.
    BlockBuilderInherentExtrinsics,
    /// Checks the inherents of a block.
    BlockBuilderCheckInherents,
    /// The random seed.
    BlockBuilderRandomSeed,
    /// Validates a transaction for the pool.
    TaggedTransactionQueueValidateTransaction,
    /// The GRANDPA authorities.
    GrandpaApiGrandpaAuthorities,
    /// Submits a GRANDPA equivocation report.
    GrandpaApiSubmitReportEquivocationUnsignedExtrinsic,
    /// A proof that a GRANDPA key belongs to a set.
    GrandpaApiGenerateKeyOwnershipProof,
    /// The BABE configuration.
    BabeApiConfiguration,
    /// The first slot of the current epoch.
    BabeApiCurrentEpochStart,
    /// The current epoch.
    BabeApiCurrentEpoch,
    /// The next epoch.
    BabeApiNextEpoch,
    /// A proof that a BABE key belongs to a set.
    BabeApiGenerateKeyOwnershipProof,
    /// Submits a BABE equivocation report.
    BabeApiSubmitReportEquivocationUnsignedExtrinsic,
    /// Generates the session keys.
    SessionKeysGenerateSessionKeys,
    /// Decodes session keys.
    SessionKeysDecodeSessionKeys,
}

/// The name under which a method is called.
pub open spec fn method_name(m: RuntimeApiMethod) -> &'static str {
    match m {
        RuntimeApiMethod::CoreVersion => "Core_version",
        RuntimeApiMethod::CoreExecuteBlock => "Core_execute_block",
        RuntimeApiMethod::CoreInitializeBlock => "Core_initialize_block",
        RuntimeApiMethod::MetadataMetadata => "Metadata_metadata",
        RuntimeApiMethod::BlockBuilderApplyExtrinsic => "BlockBuilder_apply_extrinsic",
        RuntimeApiMethod::BlockBuilderFinalizeBlock => "BlockBuilder_finalize_block",
        RuntimeApiMethod::BlockBuilderInherentExtrinsics => "BlockBuilder_inherent_extrinsics",
        RuntimeApiMethod::BlockBuilderCheckInherents => "BlockBuilder_check_inherents",
        RuntimeApiMethod::BlockBuilderRandomSeed => "BlockBuilder_random_seed",
        RuntimeApiMethod::TaggedTransactionQueueValidateTransaction => "TaggedTransactionQueue_validate_transaction",
        RuntimeApiMethod::GrandpaApiGrandpaAuthorities => "GrandpaApi_grandpa_authorities",
        RuntimeApiMethod::GrandpaApiSubmitReportEquivocationUnsignedExtrinsic => "GrandpaApi_submit_report_equivocation_unsigned_extrinsic",
        RuntimeApiMethod::GrandpaApiGenerateKeyOwnershipProof => "GrandpaApi_generate_key_ownership_proof",
        RuntimeApiMethod::BabeApiConfiguration => "BabeApi_configuration",
        RuntimeApiMethod::BabeApiCurrentEpochStart => "BabeApi_current_epoch_start",
        RuntimeApiMethod::BabeApiCurrentEpoch => "BabeApi_current_epoch",
        RuntimeApiMethod::BabeApiNextEpoch => "BabeApi_next_epoch",
        RuntimeApiMethod::BabeApiGenerateKeyOwnershipProof => "BabeApi_generate_key_ownership_proof",
        RuntimeApiMethod::BabeApiSubmitReportEquivocationUnsignedExtrinsic => "BabeApi_submit_report_equivocation_unsigned_extrinsic",
        RuntimeApiMethod::SessionKeysGenerateSessionKeys => "SessionKeys_generate_session_keys",
        RuntimeApiMethod::SessionKeysDecodeSessionKeys => "SessionKeys_decode_session_keys",
    }
}

/// The method called by the name `method`; none for a name the runtime
/// does not serve.
pub fn api_method(method: &str) -> (r: Option<RuntimeApiMethod>)
    ensures
        match r {
            Some(m) => method@ == method_name(m)@,
            None => forall|m: RuntimeApiMethod| method@ != #[trigger] method_name(m)@,
        },
{
    let name = method.to_owned();
    if name == String::from_str("Core_version") {
        return Some(RuntimeApiMethod::CoreVersion);
    }
    if name == String::from_str("Core_execute_block") {
        return Some(RuntimeApiMethod::CoreExecuteBlock);
    }
    if name == String::from_str("Core_initialize_block") {
        return Some(RuntimeApiMethod::CoreInitializeBlock);
    }
    if name == String::from_str("Metadata_metadata") {
        return Some(RuntimeApiMethod::MetadataMetadata);
    }
    if name == String::from_str("BlockBuilder_apply_extrinsic") {
        return Some(RuntimeApiMethod::BlockBuilderApplyExtrinsic);
    }
    if name == String::from_str("BlockBuilder_finalize_block") {
        return Some(RuntimeApiMethod::BlockBuilderFinalizeBlock);
    }
    if name == String::from_str("BlockBuilder_inherent_extrinsics") {
        return Some(RuntimeApiMethod::BlockBuilderInherentExtrinsics);
    }
    if name == String::from_str("BlockBuilder_check_inherents") {
        return Some(RuntimeApiMethod::BlockBuilderCheckInherents);
    }
    if name == String::from_str("BlockBuilder_random_seed") {
        return Some(RuntimeApiMethod::BlockBuilderRandomSeed);
    }
    if name == String::from_str("TaggedTransactionQueue_validate_transaction") {
        return Some(RuntimeApiMethod::TaggedTransactionQueueValidateTransaction);
    }
    if name == String::from_str("GrandpaApi_grandpa_authorities") {
        return Some(RuntimeApiMethod::GrandpaApiGrandpaAuthorities);
    }
    if name == String::from_str("GrandpaApi_submit_report_equivocation_unsigned_extrinsic") {
        return Some(RuntimeApiMethod::GrandpaApiSubmitReportEquivocationUnsignedExtrinsic);
    }
    if name == String::from_str("GrandpaApi_generate_key_ownership_proof") {
        return Some(RuntimeApiMethod::GrandpaApiGenerateKeyOwnershipProof);
    }
    if name == String::from_str("BabeApi_configuration") {
        return Some(RuntimeApiMethod::BabeApiConfiguration);
    }
    if name == String::from_str("BabeApi_current_epoch_start") {
        return Some(RuntimeApiMethod::BabeApiCurrentEpochStart);
    }
    if name == String::from_str("BabeApi_current_epoch") {
        return Some(RuntimeApiMethod::BabeApiCurrentEpoch);
    }
    if name == String::from_str("BabeApi_next_epoch") {
        return Some(RuntimeApiMethod::BabeApiNextEpoch);
    }
    if name == String::from_str("BabeApi_generate_key_ownership_proof") {
        return Some(RuntimeApiMethod::BabeApiGenerateKeyOwnershipProof);
    }
    if name == String::from_str("BabeApi_submit_report_equivocation_unsigned_extrinsic") {
        return Some(RuntimeApiMethod::BabeApiSubmitReportEquivocationUnsignedExtrinsic);
    }
    if name == String::from_str("SessionKeys_generate_session_keys") {
        return Some(RuntimeApiMethod::SessionKeysGenerateSessionKeys);
    }
    if name == String::from_str("SessionKeys_decode_session_keys") {
        return Some(RuntimeApiMethod::SessionKeysDecodeSessionKeys);
    }
    None
}

} // verus!
