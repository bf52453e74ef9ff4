use vertic::digest::{
    engine_id_eq, extract_new_configuration, ChangesTrieConfiguration, ChangesTrieSignal, DigestItem, AURA_ENGINE_ID,
    BABE_ENGINE_ID,
};
use vertic::import_verifier::{
    find_authorities, instant_seal_command, manual_seal_verify, seal_work, EngineCommand, ForkChoiceStrategy,
    PassThroughVerifier, SealWork, AUTHORITIES_CACHE_KEY, MANUAL_SEAL_ENGINE_ID,
};

#[test]
fn engine_ids_spell_their_names() {
    assert_eq!(&AURA_ENGINE_ID, b"aura");
    assert_eq!(&BABE_ENGINE_ID, b"babe");
    assert_eq!(&MANUAL_SEAL_ENGINE_ID, b"manl");
    assert_eq!(&AUTHORITIES_CACHE_KEY, b"auth");
    assert!(engine_id_eq(b"aura", b"aura"));
    assert!(!engine_id_eq(b"aura", b"babe"));
}

#[test]
fn pass_through_caches_first_consensus_authorities() {
    let v = PassThroughVerifier::new(true);
    let digest = vec![
        DigestItem::PreRuntime(*b"aura", vec![1]),
        DigestItem::Consensus(*b"FRNK", vec![2]),
        DigestItem::Consensus(*b"babe", vec![3]),
        DigestItem::Consensus(*b"aura", vec![4]),
    ];
    let d = v.verify(&digest);
    assert!(d.finalized);
    assert_eq!(d.fork_choice, ForkChoiceStrategy::LongestChain);
    assert_eq!(d.authorities, Some(vec![3]));
    assert_eq!(find_authorities(&vec![DigestItem::Other(vec![9]), DigestItem::Seal(*b"aura", vec![5])]), None);
    assert!(!PassThroughVerifier::new(false).verify(&vec![]).finalized);
}

#[test]
fn manual_seal_imports_unfinalized() {
    let d = manual_seal_verify();
    assert!(!d.finalized);
    assert_eq!(d.fork_choice, ForkChoiceStrategy::LongestChain);
    assert_eq!(d.authorities, None);
}

#[test]
fn commands_become_work() {
    match seal_work(EngineCommand::FinalizeBlock { hash: [4; 32], sender: Some(2), justification: Some(vec![7, 7]) }) {
        SealWork::Finalize { hash, sender, justification } => {
            assert_eq!(hash, [4; 32]);
            assert_eq!(sender, Some(2));
            assert_eq!(justification, Some((*b"manl", vec![7, 7])));
        }
        _ => panic!("expected a finalization"),
    }
    match seal_work(instant_seal_command()) {
        SealWork::Seal { create_empty, finalize, parent_hash, sender } => {
            assert!(!create_empty && !finalize);
            assert_eq!(parent_hash, None);
            assert_eq!(sender, None);
        }
        _ => panic!("expected a seal"),
    }
}

#[test]
fn new_changes_trie_configuration_from_digest() {
    let config = ChangesTrieConfiguration { digest_interval: 4, digest_levels: 2 };
    let digest = vec![
        DigestItem::Other(vec![1]),
        DigestItem::ChangesTrieSignal(ChangesTrieSignal::NewConfiguration(Some(config))),
        DigestItem::ChangesTrieSignal(ChangesTrieSignal::NewConfiguration(None)),
    ];
    assert_eq!(extract_new_configuration(&digest), Some(Some(config)));
    let disabling = vec![DigestItem::ChangesTrieSignal(ChangesTrieSignal::NewConfiguration(None))];
    assert_eq!(extract_new_configuration(&disabling), Some(None));
    assert_eq!(extract_new_configuration(&vec![DigestItem::ChangesTrieRoot([0; 32])]), None);
}
