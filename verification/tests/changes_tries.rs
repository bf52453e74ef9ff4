use vertic::changes_tries::{
    commit_plan, config_source, finalize_plan, prune_check, prune_on_config, prune_start, root_after_anchor, root_lookup,
    ChangesTriesMeta, CommitPlan, ConfigAt, ConfigSource, FinalizePlan, PruneAction, PruneProgress, RootError, RootLookup,
};
use vertic::digest::ChangesTrieConfiguration;
use vertic::list_cache::EntryType;

fn meta(range: Option<(u64, u64)>, pruned: u64) -> ChangesTriesMeta {
    ChangesTriesMeta { oldest_digest_range: range, oldest_pruned_digest_range_end: pruned }
}

#[test]
fn pruning_off_changes_nothing() {
    assert!(prune_start(meta(Some((1, 4)), 0), 100, None).is_none());
    let p = prune_start(ChangesTriesMeta::empty(), 100, Some(10)).unwrap();
    assert_eq!(p.next_start, 100);
    assert_eq!(p.meta.oldest_digest_range, None);
}

#[test]
fn old_range_is_pruned_recent_kept() {
    let p = PruneProgress { meta: meta(Some((1, 16)), 0), next_start: 100 };
    let (p, action) = prune_check(100, 10, p);
    assert_eq!(action, PruneAction::Prune { begin: 1, end: 16 });
    assert_eq!(p.meta.oldest_pruned_digest_range_end, 16);
    assert_eq!(p.next_start, 17);
    // range ending 10 blocks back is kept
    let p = PruneProgress { meta: meta(Some((81, 90)), 80), next_start: 100 };
    let (_, action) = prune_check(100, 10, p);
    assert_eq!(action, PruneAction::Finish);
    // range ending after the finalized block is kept
    let p = PruneProgress { meta: meta(Some((97, 112)), 96), next_start: 100 };
    assert_eq!(prune_check(100, 0, p).1, PruneAction::Finish);
    // unknown range: look the configuration up
    let p = PruneProgress { meta: meta(None, 0), next_start: 100 };
    assert_eq!(prune_check(100, 10, p).1, PruneAction::Lookup);
}

#[test]
fn configuration_sets_next_range() {
    let p = PruneProgress { meta: meta(None, 16), next_start: 17 };
    let (p2, go_on) = prune_on_config(p, Some(ConfigAt { max_level_range: Some((17, 32)), end: None }));
    assert!(go_on);
    assert_eq!(p2.meta.oldest_digest_range, Some((17, 32)));
    // cut at the configuration's end
    let (p3, _) = prune_on_config(p, Some(ConfigAt { max_level_range: Some((17, 32)), end: Some(20) }));
    assert_eq!(p3.meta.oldest_digest_range, Some((17, 20)));
    // no digests: the block alone
    let (p4, _) = prune_on_config(p, Some(ConfigAt { max_level_range: None, end: None }));
    assert_eq!(p4.meta.oldest_digest_range, Some((17, 17)));
    // changes tries disabled: the pass ends
    let (p5, go_on) = prune_on_config(PruneProgress { meta: meta(Some((1, 2)), 0), next_start: 3 }, None);
    assert!(!go_on);
    assert_eq!(p5.meta.oldest_digest_range, None);
}

#[test]
fn configuration_sources() {
    assert_eq!(config_source(10, 10, Some(10), true), ConfigSource::Pending);
    assert_eq!(config_source(10, 10, Some(10), false), ConfigSource::ParentOfNewHeader);
    assert_eq!(config_source(10, 10, None, true), ConfigSource::FinalizedBlock);
    assert_eq!(config_source(10, 5, Some(10), true), ConfigSource::CanonicalBlock(5));
}

#[test]
fn commit_and_finalize_plans() {
    assert!(matches!(commit_plan(None, false), CommitPlan::Nothing));
    assert!(matches!(commit_plan(None, true), CommitPlan::Finalize));
    let config = ChangesTrieConfiguration { digest_interval: 4, digest_levels: 2 };
    match commit_plan(Some(Some(config)), true) {
        CommitPlan::InsertConfig(EntryType::Final, v) => assert_eq!(v, vec![1, 4, 0, 0, 0, 2, 0, 0, 0]),
        other => panic!("unexpected {:?}", other),
    }
    match commit_plan(Some(None), false) {
        CommitPlan::InsertConfig(EntryType::NonFinal, v) => assert_eq!(v, vec![0]),
        other => panic!("unexpected {:?}", other),
    }
    assert!(matches!(finalize_plan(true, Some([1; 32]), [1; 32], 5), FinalizePlan::Reuse));
    assert!(matches!(finalize_plan(false, Some([1; 32]), [1; 32], 5), FinalizePlan::FinalizeEntries(4)));
    assert!(matches!(finalize_plan(true, Some([2; 32]), [1; 32], 0), FinalizePlan::FinalizeEntries(0)));
}

#[test]
fn root_lookups() {
    assert_eq!(root_lookup(11, 10, 5), Err(RootError::AfterAnchor(11, 10)));
    assert_eq!(root_lookup(4, 10, 5), Ok(RootLookup::ByNumber(4)));
    assert_eq!(root_lookup(7, 10, 5), Ok(RootLookup::CheckAnchor));
    assert_eq!(root_after_anchor(true, 7, 10), RootLookup::ByNumber(7));
    assert_eq!(root_after_anchor(false, 7, 10), RootLookup::WalkBack(3));
}

#[test]
fn pruned_range_end_only_moves_forward() {
    let p = prune_start(meta(Some((1, 4)), 0), 100, Some(10)).unwrap();
    let (p, action) = prune_check(100, 10, p);
    assert_eq!(action, PruneAction::Prune { begin: 1, end: 4 });
    assert_eq!(p.meta.oldest_pruned_digest_range_end, 4);
    let config = ConfigAt { max_level_range: Some((5, 8)), end: None };
    let (p, go_on) = prune_on_config(p, Some(config));
    assert!(go_on);
    assert_eq!(p.meta.oldest_pruned_digest_range_end, 4);
    let (p, action) = prune_check(100, 10, p);
    assert_eq!(action, PruneAction::Prune { begin: 5, end: 8 });
    assert_eq!(p.meta.oldest_pruned_digest_range_end, 8);
    let (p, go_on) = prune_on_config(p, None);
    assert!(!go_on);
    assert_eq!(p.meta.oldest_pruned_digest_range_end, 8);
}
