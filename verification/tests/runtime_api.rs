use vertic::runtime_api::{
    api_method, module_names, pallet_at, pallet_by_name, pallet_index, pallet_name, RuntimeApiMethod, RuntimePallet,
};

#[test]
fn methods_are_found_by_name() {
    assert_eq!(api_method("Core_version"), Some(RuntimeApiMethod::CoreVersion));
    assert_eq!(api_method("BabeApi_next_epoch"), Some(RuntimeApiMethod::BabeApiNextEpoch));
    assert_eq!(
        api_method("SessionKeys_decode_session_keys"),
        Some(RuntimeApiMethod::SessionKeysDecodeSessionKeys)
    );
    assert_eq!(
        api_method("TaggedTransactionQueue_validate_transaction"),
        Some(RuntimeApiMethod::TaggedTransactionQueueValidateTransaction)
    );
}

#[test]
fn unknown_methods_are_not_served() {
    assert_eq!(api_method("Core_versions"), None);
    assert_eq!(api_method(""), None);
    assert_eq!(api_method("core_version"), None);
}

#[test]
fn pallets_in_index_order() {
    assert_eq!(module_names(), vec!["System", "Utility", "Babe", "Timestamp", "Balances", "Grandpa", "Sudo"]);
    assert_eq!(pallet_index(RuntimePallet::Balances), 4);
    assert_eq!(pallet_name(RuntimePallet::Grandpa), "Grandpa");
    assert_eq!(pallet_at(6), Some(RuntimePallet::Sudo));
    assert_eq!(pallet_at(7), None);
    assert_eq!(pallet_by_name("Timestamp"), Some(RuntimePallet::Timestamp));
    assert_eq!(pallet_by_name("Contracts"), None);
}
