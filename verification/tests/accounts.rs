use vertic::accounts::{
    account_id_from_hash, AccountOrKey, AccountsState, Effect, OneAuthData, OnePermissionData,
    Pallet, PermModule, PermType, VerticAccount,
};
use vertic::common::{DispatchError, RawOrigin};

fn hex(bytes: &[u8]) -> String {
    let mut s = String::new();
    for b in bytes {
        s.push_str(&format!("{:02x}", b));
    }
    s
}

fn id(n: u8) -> [u8; 32] {
    [n; 32]
}

fn perm(module: PermModule) -> OnePermissionData {
    OnePermissionData { effect: Effect::Positive, module, method: None }
}

fn auth(name: u8, weight: u32) -> OneAuthData {
    OneAuthData { account_key: AccountOrKey::Key([name; 5]), weight }
}

#[allow(non_snake_case)]
#[test]
fn test_vertic_to_accountId() {
    let vertic_account = VerticAccount { name: "vertic".as_bytes().to_vec() };
    let account_id = vertic_account.to_account_id();
    assert_eq!(hex(&account_id), "56544361ac69da1b70da8b099b05d6399fee2de5e770276995865bc8963ab609");
    assert_eq!(&account_id[0..3], b"VTC");
}

#[test]
fn account_id_keeps_hash_tail_behind_prefix() {
    let mut hash = [0u8; 32];
    for (i, b) in hash.iter_mut().enumerate() {
        *b = i as u8;
    }
    let a = account_id_from_hash(&hash);
    assert_eq!(&a[0..3], b"VTC");
    assert_eq!(&a[3..], &hash[3..]);
}

#[test]
fn create_account_registers_keys() {
    let mut s = AccountsState::new(4, 4, 4);
    assert_eq!(Pallet::create_account(&mut s, RawOrigin::Unsigned, id(1), id(2), Some(id(3))), Ok(()));
    assert_eq!(s.owner_of(&id(2)), Some(id(1)));
    assert_eq!(s.owner_of(&id(3)), Some(id(1)));
    assert_eq!(s.active_of(&id(3)), None);
    assert_eq!(s.owner_of(&id(4)), None);
}

#[test]
fn created_group_is_found() {
    let mut s = AccountsState::new(4, 4, 4);
    let r = Pallet::create_permission_auth(
        &mut s, RawOrigin::Signed(7), id(1), PermType::Owner, None,
        vec![perm(PermModule::ALL)], vec![auth(1, 1)], 1,
    );
    assert_eq!(r, Ok(()));
    let r = Pallet::create_permission_auth(
        &mut s, RawOrigin::Signed(7), id(1), PermType::Active, Some(PermType::Owner),
        vec![perm(PermModule::SELF)], vec![auth(2, 1)], 2,
    );
    assert_eq!(r, Ok(()));
    let groups = s.permissions(&id(1)).unwrap();
    assert_eq!(groups.len(), 2);
    assert!(matches!(groups[1].0, PermType::Active));
    assert_eq!(groups[1].1.threshold, 2);
    assert!(matches!(groups[1].1.parent_perm_type, Some(PermType::Owner)));
}

#[test]
fn duplicate_group_kind_changes_nothing() {
    let mut s = AccountsState::new(4, 4, 4);
    Pallet::create_permission_auth(&mut s, RawOrigin::Signed(7), id(1), PermType::Owner, None, vec![], vec![], 1).unwrap();
    let r = Pallet::create_permission_auth(&mut s, RawOrigin::Signed(7), id(1), PermType::Owner, None, vec![], vec![], 9);
    assert_eq!(r, Ok(()));
    let groups = s.permissions(&id(1)).unwrap();
    assert_eq!(groups.len(), 1);
    assert_eq!(groups[0].1.threshold, 1);
}

#[test]
fn create_group_errors() {
    let mut s = AccountsState::new(1, 1, 1);
    let r = Pallet::create_permission_auth(&mut s, RawOrigin::Root, id(1), PermType::Owner, None, vec![], vec![], 1);
    assert_eq!(r, Err(DispatchError::BadOrigin));
    let r = Pallet::create_permission_auth(
        &mut s, RawOrigin::Signed(1), id(1), PermType::Owner, None,
        vec![perm(PermModule::ALL), perm(PermModule::SELF)], vec![], 1,
    );
    assert_eq!(r, Err(DispatchError::CannotLookup));
    let r = Pallet::create_permission_auth(
        &mut s, RawOrigin::Signed(1), id(1), PermType::Owner, None, vec![], vec![auth(1, 1), auth(2, 1)], 1,
    );
    assert_eq!(r, Err(DispatchError::CannotLookup));
    assert!(s.permissions(&id(1)).is_none());
    let mut none = AccountsState::new(1, 0, 1);
    let r = Pallet::create_permission_auth(&mut none, RawOrigin::Signed(1), id(1), PermType::Owner, None, vec![], vec![], 1);
    assert_eq!(r, Err(DispatchError::CannotLookup));
}

#[test]
fn full_account_keeps_its_groups() {
    let mut s = AccountsState::new(4, 1, 4);
    Pallet::create_permission_auth(&mut s, RawOrigin::Signed(7), id(1), PermType::Owner, None, vec![], vec![], 1).unwrap();
    let r = Pallet::create_permission_auth(&mut s, RawOrigin::Signed(7), id(1), PermType::Active, None, vec![], vec![], 1);
    assert_eq!(r, Ok(()));
    assert_eq!(s.permissions(&id(1)).unwrap().len(), 1);
}

#[test]
fn updated_permission_comes_first() {
    let mut s = AccountsState::new(4, 4, 4);
    Pallet::create_permission_auth(
        &mut s, RawOrigin::Signed(7), id(1), PermType::Owner, None,
        vec![perm(PermModule::ALL), perm(PermModule::Module(*b"bank_"))], vec![], 1,
    ).unwrap();
    Pallet::create_permission_auth(&mut s, RawOrigin::Signed(7), id(1), PermType::Active, None, vec![], vec![], 1).unwrap();
    let r = Pallet::add_or_update_permission(
        &mut s, RawOrigin::Signed(7), id(1), PermType::Owner, PermModule::ALL, Effect::Negative, Some(*b"trans"),
    );
    assert_eq!(r, Ok(()));
    let groups = s.permissions(&id(1)).unwrap();
    assert_eq!(groups.len(), 1);
    let p = &groups[0].1.permissions;
    assert_eq!(p.len(), 2);
    assert_eq!(p[0].effect, Effect::Negative);
    assert!(matches!(p[0].module, PermModule::ALL));
    assert!(matches!(p[1].module, PermModule::Module(m) if m == *b"bank_"));
}

#[test]
fn update_without_group_changes_nothing() {
    let mut s = AccountsState::new(4, 4, 4);
    let r = Pallet::add_or_update_permission(&mut s, RawOrigin::Signed(7), id(1), PermType::Owner, PermModule::ALL, Effect::Positive, None);
    assert_eq!(r, Err(DispatchError::CannotLookup));
    Pallet::create_permission_auth(&mut s, RawOrigin::Signed(7), id(1), PermType::Owner, None, vec![], vec![], 1).unwrap();
    let r = Pallet::add_or_update_permission(&mut s, RawOrigin::Signed(7), id(1), PermType::Active, PermModule::ALL, Effect::Positive, None);
    assert_eq!(r, Ok(()));
    assert!(s.permissions(&id(1)).unwrap()[0].1.permissions.is_empty());
}

#[test]
fn updated_auth_comes_first_with_new_threshold() {
    let mut s = AccountsState::new(4, 4, 4);
    Pallet::create_permission_auth(
        &mut s, RawOrigin::Signed(7), id(1), PermType::Owner, None, vec![], vec![auth(1, 1), auth(2, 1)], 1,
    ).unwrap();
    let r = Pallet::add_or_update_auth(&mut s, RawOrigin::Signed(7), id(1), PermType::Owner, AccountOrKey::Key([2; 5]), 5, 3);
    assert_eq!(r, Ok(()));
    let g = &s.permissions(&id(1)).unwrap()[0].1;
    assert_eq!(g.threshold, 3);
    assert_eq!(g.auths.len(), 2);
    assert_eq!(g.auths[0].weight, 5);
    assert!(matches!(g.auths[0].account_key, AccountOrKey::Key(k) if k == [2; 5]));
    assert!(matches!(g.auths[1].account_key, AccountOrKey::Key(k) if k == [1; 5]));
}

#[test]
fn deleted_permission_module_is_gone() {
    let mut s = AccountsState::new(4, 4, 4);
    Pallet::create_permission_auth(
        &mut s, RawOrigin::Signed(7), id(1), PermType::Owner, None,
        vec![perm(PermModule::ALL), perm(PermModule::SELF)], vec![], 1,
    ).unwrap();
    let r = Pallet::delete_permission(&mut s, RawOrigin::Signed(7), id(1), PermType::Owner, vec![PermModule::ALL]);
    assert_eq!(r, Ok(()));
    let p = &s.permissions(&id(1)).unwrap()[0].1.permissions;
    assert_eq!(p.len(), 1);
    assert!(matches!(p[0].module, PermModule::SELF));
    let r = Pallet::delete_permission(&mut s, RawOrigin::Signed(7), id(1), PermType::Owner, vec![PermModule::ALL]);
    assert_eq!(r, Ok(()));
    assert_eq!(s.permissions(&id(1)).unwrap()[0].1.permissions.len(), 1);
}

#[test]
fn deleting_two_keys_keeps_each_for_the_other() {
    let mut s = AccountsState::new(8, 4, 8);
    Pallet::create_permission_auth(
        &mut s, RawOrigin::Signed(7), id(1), PermType::Owner, None, vec![], vec![auth(1, 1), auth(2, 1)], 1,
    ).unwrap();
    let r = Pallet::delete_auth(
        &mut s, RawOrigin::Signed(7), id(1), PermType::Owner, vec![AccountOrKey::Key([1; 5]), AccountOrKey::Key([2; 5])],
    );
    assert_eq!(r, Ok(()));
    let a = &s.permissions(&id(1)).unwrap()[0].1.auths;
    assert_eq!(a.len(), 2);
    assert!(matches!(a[0].account_key, AccountOrKey::Key(k) if k == [1; 5]));
    assert!(matches!(a[1].account_key, AccountOrKey::Key(k) if k == [2; 5]));
}

#[test]
fn deleted_auth_is_gone() {
    let mut s = AccountsState::new(8, 4, 8);
    Pallet::create_permission_auth(
        &mut s, RawOrigin::Signed(7), id(1), PermType::Owner, None, vec![], vec![auth(1, 1), auth(2, 1)], 1,
    ).unwrap();
    let r = Pallet::delete_auth(&mut s, RawOrigin::Signed(7), id(1), PermType::Owner, vec![AccountOrKey::Key([1; 5])]);
    assert_eq!(r, Ok(()));
    let a = &s.permissions(&id(1)).unwrap()[0].1.auths;
    assert_eq!(a.len(), 1);
    assert!(matches!(a[0].account_key, AccountOrKey::Key(k) if k == [2; 5]));
    assert_eq!(Pallet::delete_auth(&mut s, RawOrigin::Unsigned, id(1), PermType::Owner, vec![]), Err(DispatchError::BadOrigin));
    assert_eq!(Pallet::delete_auth(&mut s, RawOrigin::Signed(1), id(9), PermType::Owner, vec![]), Err(DispatchError::CannotLookup));
}
