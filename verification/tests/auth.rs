use std::collections::HashSet;

use yeet::auth::{self, Action, Owner, PolicyStore, Tag};

#[test]
fn happy_path() {
    let mut store = PolicyStore::<String>::default();
    let some_tag = store.create_tag();
    store.set_policy("me".into(), auth::Host::Rename.into(), [some_tag].into());
    let check = store.check_permission("me".into(), auth::Host::Rename.into(), &[some_tag].into());
    assert!(check)
}

#[test]
fn delete_tag() {
    let mut store = PolicyStore::<String>::default();

    let some_tag = store.create_tag();
    store.set_policy("me".into(), auth::Host::Rename.into(), [some_tag].into());
    let check = store.check_permission("me".into(), auth::Host::Rename.into(), &[some_tag].into());
    assert!(check);

    store.delete_tag(&some_tag);
    let check = store.check_permission("me".into(), auth::Host::Rename.into(), &[some_tag].into());
    assert!(!check);
}

#[test]
fn delete_policy() {
    let mut store = PolicyStore::<String>::default();

    let some_tag = store.create_tag();
    store.set_policy("me".into(), auth::Host::Rename.into(), [some_tag].into());
    let check = store.check_permission("me".into(), auth::Host::Rename.into(), &[some_tag].into());
    assert!(check);

    store.delete_policy("me".into(), auth::Host::Rename.into());
    let check = store.check_permission("me".into(), auth::Host::Rename.into(), &[some_tag].into());
    assert!(!check);
}

#[test]
fn permission_needs_a_policy_for_the_same_action() {
    let mut store = PolicyStore::<String>::default();
    let tag = store.create_tag();
    store.set_policy("my_user".into(), auth::Host::Rename.into(), [tag].into());
    assert!(store.check_permission("my_user".into(), auth::Host::Rename.into(), &[tag].into()));
    assert!(!store.check_permission("my_user".into(), auth::Host::Remove.into(), &[tag].into()));
    assert!(!store.check_permission("other".into(), auth::Host::Rename.into(), &[tag].into()));
}

#[test]
fn permission_needs_one_common_tag() {
    let mut store = PolicyStore::<u64>::new();
    let granted: HashSet<Tag> = [1, 2, 3].into();
    store.set_policy(7, Action::Secret(auth::Secret::ACL), granted);
    assert!(store.check_permission(7, Action::Secret(auth::Secret::ACL), &[3, 9].into()));
    assert!(!store.check_permission(7, Action::Secret(auth::Secret::ACL), &[4, 9].into()));
    assert!(!store.check_permission(7, Action::Secret(auth::Secret::ACL), &HashSet::new()));
}

#[test]
fn set_policy_overwrites() {
    let mut store = PolicyStore::<u64>::new();
    store.set_policy(7, auth::Status::ListHosts.into(), [1].into());
    store.set_policy(7, auth::Status::ListHosts.into(), [2].into());
    assert_eq!(store.get_tags(7, auth::Status::ListHosts.into()), HashSet::from([2]));
    assert_eq!(store.get_tags(8, auth::Status::ListHosts.into()), HashSet::new());
}

#[test]
fn delete_policy_returns_what_was_granted() {
    let mut store = PolicyStore::<u64>::new();
    store.set_policy(7, auth::Settings::DetachGlobal.into(), [5, 6].into());
    assert_eq!(
        store.delete_policy(7, auth::Settings::DetachGlobal.into()),
        Some(HashSet::from([5, 6]))
    );
    assert_eq!(store.delete_policy(7, auth::Settings::DetachGlobal.into()), None);
}

#[test]
fn delete_tag_reaches_every_policy() {
    let mut store = PolicyStore::<u64>::new();
    let tag = store.create_tag();
    let other = store.create_tag();
    assert_ne!(tag, other);
    store.set_policy(1, auth::Host::Update.into(), [tag, other].into());
    store.set_policy(2, auth::Host::Accept.into(), [tag].into());
    store.delete_tag(&tag);
    assert_eq!(store.get_tags(1, auth::Host::Update.into()), HashSet::from([other]));
    assert_eq!(store.get_tags(2, auth::Host::Accept.into()), HashSet::new());
    // Deleting a tag that is not known changes nothing.
    store.delete_tag(&tag);
    assert_eq!(store.get_tags(1, auth::Host::Update.into()), HashSet::from([other]));
}

#[test]
fn register_tag_tells_new_from_known() {
    let mut store = PolicyStore::<u64>::new();
    assert!(store.register_tag(42));
    assert!(!store.register_tag(42));
}

#[test]
fn actions_wrap_their_kind() {
    assert_eq!(Action::from(auth::Host::Attach), Action::Host(auth::Host::Attach));
    assert_eq!(
        Action::from(auth::Settings::DetachGlobal),
        Action::Settings(auth::Settings::DetachGlobal)
    );
    assert_eq!(Action::from(auth::Secret::Remove), Action::Secret(auth::Secret::Remove));
    assert_eq!(
        Action::from(auth::Status::ListHostnameByKey),
        Action::Status(auth::Status::ListHostnameByKey)
    );
}

#[test]
fn an_unused_tag_is_the_nearest_one_upwards() {
    let mut store: PolicyStore<u64> = PolicyStore::new();
    assert_eq!(store.unused_tag(7), 7);
    assert!(store.register_tag(7));
    assert!(store.register_tag(8));
    assert!(store.register_tag(10));
    assert_eq!(store.unused_tag(7), 9);
    assert_eq!(store.unused_tag(10), 11);
    assert_eq!(store.unused_tag(6), 6);
    assert!(store.register_tag(u128::MAX));
    assert!(store.register_tag(0));
    assert_eq!(store.unused_tag(u128::MAX), 1);
}

#[test]
fn created_tags_are_all_different() {
    let mut store: PolicyStore<u64> = PolicyStore::new();
    let mut seen = std::collections::HashSet::new();
    for _ in 0..200 {
        assert!(seen.insert(store.create_tag()));
    }
}

#[test]
fn owners_are_told_apart_by_what_they_hold() {
    assert!("me".to_owned().same(&"me".to_owned()));
    assert!(!"me".to_owned().same(&"you".to_owned()));
    assert!(7u64.same(&7));
    assert!(!7u64.same(&8));
    let key = yeet::key::PublicKey { bytes: [7; 32] };
    let mut other = key;
    assert!(key.same(&other));
    assert!(key.is(&other));
    other.bytes[31] = 8;
    assert!(!key.same(&other));
    assert!(!key.is(&other));
    assert!(key != other);

    // A policy set for one writing of a name is found by another.
    let mut store = PolicyStore::<String>::default();
    let tag = store.create_tag();
    let mut name = String::from("my");
    name.push_str("_user");
    store.set_policy(name, auth::Host::Rename.into(), [tag].into());
    assert!(store.check_permission("my_user".into(), auth::Host::Rename.into(), &[tag].into()));
    assert_eq!(store.get_tags("my_user".into(), auth::Host::Rename.into()), [tag].into());
    assert_eq!(
        store.delete_policy("my_user".into(), auth::Host::Rename.into()),
        Some([tag].into())
    );
    assert_eq!(store.delete_policy("my_user".into(), auth::Host::Rename.into()), None);
}

#[test]
fn a_new_tag_grants_nothing() {
    let mut store: PolicyStore<u64> = PolicyStore::new();
    // Tags that were never made known can be granted all the same.
    store.set_policy(1, auth::Host::Rename.into(), [7, 8].into());
    store.set_policy(2, auth::Host::Remove.into(), [9].into());
    assert!(store.register_tag(10));
    assert_eq!(store.unused_tag(7), 11);
    assert_eq!(store.unused_tag(8), 11);
    assert_eq!(store.unused_tag(6), 6);
    store.delete_policy(2, auth::Host::Remove.into());
    assert_eq!(store.unused_tag(7), 9);
    for _ in 0..50 {
        let tag = store.create_tag();
        assert!(!store.check_permission(1, auth::Host::Rename.into(), &[tag].into()));
        assert!(!store.get_tags(1, auth::Host::Rename.into()).contains(&tag));
    }
}
