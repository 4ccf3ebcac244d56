use directory_engine::auth::ServerKey;
use directory_engine::bootstrap::{set_up_directory, BootstrapConfig};
use directory_engine::filter::Filter;
use directory_engine::protocol::{
    handle_add_to_group, handle_bind, handle_modify, handle_remove_from_group, handle_search,
    handle_set_password, handle_unbind, select_attributes, BindState, SearchScope,
};
use directory_engine::store::{DirectoryStore, GroupFilter};
use directory_engine::types::{CreateUserRequest, DirectoryError, UserPatch};

fn key() -> ServerKey {
    ServerKey { secret: vec![0x0123_4567_89ab_cdef] }
}

fn bootstrapped() -> (DirectoryStore, ServerKey) {
    let mut store = DirectoryStore::new();
    let key = key();
    let config = BootstrapConfig {
        admin_user_id: "admin".to_string(),
        admin_email: "admin@example.com".to_string(),
        admin_password: "abc123!".to_string(),
    };
    set_up_directory(&mut store, &key, &config, 10).unwrap();
    store
        .create_user(CreateUserRequest {
            user_id: "alice".to_string(),
            email: "alice@example.com".to_string(),
            display_name: None,
        }, 20)
        .unwrap();
    store
        .register_password(&key, &"alice".to_string(), "alice-pw")
        .unwrap();
    (store, key)
}

fn empty_patch() -> UserPatch {
    UserPatch { email: Some("changed@example.com".to_string()), display_name: None, attribute_updates: Vec::new() }
}

#[test]
fn bind_success_and_failure() {
    let (store, key) = bootstrapped();
    let mut state = BindState::Unbound;
    assert_eq!(
        handle_bind(&mut state, &store, &key, &"alice".to_string(), "bad").unwrap_err(),
        DirectoryError::AuthenticationFailed
    );
    assert!(matches!(state, BindState::Unbound));
    handle_bind(&mut state, &store, &key, &"alice".to_string(), "alice-pw").unwrap();
    assert!(matches!(&state, BindState::Bound(u) if u == "alice"));
    // Rebinding replaces the identity.
    handle_bind(&mut state, &store, &key, &"admin".to_string(), "abc123!").unwrap();
    assert!(matches!(&state, BindState::Bound(u) if u == "admin"));
    handle_unbind(&mut state);
    assert!(matches!(state, BindState::Closed));
}

#[test]
fn unbound_search_needs_anonymous_permission() {
    let (store, _key) = bootstrapped();
    let state = BindState::Unbound;
    assert_eq!(
        handle_search(&state, &store, false, &SearchScope::Subtree, None).unwrap_err(),
        DirectoryError::AuthorizationDenied
    );
    let found = handle_search(&state, &store, true, &SearchScope::Subtree, None).unwrap();
    assert_eq!(found.len(), 2);
}

#[test]
fn search_scope_and_filter_compose() {
    let (store, key) = bootstrapped();
    let mut state = BindState::Unbound;
    handle_bind(&mut state, &store, &key, &"alice".to_string(), "alice-pw").unwrap();
    let base = SearchScope::Base("alice".to_string());
    let found = handle_search(&state, &store, false, &base, None).unwrap();
    assert_eq!(found.len(), 1);
    assert_eq!(found[0].user_id, "alice");
    let f = Filter::Equality("email".to_string(), "admin@example.com".to_string());
    let found = handle_search(&state, &store, false, &SearchScope::Subtree, Some(&f)).unwrap();
    assert_eq!(found.len(), 1);
    assert_eq!(found[0].user_id, "admin");
    let bad = Filter::Equality("shoe_size".to_string(), "42".to_string());
    assert_eq!(
        handle_search(&state, &store, false, &SearchScope::Subtree, Some(&bad)).unwrap_err(),
        DirectoryError::ValidationError
    );
}

#[test]
fn self_modification_is_allowed_others_denied() {
    let (mut store, key) = bootstrapped();
    let mut state = BindState::Unbound;
    handle_bind(&mut state, &store, &key, &"alice".to_string(), "alice-pw").unwrap();
    handle_modify(&state, &mut store, &"alice".to_string(), &empty_patch()).unwrap();
    assert_eq!(
        store.get_user_details(&"alice".to_string()).unwrap().email,
        "changed@example.com"
    );
    assert_eq!(
        handle_modify(&state, &mut store, &"admin".to_string(), &empty_patch()).unwrap_err(),
        DirectoryError::AuthorizationDenied
    );
    assert_eq!(
        store.get_user_details(&"admin".to_string()).unwrap().email,
        "admin@example.com"
    );
}

#[test]
fn admin_may_modify_anyone() {
    let (mut store, key) = bootstrapped();
    let mut state = BindState::Unbound;
    handle_bind(&mut state, &store, &key, &"admin".to_string(), "abc123!").unwrap();
    handle_modify(&state, &mut store, &"alice".to_string(), &empty_patch()).unwrap();
    assert_eq!(
        store.get_user_details(&"alice".to_string()).unwrap().email,
        "changed@example.com"
    );
}

#[test]
fn unbound_modify_is_denied() {
    let (mut store, _key) = bootstrapped();
    let state = BindState::Unbound;
    assert_eq!(
        handle_modify(&state, &mut store, &"alice".to_string(), &empty_patch()).unwrap_err(),
        DirectoryError::AuthorizationDenied
    );
}

#[test]
fn strict_readonly_member_cannot_even_self_modify() {
    let (mut store, key) = bootstrapped();
    let ro = store
        .list_groups(Some(&GroupFilter::DisplayName("lldap_strict_readonly".to_string())))
        .unwrap()[0]
        .group_id;
    store.add_user_to_group(&"alice".to_string(), ro).unwrap();
    let mut state = BindState::Unbound;
    handle_bind(&mut state, &store, &key, &"alice".to_string(), "alice-pw").unwrap();
    assert_eq!(
        handle_modify(&state, &mut store, &"alice".to_string(), &empty_patch()).unwrap_err(),
        DirectoryError::AuthorizationDenied
    );
    assert_eq!(
        handle_set_password(&state, &mut store, &key, &"alice".to_string(), "x234567").unwrap_err(),
        DirectoryError::AuthorizationDenied
    );
}

#[test]
fn password_manager_may_change_passwords_only() {
    let (mut store, key) = bootstrapped();
    let pm = store
        .list_groups(Some(&GroupFilter::DisplayName("lldap_password_manager".to_string())))
        .unwrap()[0]
        .group_id;
    store.add_user_to_group(&"alice".to_string(), pm).unwrap();
    let mut state = BindState::Unbound;
    handle_bind(&mut state, &store, &key, &"alice".to_string(), "alice-pw").unwrap();
    handle_set_password(&state, &mut store, &key, &"admin".to_string(), "newpass1").unwrap();
    store
        .verify_user_password(&key, &"admin".to_string(), "newpass1")
        .unwrap();
    // Only the target's envelope changed: everything else, including
    // the actor's own credential, is untouched.
    store
        .verify_user_password(&key, &"alice".to_string(), "alice-pw")
        .unwrap();
    assert_eq!(
        store.get_user_details(&"admin".to_string()).unwrap().email,
        "admin@example.com"
    );
    assert_eq!(
        handle_modify(&state, &mut store, &"admin".to_string(), &empty_patch()).unwrap_err(),
        DirectoryError::AuthorizationDenied
    );
}

#[test]
fn membership_changes_are_admin_only() {
    let (mut store, key) = bootstrapped();
    let eng = store.create_group(&"eng".to_string()).unwrap();
    let mut alice = BindState::Unbound;
    handle_bind(&mut alice, &store, &key, &"alice".to_string(), "alice-pw").unwrap();
    assert_eq!(
        handle_add_to_group(&alice, &mut store, &"alice".to_string(), eng).unwrap_err(),
        DirectoryError::AuthorizationDenied
    );
    let mut admin = BindState::Unbound;
    handle_bind(&mut admin, &store, &key, &"admin".to_string(), "abc123!").unwrap();
    handle_add_to_group(&admin, &mut store, &"alice".to_string(), eng).unwrap();
    assert_eq!(
        store.members_of_group(eng).unwrap(),
        vec!["alice".to_string()]
    );
    handle_remove_from_group(&admin, &mut store, &"alice".to_string(), eng).unwrap();
    assert!(store.members_of_group(eng).unwrap().is_empty());
}

#[test]
fn search_entries_restrict_to_requested_attributes() {
    let (mut store, _key) = bootstrapped();
    let patch = UserPatch {
        email: None,
        display_name: Some("Alice".to_string()),
        attribute_updates: vec![directory_engine::types::AttributeUpdate::Assign(
            "room".to_string(),
            "12".to_string(),
        )],
    };
    store.update_user(&"alice".to_string(), &patch).unwrap();
    let alice = store.get_user_details(&"alice".to_string()).unwrap();
    let requested = vec![
        "user_id".to_string(),
        "room".to_string(),
        "display_name".to_string(),
        "unknown".to_string(),
    ];
    let selected = select_attributes(&alice, &requested);
    let pairs: Vec<(String, String)> = selected
        .iter()
        .map(|a| (a.name.clone(), a.value.clone()))
        .collect();
    assert_eq!(
        pairs,
        vec![
            ("user_id".to_string(), "alice".to_string()),
            ("room".to_string(), "12".to_string()),
            ("display_name".to_string(), "Alice".to_string()),
        ]
    );
}
