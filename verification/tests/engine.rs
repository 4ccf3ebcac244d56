use directory_engine::auth::ServerKey;
use directory_engine::bootstrap::{set_up_directory, send_test_email_command, BootstrapConfig};
use directory_engine::filter::{eval_filter, validate_filter, Filter};
use directory_engine::store::{DirectoryStore, GroupFilter};
use directory_engine::types::{
    Attribute, AttributeUpdate, CreateUserRequest, DirectoryError, User, UserPatch,
};

fn key() -> ServerKey {
    ServerKey { secret: vec![0x1234_5678_9abc_def0, 0x0fed_cba9_8765_4321] }
}

fn req(id: &str, email: &str) -> CreateUserRequest {
    CreateUserRequest {
        user_id: id.to_string(),
        email: email.to_string(),
        display_name: None,
    }
}

fn sample_user(id: &str) -> User {
    User {
        user_id: id.to_string(),
        email: format!("{}@example.com", id),
        display_name: Some("Sample".to_string()),
        attributes: Vec::new(),
        envelope: None,
        creation_time: 7,
    }
}

#[test]
fn create_and_get_user() {
    let mut store = DirectoryStore::new();
    store.create_user(req("alice", "alice@example.com"), 1).unwrap();
    let u = store.get_user_details(&"alice".to_string()).unwrap();
    assert_eq!(u.user_id, "alice");
    assert_eq!(u.email, "alice@example.com");
    assert_eq!(u.creation_time, 1);
    assert!(u.envelope.is_none());
}

#[test]
fn create_user_twice_is_already_exists() {
    let mut store = DirectoryStore::new();
    store.create_user(req("alice", "a@example.com"), 1).unwrap();
    let e = store.create_user(req("alice", "b@example.com"), 2).unwrap_err();
    assert_eq!(e, DirectoryError::AlreadyExists);
}

#[test]
fn get_missing_user_is_not_found() {
    let store = DirectoryStore::new();
    let e = store.get_user_details(&"ghost".to_string()).unwrap_err();
    assert_eq!(e, DirectoryError::NotFound);
}

#[test]
fn delete_user_removes_memberships() {
    let mut store = DirectoryStore::new();
    store.create_user(req("alice", "a@example.com"), 1).unwrap();
    store.create_user(req("bob", "b@example.com"), 1).unwrap();
    let eng = store.create_group(&"eng".to_string()).unwrap();
    let ops = store.create_group(&"ops".to_string()).unwrap();
    store.add_user_to_group(&"alice".to_string(), eng).unwrap();
    store.add_user_to_group(&"alice".to_string(), ops).unwrap();
    store.add_user_to_group(&"bob".to_string(), eng).unwrap();
    store.delete_user(&"alice".to_string()).unwrap();
    let eng_members = store.members_of_group(eng).unwrap();
    assert_eq!(eng_members, vec!["bob".to_string()]);
    let ops_members = store.members_of_group(ops).unwrap();
    assert!(ops_members.is_empty());
    assert_eq!(
        store.get_user_details(&"alice".to_string()).unwrap_err(),
        DirectoryError::NotFound
    );
}

#[test]
fn add_user_to_group_is_idempotent() {
    let mut store = DirectoryStore::new();
    store.create_user(req("alice", "a@example.com"), 1).unwrap();
    let eng = store.create_group(&"eng".to_string()).unwrap();
    store.add_user_to_group(&"alice".to_string(), eng).unwrap();
    let once = store.members_of_group(eng).unwrap();
    store.add_user_to_group(&"alice".to_string(), eng).unwrap();
    let twice = store.members_of_group(eng).unwrap();
    assert_eq!(once, twice);
    assert_eq!(twice, vec!["alice".to_string()]);
}

#[test]
fn add_membership_missing_endpoint_is_not_found() {
    let mut store = DirectoryStore::new();
    store.create_user(req("alice", "a@example.com"), 1).unwrap();
    let eng = store.create_group(&"eng".to_string()).unwrap();
    assert_eq!(
        store.add_user_to_group(&"ghost".to_string(), eng).unwrap_err(),
        DirectoryError::NotFound
    );
    assert_eq!(
        store.add_user_to_group(&"alice".to_string(), eng + 17).unwrap_err(),
        DirectoryError::NotFound
    );
}

#[test]
fn group_membership_scenario() {
    let mut store = DirectoryStore::new();
    store.create_user(req("alice", "alice@example.com"), 1).unwrap();
    let eng = store.create_group(&"eng".to_string()).unwrap();
    store.add_user_to_group(&"alice".to_string(), eng).unwrap();
    let groups = store
        .list_groups(Some(&GroupFilter::DisplayName("eng".to_string())))
        .unwrap();
    assert_eq!(groups.len(), 1);
    assert_eq!(groups[0].display_name, "eng");
    let members = store.members_of_group(groups[0].group_id).unwrap();
    assert_eq!(members, vec!["alice".to_string()]);
    store.remove_user_from_group(&"alice".to_string(), eng).unwrap();
    let groups = store
        .list_groups(Some(&GroupFilter::DisplayName("eng".to_string())))
        .unwrap();
    assert_eq!(groups.len(), 1);
    let members = store.members_of_group(groups[0].group_id).unwrap();
    assert!(members.is_empty());
}

#[test]
fn group_id_space_exhaustion_is_storage_error() {
    let mut store = DirectoryStore {
        users: Vec::new(),
        groups: Vec::new(),
        memberships: Vec::new(),
        next_group_id: u64::MAX,
        refresh_records: Vec::new(),
    };
    assert_eq!(
        store.create_group(&"eng".to_string()).unwrap_err(),
        DirectoryError::StorageError
    );
}

#[test]
fn empty_and_matches_everything() {
    let u = sample_user("alice");
    let f = Filter::And(Vec::new());
    assert!(validate_filter(&f));
    assert!(eval_filter(&f, &u));
}

#[test]
fn empty_or_matches_nothing() {
    let u = sample_user("alice");
    let f = Filter::Or(Vec::new());
    assert!(validate_filter(&f));
    assert!(!eval_filter(&f, &u));
}

#[test]
fn double_negation_is_identity() {
    let u = sample_user("alice");
    let inner = Filter::Equality("user_id".to_string(), "alice".to_string());
    assert!(eval_filter(&inner, &u));
    let nn = Filter::Not(Box::new(Filter::Not(Box::new(Filter::Equality(
        "user_id".to_string(),
        "alice".to_string(),
    )))));
    assert_eq!(eval_filter(&nn, &u), eval_filter(&inner, &u));
    let miss = Filter::Equality("user_id".to_string(), "bob".to_string());
    let nn_miss = Filter::Not(Box::new(Filter::Not(Box::new(Filter::Equality(
        "user_id".to_string(),
        "bob".to_string(),
    )))));
    assert_eq!(eval_filter(&nn_miss, &u), eval_filter(&miss, &u));
}

#[test]
fn unknown_attribute_is_validation_error() {
    let store = DirectoryStore::new();
    let f = Filter::Equality("shoe_size".to_string(), "42".to_string());
    assert!(!validate_filter(&f));
    assert_eq!(
        store.list_users(Some(&f)).unwrap_err(),
        DirectoryError::ValidationError
    );
}

#[test]
fn list_users_with_filter() {
    let mut store = DirectoryStore::new();
    store.create_user(req("alice", "a@example.com"), 1).unwrap();
    store.create_user(req("bob", "b@example.com"), 1).unwrap();
    let all = store.list_users(None).unwrap();
    assert_eq!(all.len(), 2);
    let f = Filter::Equality("email".to_string(), "b@example.com".to_string());
    let got = store.list_users(Some(&f)).unwrap();
    assert_eq!(got.len(), 1);
    assert_eq!(got[0].user_id, "bob");
    let nested = Filter::And(vec![
        Filter::Equality("user_id".to_string(), "alice".to_string()),
        Filter::Not(Box::new(Filter::Equality(
            "email".to_string(),
            "b@example.com".to_string(),
        ))),
    ]);
    let got = store.list_users(Some(&nested)).unwrap();
    assert_eq!(got.len(), 1);
    assert_eq!(got[0].user_id, "alice");
}

#[test]
fn update_user_patches_fields_and_attributes() {
    let mut store = DirectoryStore::new();
    store.create_user(req("alice", "old@example.com"), 1).unwrap();
    let patch = UserPatch {
        email: Some("new@example.com".to_string()),
        display_name: Some("Alice".to_string()),
        attribute_updates: vec![
            AttributeUpdate::Assign("room".to_string(), "12".to_string()),
            AttributeUpdate::Assign("room".to_string(), "14".to_string()),
            AttributeUpdate::Assign("phone".to_string(), "555".to_string()),
            AttributeUpdate::Unset("phone".to_string()),
        ],
    };
    store.update_user(&"alice".to_string(), &patch).unwrap();
    let u = store.get_user_details(&"alice".to_string()).unwrap();
    assert_eq!(u.email, "new@example.com");
    assert_eq!(u.display_name, Some("Alice".to_string()));
    let attrs: Vec<(String, String)> = u
        .attributes
        .iter()
        .map(|a: &Attribute| (a.name.clone(), a.value.clone()))
        .collect();
    assert_eq!(attrs, vec![("room".to_string(), "14".to_string())]);
    assert_eq!(
        store.update_user(&"ghost".to_string(), &patch).unwrap_err(),
        DirectoryError::NotFound
    );
}

#[test]
fn delete_group_removes_its_memberships() {
    let mut store = DirectoryStore::new();
    store.create_user(req("alice", "a@example.com"), 1).unwrap();
    let eng = store.create_group(&"eng".to_string()).unwrap();
    store.add_user_to_group(&"alice".to_string(), eng).unwrap();
    store.delete_group(eng).unwrap();
    assert_eq!(
        store.members_of_group(eng).unwrap_err(),
        DirectoryError::NotFound
    );
    let names = store.groups_of_user(&"alice".to_string());
    assert!(names.is_empty());
}

#[test]
fn bootstrap_scenario_login_right_and_wrong_password() {
    let mut store = DirectoryStore::new();
    let key = key();
    let config = BootstrapConfig {
        admin_user_id: "admin".to_string(),
        admin_email: "admin@example.com".to_string(),
        admin_password: "abc123!".to_string(),
    };
    set_up_directory(&mut store, &key, &config, 10).unwrap();
    store
        .verify_user_password(&key, &"admin".to_string(), "abc123!")
        .unwrap();
    assert_eq!(
        store
            .verify_user_password(&key, &"admin".to_string(), "wrongpass")
            .unwrap_err(),
        DirectoryError::AuthenticationFailed
    );
    assert_eq!(
        store
            .verify_user_password(&key, &"nobody".to_string(), "abc123!")
            .unwrap_err(),
        DirectoryError::AuthenticationFailed
    );
}

#[test]
fn bootstrap_twice_is_a_no_op() {
    let mut store = DirectoryStore::new();
    let key = key();
    let config = BootstrapConfig {
        admin_user_id: "admin".to_string(),
        admin_email: "admin@example.com".to_string(),
        admin_password: "abc123!".to_string(),
    };
    set_up_directory(&mut store, &key, &config, 10).unwrap();
    let users_once = store.list_users(None).unwrap().len();
    let groups_once = store.list_groups(None).unwrap().len();
    set_up_directory(&mut store, &key, &config, 99).unwrap();
    let users_twice = store.list_users(None).unwrap().len();
    let groups_twice = store.list_groups(None).unwrap().len();
    assert_eq!(users_once, users_twice);
    assert_eq!(groups_once, groups_twice);
    assert_eq!(users_twice, 1);
    assert_eq!(groups_twice, 3);
    let admins = store
        .list_groups(Some(&GroupFilter::DisplayName("lldap_admin".to_string())))
        .unwrap();
    assert_eq!(admins.len(), 1);
    let members = store.members_of_group(admins[0].group_id).unwrap();
    assert_eq!(members, vec!["admin".to_string()]);
}

#[test]
fn reregistration_replaces_the_envelope() {
    let mut store = DirectoryStore::new();
    let key = key();
    store.create_user(req("alice", "a@example.com"), 1).unwrap();
    store
        .register_password(&key, &"alice".to_string(), "first-pass")
        .unwrap();
    store
        .register_password(&key, &"alice".to_string(), "second-pass")
        .unwrap();
    assert_eq!(
        store
            .verify_user_password(&key, &"alice".to_string(), "first-pass")
            .unwrap_err(),
        DirectoryError::AuthenticationFailed
    );
    store
        .verify_user_password(&key, &"alice".to_string(), "second-pass")
        .unwrap();
}

#[test]
fn test_email_command_checks_the_address() {
    let m = send_test_email_command(&"ops@example.com".to_string()).unwrap();
    assert_eq!(m.to, "ops@example.com");
    assert_eq!(m.subject, "Test email");
    assert_eq!(
        send_test_email_command(&"not-an-address".to_string()).unwrap_err(),
        DirectoryError::ValidationError
    );
    assert_eq!(
        send_test_email_command(&"@example.com".to_string()).unwrap_err(),
        DirectoryError::ValidationError
    );
    assert_eq!(
        send_test_email_command(&"user@".to_string()).unwrap_err(),
        DirectoryError::ValidationError
    );
}

#[test]
fn bootstrap_completes_a_partial_store() {
    // Administrator present but the privileged groups missing: the run
    // creates exactly the two groups and touches no user.
    let mut store = DirectoryStore::new();
    let key = key();
    store.create_user(req("admin", "admin@example.com"), 1).unwrap();
    let config = BootstrapConfig {
        admin_user_id: "admin".to_string(),
        admin_email: "admin@example.com".to_string(),
        admin_password: "abc123!".to_string(),
    };
    set_up_directory(&mut store, &key, &config, 10).unwrap();
    assert_eq!(store.list_users(None).unwrap().len(), 1);
    let names: Vec<String> = store
        .list_groups(None)
        .unwrap()
        .iter()
        .map(|g| g.display_name.clone())
        .collect();
    assert_eq!(
        names,
        vec![
            "lldap_password_manager".to_string(),
            "lldap_strict_readonly".to_string()
        ]
    );
    // No lldap_admin group appears, and no envelope was registered.
    assert_eq!(
        store
            .verify_user_password(&key, &"admin".to_string(), "abc123!")
            .unwrap_err(),
        DirectoryError::AuthenticationFailed
    );
}

#[test]
fn bootstrap_fails_when_a_needed_group_name_is_taken() {
    // The strict-read-only name is taken while the password-manager
    // group is missing: the run cannot complete and reports the clash.
    let mut store = DirectoryStore::new();
    let key = key();
    store.create_group(&"lldap_strict_readonly".to_string()).unwrap();
    let config = BootstrapConfig {
        admin_user_id: "admin".to_string(),
        admin_email: "admin@example.com".to_string(),
        admin_password: "abc123!".to_string(),
    };
    assert_eq!(
        set_up_directory(&mut store, &key, &config, 10).unwrap_err(),
        DirectoryError::AlreadyExists
    );
}
