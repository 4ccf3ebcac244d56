use directory_engine::auth::ServerKey;
use directory_engine::store::DirectoryStore;
use directory_engine::token::ACCESS_TOKEN_LIFETIME;
use directory_engine::types::{CreateUserRequest, DirectoryError, RefreshRecord};

fn key() -> ServerKey {
    ServerKey { secret: vec![0xdead_beef_0bad_cafe] }
}

fn store_with_alice() -> DirectoryStore {
    let mut store = DirectoryStore::new();
    store
        .create_user(CreateUserRequest {
            user_id: "alice".to_string(),
            email: "a@example.com".to_string(),
            display_name: None,
        }, 1)
        .unwrap();
    store
}

#[test]
fn token_validates_until_its_expiry() {
    let mut store = store_with_alice();
    let key = key();
    let issued_at: u64 = 1000;
    let (access, _refresh) = store
        .issue_token_pair(&key, &"alice".to_string(), issued_at, 42)
        .unwrap();
    store.validate_access_token(&key, &access, issued_at).unwrap();
    store
        .validate_access_token(&key, &access, issued_at + ACCESS_TOKEN_LIFETIME - 1)
        .unwrap();
    assert_eq!(
        store
            .validate_access_token(&key, &access, issued_at + ACCESS_TOKEN_LIFETIME)
            .unwrap_err(),
        DirectoryError::TokenError
    );
}

#[test]
fn tampered_token_is_rejected() {
    let mut store = store_with_alice();
    let key = key();
    let (access, _refresh) = store
        .issue_token_pair(&key, &"alice".to_string(), 1000, 42)
        .unwrap();
    let mut forged = access;
    forged.user_id = "admin".to_string();
    assert_eq!(
        store.validate_access_token(&key, &forged, 1000).unwrap_err(),
        DirectoryError::TokenError
    );
}

#[test]
fn token_carries_the_group_snapshot() {
    let mut store = store_with_alice();
    let key = key();
    let eng = store.create_group(&"eng".to_string()).unwrap();
    store.add_user_to_group(&"alice".to_string(), eng).unwrap();
    let (access, _refresh) = store
        .issue_token_pair(&key, &"alice".to_string(), 1000, 42)
        .unwrap();
    assert_eq!(access.groups, vec!["eng".to_string()]);
    // The snapshot is taken at issuance: leaving the group later does
    // not rewrite the claims.
    store.remove_user_from_group(&"alice".to_string(), eng).unwrap();
    assert_eq!(access.groups, vec!["eng".to_string()]);
    store.validate_access_token(&key, &access, 1500).unwrap();
}

#[test]
fn refresh_rotates_the_record() {
    let mut store = store_with_alice();
    let key = key();
    let (_access, refresh) = store
        .issue_token_pair(&key, &"alice".to_string(), 1000, 42)
        .unwrap();
    let (access2, refresh2) = store
        .refresh_token_pair(&key, &refresh, 2000, 43)
        .unwrap();
    store.validate_access_token(&key, &access2, 2000).unwrap();
    // Single use: the old refresh token no longer has a record.
    assert_eq!(
        store.refresh_token_pair(&key, &refresh, 2100, 44).unwrap_err(),
        DirectoryError::TokenError
    );
    // The rotated one works.
    store.refresh_token_pair(&key, &refresh2, 2200, 45).unwrap();
}

#[test]
fn expired_refresh_record_is_rejected() {
    let mut store = store_with_alice();
    let key = key();
    let (_access, refresh) = store
        .issue_token_pair(&key, &"alice".to_string(), 1000, 42)
        .unwrap();
    assert_eq!(
        store
            .refresh_token_pair(&key, &refresh, refresh.expiry, 43)
            .unwrap_err(),
        DirectoryError::TokenError
    );
}

#[test]
fn revoked_refresh_token_is_rejected() {
    let mut store = store_with_alice();
    let key = key();
    let (_access, refresh) = store
        .issue_token_pair(&key, &"alice".to_string(), 1000, 42)
        .unwrap();
    store.revoke_refresh_token(refresh.token_hash).unwrap();
    assert_eq!(
        store.refresh_token_pair(&key, &refresh, 1100, 43).unwrap_err(),
        DirectoryError::TokenError
    );
}

#[test]
fn cleanup_removes_exactly_the_expired_records() {
    let mut store = DirectoryStore::new();
    store.refresh_records = vec![
        RefreshRecord { token_hash: 1, user_id: "a".to_string(), expiry: 100 },
        RefreshRecord { token_hash: 2, user_id: "b".to_string(), expiry: 300 },
        RefreshRecord { token_hash: 3, user_id: "c".to_string(), expiry: 200 },
    ];
    store.cleanup_expired_tokens(200);
    let kept: Vec<u64> = store.refresh_records.iter().map(|r| r.token_hash).collect();
    assert_eq!(kept, vec![2]);
    assert!(store.refresh_records.iter().all(|r| r.expiry > 200));
}

#[test]
fn cleanup_keeps_everything_when_nothing_expired() {
    let mut store = DirectoryStore::new();
    store.refresh_records = vec![
        RefreshRecord { token_hash: 1, user_id: "a".to_string(), expiry: 500 },
        RefreshRecord { token_hash: 2, user_id: "b".to_string(), expiry: 600 },
    ];
    store.cleanup_expired_tokens(100);
    assert_eq!(store.refresh_records.len(), 2);
}

#[test]
fn issuing_for_an_unknown_user_is_not_found() {
    let mut store = DirectoryStore::new();
    let key = key();
    assert_eq!(
        store
            .issue_token_pair(&key, &"ghost".to_string(), 1000, 42)
            .unwrap_err(),
        DirectoryError::NotFound
    );
}

#[test]
fn colliding_refresh_identifier_is_storage_error() {
    let mut store = store_with_alice();
    let key = key();
    let (_a1, refresh1) = store
        .issue_token_pair(&key, &"alice".to_string(), 1000, 42)
        .unwrap();
    let (_a2, _refresh2) = store
        .issue_token_pair(&key, &"alice".to_string(), 1000, 43)
        .unwrap();
    assert_eq!(
        store.issue_token_pair(&key, &"alice".to_string(), 1000, 42).unwrap_err(),
        DirectoryError::StorageError
    );
    assert_eq!(
        store.refresh_token_pair(&key, &refresh1, 1100, 43).unwrap_err(),
        DirectoryError::StorageError
    );
    // Reusing the old identifier for the rotated record is fine.
    store.refresh_token_pair(&key, &refresh1, 1100, 42).unwrap();
}
