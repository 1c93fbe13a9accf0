//! The keyed-record store on its own: session tokens and the audit log.

use authcore::store::{
    CredentialStore, GetAuthTokenError, NewAuthLog, NewAuthToken, NewUser,
};

#[test]
fn session_tokens_get_fresh_identifiers() {
    let mut store = CredentialStore::new();
    let first = store
        .create_token(&NewAuthToken {
            user_id: 1,
            token: vec![1, 2, 3],
            date_created: 100,
            date_expired: 200,
            token_type: "authentication",
        })
        .unwrap();
    let second = store
        .create_token(&NewAuthToken {
            user_id: 1,
            token: vec![4, 5, 6],
            date_created: 150,
            date_expired: 250,
            token_type: "authentication",
        })
        .unwrap();
    assert_eq!(first.id, 1);
    assert_eq!(second.id, 2);
    assert_eq!(first.token, vec![1, 2, 3]);
    assert_eq!(first.token_type, "authentication");

    let fetched = store.get_auth_token(1).unwrap();
    assert_eq!(fetched.user_id, 1);
    assert_eq!(fetched.token, vec![1, 2, 3]);
    assert_eq!(fetched.date_created, 100);
    assert_eq!(fetched.date_expired, 200);
    assert!(matches!(
        store.get_auth_token(3),
        Err(GetAuthTokenError::AuthTokenNotFound)
    ));

    // deleting one token never renumbers or touches the other
    assert!(store.delete_auth_token(1));
    assert!(matches!(
        store.get_auth_token(1),
        Err(GetAuthTokenError::AuthTokenNotFound)
    ));
    assert_eq!(store.get_auth_token(2).unwrap().token, vec![4, 5, 6]);

    // a deleted identifier is never reused
    let third = store
        .create_token(&NewAuthToken {
            user_id: 2,
            token: vec![7],
            date_created: 300,
            date_expired: 400,
            token_type: "authentication",
        })
        .unwrap();
    assert_eq!(third.id, 3);
}

#[test]
fn the_audit_log_is_append_only_with_sequential_ids() {
    let mut store = CredentialStore::new();
    for (i, success) in [true, false, true].iter().enumerate() {
        let row = store
            .create_auth_log(&NewAuthLog {
                email: "a@x.com",
                success: *success,
                ip_address: "::1",
                user_agent: "agent",
                date_created: 100 + i as i64,
            })
            .unwrap();
        assert_eq!(row.id, i as i64 + 1);
    }
    assert_eq!(store.auth_log.len(), 3);
    assert!(store.auth_log[0].success);
    assert!(!store.auth_log[1].success);
    assert_eq!(store.auth_log[2].date_created, 102);
}

#[test]
fn stored_users_keep_their_fields() {
    let mut store = CredentialStore::new();
    let created = store
        .create_user(&NewUser { email: "a@x.com", password: "hash-bytes" }, 500)
        .unwrap();
    assert_eq!(created.id, 1);
    assert_eq!(created.password, "hash-bytes");
    assert_eq!(created.date_created, 500);
    assert_eq!(created.date_modified, 500);
    let fetched = store.get_user_by_id(1).unwrap();
    assert_eq!(fetched.email, "a@x.com");
    assert_eq!(fetched.password, "hash-bytes");
}
