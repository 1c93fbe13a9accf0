//! End-to-end flows of the credential subsystem against the real outside
//! crates: registration, login, verification, tampering, expiry, revocation.

use authcore::auth::{
    create_user, create_user_at, login, login_at, verify_token, verify_token_at, LoginError,
    VerifyTokenError,
};
use authcore::config::{Config, ConfigError};
use authcore::store::{CreateUserError, CredentialStore};

fn test_config() -> Config {
    Config::new(b"test pepper".to_vec(), b"test signing secret".to_vec(), 4, 3600, 60).unwrap()
}

#[test]
fn config_rejects_missing_secrets() {
    assert!(matches!(
        Config::new(vec![], b"k".to_vec(), 4, 3600, 60),
        Err(ConfigError::EmptyPepper)
    ));
    assert!(matches!(
        Config::new(b"p".to_vec(), vec![], 4, 3600, 60),
        Err(ConfigError::EmptySigningSecret)
    ));
    assert!(matches!(
        Config::new(b"p".to_vec(), b"k".to_vec(), 3, 3600, 60),
        Err(ConfigError::InvalidCost)
    ));
    assert!(matches!(
        Config::new(b"p".to_vec(), b"k".to_vec(), 32, 3600, 60),
        Err(ConfigError::InvalidCost)
    ));
    assert!(matches!(
        Config::new(b"p".to_vec(), b"k".to_vec(), 4, 0, 60),
        Err(ConfigError::InvalidTtl)
    ));
    assert!(matches!(
        Config::new(b"p".to_vec(), b"k".to_vec(), 4, 3600, -1),
        Err(ConfigError::InvalidLeeway)
    ));
}

#[test]
fn register_echoes_email_and_rejects_duplicate() {
    let cfg = test_config();
    let mut store = CredentialStore::new();
    let user = create_user_at(&mut store, &cfg, "a@x.com", "secret123", 1_000).unwrap();
    assert_eq!(user.id, 1);
    assert_eq!(user.email, "a@x.com");
    assert_ne!(user.password, "secret123");
    assert_eq!(user.date_created, 1_000);

    let again = create_user_at(&mut store, &cfg, "a@x.com", "other password", 1_001);
    assert!(matches!(again, Err(CreateUserError::EmailExists)));
    assert_eq!(store.users.len(), 1);

    let other = create_user_at(&mut store, &cfg, "b@x.com", "secret123", 1_002).unwrap();
    assert_eq!(other.id, 2);
    assert_eq!(store.users.len(), 2);
}

#[test]
fn login_issues_assertion_that_verifies() {
    let cfg = test_config();
    let mut store = CredentialStore::new();
    create_user_at(&mut store, &cfg, "a@x.com", "secret123", 1_000).unwrap();

    let assertion = login_at(
        &mut store,
        &cfg,
        "a@x.com",
        "secret123",
        "127.0.0.1",
        "test-agent",
        2_000,
    )
    .unwrap();
    assert_eq!(assertion.matches('.').count(), 2);
    assert_eq!(store.tokens.len(), 1);
    assert_eq!(store.tokens[0].id, 1);
    assert_eq!(store.tokens[0].user_id, 1);
    assert_eq!(store.tokens[0].token.len(), 16);
    assert_eq!(store.tokens[0].date_created, 2_000);
    assert_eq!(store.tokens[0].date_expired, 5_600);
    assert_eq!(store.tokens[0].token_type, "authentication");

    let (user_id, email) = verify_token_at(&store, &cfg, &assertion, 2_500).unwrap();
    assert_eq!(user_id, 1);
    assert_eq!(email, "a@x.com");
}

#[test]
fn every_login_attempt_writes_one_audit_row() {
    let cfg = test_config();
    let mut store = CredentialStore::new();
    create_user_at(&mut store, &cfg, "a@x.com", "secret123", 1_000).unwrap();
    assert_eq!(store.auth_log.len(), 0);

    let ok = login_at(&mut store, &cfg, "a@x.com", "secret123", "10.0.0.1", "agent-a", 2_000);
    assert!(ok.is_ok());
    assert_eq!(store.auth_log.len(), 1);
    assert!(store.auth_log[0].success);
    assert_eq!(store.auth_log[0].email, "a@x.com");
    assert_eq!(store.auth_log[0].ip_address, "10.0.0.1");
    assert_eq!(store.auth_log[0].user_agent, "agent-a");
    assert_eq!(store.auth_log[0].date_created, 2_000);
    assert_eq!(store.auth_log[0].id, 1);

    let wrong = login_at(&mut store, &cfg, "a@x.com", "wrong", "10.0.0.2", "agent-b", 2_001);
    assert!(matches!(wrong, Err(LoginError::WrongPassword)));
    assert_eq!(store.auth_log.len(), 2);
    assert!(!store.auth_log[1].success);

    let unknown = login_at(&mut store, &cfg, "n@x.com", "secret123", "10.0.0.3", "agent-c", 2_002);
    assert!(matches!(unknown, Err(LoginError::UserNotFound)));
    assert_eq!(store.auth_log.len(), 3);
    assert!(!store.auth_log[2].success);
    assert_eq!(store.auth_log[2].email, "n@x.com");

    // failed attempts mint no token
    assert_eq!(store.tokens.len(), 1);
}

#[test]
fn flipping_any_signature_byte_is_rejected() {
    let cfg = test_config();
    let mut store = CredentialStore::new();
    create_user_at(&mut store, &cfg, "a@x.com", "secret123", 1_000).unwrap();
    let assertion =
        login_at(&mut store, &cfg, "a@x.com", "secret123", "::1", "agent", 2_000).unwrap();

    let dot = assertion.rfind('.').unwrap();
    let (head, sig) = assertion.split_at(dot + 1);
    for i in 0..sig.len() {
        let mut bytes = sig.as_bytes().to_vec();
        bytes[i] = if bytes[i] == b'A' { b'B' } else { b'A' };
        let tampered = format!("{}{}", head, String::from_utf8(bytes).unwrap());
        assert_eq!(
            verify_token_at(&store, &cfg, &tampered, 2_100).unwrap_err(),
            VerifyTokenError::SignatureError
        );
    }

    // a lengthened signature segment fails the same way
    let garbage = format!("{}x{}", head, sig);
    assert_eq!(
        verify_token_at(&store, &cfg, &garbage, 2_100).unwrap_err(),
        VerifyTokenError::SignatureError
    );
}

#[test]
fn expiry_is_enforced_with_leeway() {
    let cfg = test_config();
    let mut store = CredentialStore::new();
    create_user_at(&mut store, &cfg, "a@x.com", "secret123", 1_000).unwrap();
    let assertion =
        login_at(&mut store, &cfg, "a@x.com", "secret123", "::1", "agent", 2_000).unwrap();

    // expiry at 5600, leeway 60: still good at 5660, expired at 5661
    assert!(verify_token_at(&store, &cfg, &assertion, 5_660).is_ok());
    assert_eq!(
        verify_token_at(&store, &cfg, &assertion, 5_661).unwrap_err(),
        VerifyTokenError::ExpiredError
    );
}

#[test]
fn revoking_the_session_token_defeats_a_valid_assertion() {
    let cfg = test_config();
    let mut store = CredentialStore::new();
    create_user_at(&mut store, &cfg, "a@x.com", "secret123", 1_000).unwrap();
    let assertion =
        login_at(&mut store, &cfg, "a@x.com", "secret123", "::1", "agent", 2_000).unwrap();
    assert!(verify_token_at(&store, &cfg, &assertion, 2_100).is_ok());

    assert!(store.delete_auth_token(1));
    assert!(!store.delete_auth_token(1));
    assert_eq!(
        verify_token_at(&store, &cfg, &assertion, 2_100).unwrap_err(),
        VerifyTokenError::NotFound
    );
}

#[test]
fn two_sessions_for_one_user_stay_apart() {
    let cfg = test_config();
    let mut store = CredentialStore::new();
    create_user_at(&mut store, &cfg, "a@x.com", "secret123", 1_000).unwrap();
    let first = login_at(&mut store, &cfg, "a@x.com", "secret123", "::1", "agent", 2_000).unwrap();
    let second = login_at(&mut store, &cfg, "a@x.com", "secret123", "::1", "agent", 2_001).unwrap();
    assert_ne!(first, second);
    assert_eq!(store.tokens.len(), 2);
    assert_eq!(store.tokens[0].id, 1);
    assert_eq!(store.tokens[1].id, 2);

    // revoking one session leaves the other live
    assert!(store.delete_auth_token(1));
    assert_eq!(
        verify_token_at(&store, &cfg, &first, 2_100).unwrap_err(),
        VerifyTokenError::NotFound
    );
    assert!(verify_token_at(&store, &cfg, &second, 2_100).is_ok());
}

#[test]
fn clock_based_entry_points_run_the_same_flow() {
    let cfg = test_config();
    let mut store = CredentialStore::new();
    let user = create_user(&mut store, &cfg, "a@x.com", "secret123").unwrap();
    assert_eq!(user.id, 1);
    let assertion =
        login(&mut store, &cfg, "a@x.com", "secret123", "127.0.0.1", "agent").unwrap();
    let (user_id, email) = verify_token(&store, &cfg, &assertion).unwrap();
    assert_eq!(user_id, 1);
    assert_eq!(email, "a@x.com");
    assert_eq!(
        login(&mut store, &cfg, "a@x.com", "wrong", "127.0.0.1", "agent").unwrap_err(),
        LoginError::WrongPassword
    );
}

#[test]
fn unicode_email_survives_the_round_trip() {
    let cfg = test_config();
    let mut store = CredentialStore::new();
    let odd = "weird \"name\"\\μ@x.com";
    create_user_at(&mut store, &cfg, odd, "pw", 1_000).unwrap();
    let assertion = login_at(&mut store, &cfg, odd, "pw", "::1", "agent", 2_000).unwrap();
    let (user_id, email) = verify_token_at(&store, &cfg, &assertion, 2_100).unwrap();
    assert_eq!(user_id, 1);
    assert_eq!(email, odd);
}

#[test]
fn user_lookup_by_id_and_email_agree() {
    let cfg = test_config();
    let mut store = CredentialStore::new();
    create_user_at(&mut store, &cfg, "a@x.com", "pw-a", 1_000).unwrap();
    create_user_at(&mut store, &cfg, "b@x.com", "pw-b", 1_001).unwrap();
    let by_email = store.get_user_by_email("b@x.com").unwrap();
    let by_id = store.get_user_by_id(by_email.id).unwrap();
    assert_eq!(by_id.email, "b@x.com");
    assert!(store.get_user_by_email("c@x.com").is_err());
    assert!(store.get_user_by_id(3).is_err());
    assert!(store.get_user_by_id(0).is_err());
}
