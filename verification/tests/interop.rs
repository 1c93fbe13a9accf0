//! The assertion format against independent implementations: jsonwebtoken's
//! signer and the base64 crate.

use authcore::auth::{create_user_at, login_at, verify_token_at, VerifyTokenError};
use authcore::config::Config;
use authcore::store::CredentialStore;

const KEY: &[u8] = b"test signing secret";

fn test_config() -> Config {
    Config::new(b"test pepper".to_vec(), KEY.to_vec(), 4, 3600, 60).unwrap()
}

fn issue(store: &mut CredentialStore, cfg: &Config) -> String {
    create_user_at(store, cfg, "a@x.com", "secret123", 1_000).unwrap();
    login_at(store, cfg, "a@x.com", "secret123", "::1", "agent", 2_000).unwrap()
}

#[test]
fn the_signature_checks_out_under_jsonwebtoken() {
    let cfg = test_config();
    let mut store = CredentialStore::new();
    let assertion = issue(&mut store, &cfg);
    let dot = assertion.rfind('.').unwrap();
    let message = &assertion[..dot];
    let signature = &assertion[dot + 1..];
    let ok = jsonwebtoken::crypto::verify(
        signature,
        message.as_bytes(),
        &jsonwebtoken::DecodingKey::from_secret(KEY),
        jsonwebtoken::Algorithm::HS256,
    )
    .unwrap();
    assert!(ok);
}

#[test]
fn the_header_segment_is_the_standard_one() {
    let cfg = test_config();
    let mut store = CredentialStore::new();
    let assertion = issue(&mut store, &cfg);
    let header = assertion.split('.').next().unwrap();
    let decoded = base64::decode_config(header, base64::URL_SAFE_NO_PAD).unwrap();
    assert_eq!(decoded, b"{\"typ\":\"JWT\",\"alg\":\"HS256\"}".to_vec());
}

#[test]
fn the_claims_segment_reads_as_json_with_the_encoded_secret() {
    let cfg = test_config();
    let mut store = CredentialStore::new();
    let assertion = issue(&mut store, &cfg);
    let claims_seg = assertion.split('.').nth(1).unwrap();
    let decoded = base64::decode_config(claims_seg, base64::URL_SAFE_NO_PAD).unwrap();
    let text = String::from_utf8(decoded).unwrap();

    // the secret travels base64-encoded, never raw: 16 bytes become 24 chars
    let secret_b64 = base64::encode(&store.tokens[0].token);
    assert_eq!(secret_b64.len(), 24);
    let expected = format!(
        "{{\"token_id\":1,\"user_id\":1,\"email\":\"a@x.com\",\"token\":\"{}\",\"exp\":5600}}",
        secret_b64
    );
    assert_eq!(text, expected);
}

#[test]
fn an_assertion_built_by_an_independent_client_verifies() {
    let cfg = test_config();
    let mut store = CredentialStore::new();
    issue(&mut store, &cfg);

    // rebuild the same claims with the base64 crate and jsonwebtoken
    let secret_b64 = base64::encode(&store.tokens[0].token);
    let claims = format!(
        "{{\"token_id\":1,\"user_id\":1,\"email\":\"a@x.com\",\"token\":\"{}\",\"exp\":5600}}",
        secret_b64
    );
    let header = "{\"typ\":\"JWT\",\"alg\":\"HS256\"}";
    let message = format!(
        "{}.{}",
        base64::encode_config(header, base64::URL_SAFE_NO_PAD),
        base64::encode_config(&claims, base64::URL_SAFE_NO_PAD)
    );
    let signature = jsonwebtoken::crypto::sign(
        message.as_bytes(),
        &jsonwebtoken::EncodingKey::from_secret(KEY),
        jsonwebtoken::Algorithm::HS256,
    )
    .unwrap();
    let assertion = format!("{}.{}", message, signature);

    let (user_id, email) = verify_token_at(&store, &cfg, &assertion, 2_100).unwrap();
    assert_eq!(user_id, 1);
    assert_eq!(email, "a@x.com");
}

#[test]
fn a_wrong_user_or_secret_in_signed_claims_is_caught_by_the_store() {
    let cfg = test_config();
    let mut store = CredentialStore::new();
    issue(&mut store, &cfg);
    let secret_b64 = base64::encode(&store.tokens[0].token);
    let header_b64 =
        base64::encode_config("{\"typ\":\"JWT\",\"alg\":\"HS256\"}", base64::URL_SAFE_NO_PAD);
    let sign = |claims: &str| {
        let message = format!(
            "{}.{}",
            header_b64,
            base64::encode_config(claims, base64::URL_SAFE_NO_PAD)
        );
        let sig = jsonwebtoken::crypto::sign(
            message.as_bytes(),
            &jsonwebtoken::EncodingKey::from_secret(KEY),
            jsonwebtoken::Algorithm::HS256,
        )
        .unwrap();
        format!("{}.{}", message, sig)
    };

    // the owner claim disagrees with the persisted record
    let wrong_user = sign(&format!(
        "{{\"token_id\":1,\"user_id\":2,\"email\":\"a@x.com\",\"token\":\"{}\",\"exp\":5600}}",
        secret_b64
    ));
    assert_eq!(
        verify_token_at(&store, &cfg, &wrong_user, 2_100).unwrap_err(),
        VerifyTokenError::UserMismatch
    );

    // the secret claim disagrees with the persisted record
    let wrong_secret = sign(
        "{\"token_id\":1,\"user_id\":1,\"email\":\"a@x.com\",\"token\":\"AAAAAAAAAAAAAAAAAAAAAA==\",\"exp\":5600}",
    );
    assert_eq!(
        verify_token_at(&store, &cfg, &wrong_secret, 2_100).unwrap_err(),
        VerifyTokenError::TokenMismatch
    );

    // an unknown token identifier is not found
    let wrong_id = sign(&format!(
        "{{\"token_id\":9,\"user_id\":1,\"email\":\"a@x.com\",\"token\":\"{}\",\"exp\":5600}}",
        secret_b64
    ));
    assert_eq!(
        verify_token_at(&store, &cfg, &wrong_id, 2_100).unwrap_err(),
        VerifyTokenError::NotFound
    );
}
