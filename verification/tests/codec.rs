//! The byte-level codecs against reference values and the base64 crate.

use authcore::b64url::{base64url_decode, base64url_encode};
use authcore::claims::{claims_to_json, parse_claims, AuthTokenClaims};

#[test]
fn base64url_matches_the_reference_encoder() {
    let cases: Vec<Vec<u8>> = vec![
        vec![],
        vec![0],
        vec![255],
        vec![0, 0],
        vec![251, 239],
        vec![1, 2, 3],
        vec![1, 2, 3, 4],
        vec![1, 2, 3, 4, 5],
        vec![1, 2, 3, 4, 5, 6],
        b"any carnal pleasure.".to_vec(),
        (0u8..=255).collect(),
    ];
    for input in cases {
        let ours = base64url_encode(&input);
        let reference = base64::encode_config(&input, base64::URL_SAFE_NO_PAD);
        assert_eq!(String::from_utf8(ours.clone()).unwrap(), reference);
        assert_eq!(base64url_decode(&ours), Some(input));
    }
}

#[test]
fn base64url_decode_is_strict() {
    // a length of one modulo four never decodes
    assert_eq!(base64url_decode(b"A"), None);
    assert_eq!(base64url_decode(b"AAAAA"), None);
    // bytes outside the alphabet are rejected
    assert_eq!(base64url_decode(b"A+"), None);
    assert_eq!(base64url_decode(b"A="), None);
    assert_eq!(base64url_decode(b"A."), None);
    // non-canonical trailing bits are rejected
    assert_eq!(base64url_decode(b"AB"), None);
    assert_eq!(base64url_decode(b"AAB"), None);
    // the canonical forms decode
    assert_eq!(base64url_decode(b"AA"), Some(vec![0]));
    assert_eq!(base64url_decode(b"AAA"), Some(vec![0, 0]));
    assert_eq!(base64url_decode(b"_w"), Some(vec![255]));
}

#[test]
fn claims_serialize_to_the_canonical_document() {
    let c = AuthTokenClaims {
        token_id: 1,
        user_id: 2,
        email: b"a@x.com".to_vec(),
        token: b"c2VjcmV0".to_vec(),
        exp: 1234,
    };
    let json = claims_to_json(&c);
    assert_eq!(
        String::from_utf8(json.clone()).unwrap(),
        "{\"token_id\":1,\"user_id\":2,\"email\":\"a@x.com\",\"token\":\"c2VjcmV0\",\"exp\":1234}"
    );
    let back = parse_claims(&json).unwrap();
    assert_eq!(back.token_id, 1);
    assert_eq!(back.user_id, 2);
    assert_eq!(back.email, b"a@x.com".to_vec());
    assert_eq!(back.token, b"c2VjcmV0".to_vec());
    assert_eq!(back.exp, 1234);
}

#[test]
fn claims_escape_and_unescape_special_bytes() {
    let c = AuthTokenClaims {
        token_id: 0,
        user_id: 0,
        email: b"a\"b\\c\nd".to_vec(),
        token: vec![],
        exp: 0,
    };
    let json = claims_to_json(&c);
    assert_eq!(
        String::from_utf8(json.clone()).unwrap(),
        "{\"token_id\":0,\"user_id\":0,\"email\":\"a\\\"b\\\\c\\u000ad\",\"token\":\"\",\"exp\":0}"
    );
    let back = parse_claims(&json).unwrap();
    assert_eq!(back.email, b"a\"b\\c\nd".to_vec());
}

#[test]
fn claims_parser_is_strict() {
    let good = "{\"token_id\":1,\"user_id\":2,\"email\":\"e\",\"token\":\"t\",\"exp\":3}";
    assert!(parse_claims(good.as_bytes()).is_some());
    // trailing bytes
    assert!(parse_claims(format!("{} ", good).as_bytes()).is_none());
    // a leading zero is not canonical
    let zero = "{\"token_id\":01,\"user_id\":2,\"email\":\"e\",\"token\":\"t\",\"exp\":3}";
    assert!(parse_claims(zero.as_bytes()).is_none());
    // negative and missing numbers are refused
    let neg = "{\"token_id\":-1,\"user_id\":2,\"email\":\"e\",\"token\":\"t\",\"exp\":3}";
    assert!(parse_claims(neg.as_bytes()).is_none());
    // a reordered document is not canonical
    let swapped = "{\"user_id\":2,\"token_id\":1,\"email\":\"e\",\"token\":\"t\",\"exp\":3}";
    assert!(parse_claims(swapped.as_bytes()).is_none());
    // a value above i64::MAX is refused
    let big = "{\"token_id\":9223372036854775808,\"user_id\":2,\"email\":\"e\",\"token\":\"t\",\"exp\":3}";
    assert!(parse_claims(big.as_bytes()).is_none());
    // i64::MAX itself is fine
    let max = "{\"token_id\":9223372036854775807,\"user_id\":2,\"email\":\"e\",\"token\":\"t\",\"exp\":3}";
    assert_eq!(parse_claims(max.as_bytes()).unwrap().token_id, i64::MAX);
    // an unescaped control byte is refused
    let ctl = "{\"token_id\":1,\"user_id\":2,\"email\":\"e\ne\",\"token\":\"t\",\"exp\":3}";
    assert!(parse_claims(ctl.as_bytes()).is_none());
}

#[test]
fn claims_document_agrees_with_serde_style_encoding() {
    // the canonical form matches what a field-ordered serde serializer
    // would emit for ordinary values, so independent clients can read it
    let c = AuthTokenClaims {
        token_id: 42,
        user_id: 7,
        email: b"user@example.com".to_vec(),
        token: b"AAAA".to_vec(),
        exp: 1700000000,
    };
    let json = String::from_utf8(claims_to_json(&c)).unwrap();
    assert_eq!(
        json,
        format!(
            "{{\"token_id\":{},\"user_id\":{},\"email\":\"{}\",\"token\":\"{}\",\"exp\":{}}}",
            42, 7, "user@example.com", "AAAA", 1700000000u64
        )
    );
}
