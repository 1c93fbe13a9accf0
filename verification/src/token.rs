//! Signed assertions in the compact three-segment form
//! `base64url(header).base64url(claims).base64url(signature)`, plus the
//! trusted calls the issuer needs: HMAC signing, secret generation, the
//! secret's displayable encoding, and the clock.

use vstd::prelude::*;

use crate::b64url::{
    b64url_encode, base64url_encode_onto, lemma_b64url_encode_ascii, lemma_b64url_round_trip,
};
use crate::bytesutil::push_all;
use crate::claims::{
    claims_json, claims_to_json, lemma_claims_round_trip, spec_parse_claims, wf_claims,
    AuthTokenClaims, SpecClaims,
};
use crate::text::ascii_to_string;
use rand::Rng;
use vstd::utf8::{encode_utf8, valid_utf8};

verus! {

/// The base64url encoding of the raw HMAC-SHA256 of `msg` under `key`, as
/// jsonwebtoken's HS256 signer produces it; a function of the two values
/// alone.
pub uninterp spec fn hs256_sig(msg: Seq<u8>, key: Seq<u8>) -> Seq<u8>;

/// The standard padded base64 encoding of `b`, as the base64 crate's
/// `encode` produces it; a function of the bytes alone. It is the
/// displayable form of a session token secret.
pub uninterp spec fn b64_of(b: Seq<u8>) -> Seq<u8>;

/// Relies on jsonwebtoken::crypto::sign with HS256, which never fails and
/// returns the base64url (URL-safe, unpadded, hence ASCII) encoding of the
/// HMAC-SHA256 of the message under the key.
#[verifier::external_body]
pub(crate) fn hs256_sign(message: &[u8], key: &[u8]) -> (sig: Vec<u8>)
    ensures
        sig@ == hs256_sig(message@, key@),
        forall|i: int| 0 <= i < sig@.len() ==> #[trigger] sig@[i] < 0x80,
{
    jsonwebtoken::crypto::sign(
        message,
        &jsonwebtoken::EncodingKey::from_secret(key),
        jsonwebtoken::Algorithm::HS256,
    ).expect("HS256 signing does not fail").into_bytes()
}

/// Relies on base64::encode: the standard alphabet with padding, one
/// encoding for each byte string.
#[verifier::external_body]
pub(crate) fn b64_std_encode(b: &[u8]) -> (r: Vec<u8>)
    ensures
        r@ == b64_of(b@),
{
    base64::encode(b).into_bytes()
}

/// Relies on rand::thread_rng: sixteen bytes of cryptographic randomness.
/// Nothing is promised of the values.
#[verifier::external_body]
pub(crate) fn random_secret() -> (r: Vec<u8>)
    ensures
        r@.len() == 16,
{
    rand::thread_rng().gen::<[u8; 16]>().to_vec()
}

/// Relies on chrono::Utc::now: the current Unix timestamp in seconds.
/// Nothing is promised of the value.
#[verifier::external_body]
pub(crate) fn current_unix_time() -> i64 {
    chrono::Utc::now().timestamp()
}

/// The bytes of the fixed header `{"typ":"JWT","alg":"HS256"}`.
pub open spec fn header_bytes() -> Seq<u8> {
    seq![
        123u8, 34, 116, 121, 112, 34, 58, 34, 74, 87, 84, 34, 44, 34, 97, 108, 103, 34, 58, 34,
        72, 83, 50, 53, 54, 34, 125,
    ]
}

fn header_vec() -> (v: Vec<u8>)
    ensures
        v@ == header_bytes(),
{
    let mut v: Vec<u8> = Vec::new();
    v.push(123);
    v.push(34);
    v.push(116);
    v.push(121);
    v.push(112);
    v.push(34);
    v.push(58);
    v.push(34);
    v.push(74);
    v.push(87);
    v.push(84);
    v.push(34);
    v.push(44);
    v.push(34);
    v.push(97);
    v.push(108);
    v.push(103);
    v.push(34);
    v.push(58);
    v.push(34);
    v.push(72);
    v.push(83);
    v.push(50);
    v.push(53);
    v.push(54);
    v.push(34);
    v.push(125);
    proof {
        assert(v@ =~= header_bytes());
    }
    v
}

/// The part of an assertion that is signed: the encoded header, a dot, and
/// the encoded claims.
pub open spec fn signing_input(c: SpecClaims) -> Seq<u8> {
    b64url_encode(header_bytes()) + seq![46u8] + b64url_encode(claims_json(c))
}

/// A whole assertion: the signed part, a dot, and the encoded signature.
pub open spec fn assertion_bytes(c: SpecClaims, key: Seq<u8>) -> Seq<u8> {
    signing_input(c) + seq![46u8] + hs256_sig(signing_input(c), key)
}

/// Builds the signed assertion for a claim set.
pub fn encode_assertion(c: &AuthTokenClaims, key: &[u8]) -> (r: String)
    requires
        c.token_id >= 0,
        c.user_id >= 0,
        c.exp >= 0,
    ensures
        encode_utf8(r@) == assertion_bytes(c@, key@),
{
    let hdr = header_vec();
    let json = claims_to_json(c);
    let mut msg: Vec<u8> = Vec::new();
    base64url_encode_onto(hdr.as_slice(), &mut msg);
    msg.push(46);
    base64url_encode_onto(json.as_slice(), &mut msg);
    proof {
        assert(msg@ =~= signing_input(c@));
    }
    let sig = hs256_sign(msg.as_slice(), key);
    let mut out = msg;
    out.push(46);
    push_all(&mut out, sig.as_slice());
    proof {
        assert(out@ =~= assertion_bytes(c@, key@));
        lemma_b64url_encode_ascii(header_bytes());
        lemma_b64url_encode_ascii(claims_json(c@));
        let h = b64url_encode(header_bytes());
        let cl = b64url_encode(claims_json(c@));
        assert forall|i: int| 0 <= i < out@.len() implies #[trigger] out@[i] < 0x80 by {
            if i < h.len() {
                assert(out@[i] == h[i]);
            } else if i == h.len() {
                assert(out@[i] == 46);
            } else if i < h.len() + 1 + cl.len() {
                assert(out@[i] == cl[i - h.len() - 1]);
            } else if i == h.len() + 1 + cl.len() {
                assert(out@[i] == 46);
            } else {
                assert(out@[i] == sig@[i - (h.len() + 2 + cl.len())]);
            }
        }
    }
    ascii_to_string(out)
}

/// The first position at or after `from` holding byte `b`, or the length
/// if there is none.
pub open spec fn find_byte(s: Seq<u8>, b: u8, from: int) -> int
    recommends
        0 <= from <= s.len(),
    decreases s.len() - from,
{
    if !(0 <= from < s.len()) {
        s.len() as int
    } else if s[from] == b {
        from
    } else {
        find_byte(s, b, from + 1)
    }
}

/// A known first occurrence determines `find_byte`.
pub proof fn lemma_find_byte_at(s: Seq<u8>, b: u8, from: int, j: int)
    requires
        0 <= from <= j < s.len(),
        s[j] == b,
        forall|k: int| from <= k < j ==> s[k] != b,
    ensures
        find_byte(s, b, from) == j,
    decreases j - from,
{
    if from < j {
        lemma_find_byte_at(s, b, from + 1, j);
    }
}

/// Finds a byte, matching the spec-level search.
pub fn find_byte_in(s: &[u8], b: u8, from: usize) -> (r: usize)
    requires
        from <= s@.len(),
    ensures
        r == find_byte(s@, b, from as int),
        from <= r <= s@.len(),
        r < s@.len() ==> s@[r as int] == b,
{
    let n = s.len();
    let mut k: usize = from;
    while k < n
        invariant
            from <= k <= n,
            n == s@.len(),
            find_byte(s@, b, from as int) == find_byte(s@, b, k as int),
        decreases n - k,
    {
        if s[k] == b {
            return k;
        }
        k = k + 1;
    }
    n
}

/// Structural decode of an assertion: split on the first two dots, check
/// the signature over everything before the second dot, then decode and
/// parse the claims segment. Any failure is indistinguishable from a bad
/// signature.
pub open spec fn spec_decode_assertion(a: Seq<u8>, key: Seq<u8>) -> Option<SpecClaims> {
    let d1 = find_byte(a, 46, 0);
    if d1 >= a.len() {
        None
    } else {
        let d2 = find_byte(a, 46, d1 + 1);
        if d2 >= a.len() {
            None
        } else {
            let msg = a.subrange(0, d2);
            let sig = a.subrange(d2 + 1, a.len() as int);
            if sig != hs256_sig(msg, key) {
                None
            } else {
                match crate::b64url::b64url_decode(a.subrange(d1 + 1, d2)) {
                    None => None,
                    Some(cb) => match spec_parse_claims(cb) {
                        None => None,
                        Some(c) => if valid_utf8(c.email) {
                            Some(c)
                        } else {
                            None
                        },
                    },
                }
            }
        }
    }
}

/// The byte an assertion built from claims `c` and signature segment
/// `tail` holds at position `k`.
spec fn assertion_byte_at(c: SpecClaims, tail: Seq<u8>, k: int) -> u8 {
    let h = b64url_encode(header_bytes());
    let cl = b64url_encode(claims_json(c));
    let hn = h.len() as int;
    let cn = cl.len() as int;
    if k < hn {
        h[k]
    } else if k == hn {
        46u8
    } else if k < hn + 1 + cn {
        cl[k - hn - 1]
    } else if k == hn + 1 + cn {
        46u8
    } else {
        tail[k - hn - 2 - cn]
    }
}

/// Where each byte of an assertion-shaped byte string comes from.
proof fn lemma_assertion_index(c: SpecClaims, a: Seq<u8>, tail: Seq<u8>)
    requires
        a == signing_input(c) + seq![46u8] + tail,
    ensures
        a.len() == b64url_encode(header_bytes()).len() + 2 + b64url_encode(claims_json(c)).len()
            + tail.len(),
        forall|k: int| 0 <= k < a.len() ==> a[k] == #[trigger] assertion_byte_at(c, tail, k),
{
    let h = b64url_encode(header_bytes());
    let cl = b64url_encode(claims_json(c));
    let hn = h.len() as int;
    let cn = cl.len() as int;
    let si = signing_input(c);
    assert(si.len() == hn + 1 + cn);
    assert forall|k: int| 0 <= k < a.len() implies a[k] == #[trigger] assertion_byte_at(
        c,
        tail,
        k,
    ) by {
        if k < hn + 1 + cn {
            assert(a[k] == si[k]);
        }
    }
}

/// How an assertion-shaped byte string splits: the first dot ends the
/// header segment, the second ends the claims segment, whatever the tail is.
#[verifier::rlimit(100)]
pub proof fn lemma_assertion_split(c: SpecClaims, a: Seq<u8>, tail: Seq<u8>)
    requires
        a == signing_input(c) + seq![46u8] + tail,
    ensures
        ({
            let hn = b64url_encode(header_bytes()).len() as int;
            let cn = b64url_encode(claims_json(c)).len() as int;
            &&& find_byte(a, 46, 0) == hn
            &&& find_byte(a, 46, hn + 1) == hn + 1 + cn
            &&& a.subrange(0, hn + 1 + cn) == signing_input(c)
            &&& a.subrange(hn + 1, hn + 1 + cn) == b64url_encode(claims_json(c))
            &&& a.subrange(hn + 2 + cn, a.len() as int) == tail
            &&& a.len() == hn + 2 + cn + tail.len()
        }),
{
    let h = b64url_encode(header_bytes());
    let cl = b64url_encode(claims_json(c));
    let hn = h.len() as int;
    let cn = cl.len() as int;
    lemma_assertion_index(c, a, tail);
    lemma_b64url_encode_ascii(header_bytes());
    lemma_b64url_encode_ascii(claims_json(c));
    assert(a[hn] == 46);
    lemma_find_byte_at(a, 46, 0, hn);
    assert(a[hn + 1 + cn] == 46);
    lemma_find_byte_at(a, 46, hn + 1, hn + 1 + cn);
    assert forall|k: int| 0 <= k < hn + 1 + cn implies a.subrange(0, hn + 1 + cn)[k]
        == signing_input(c)[k] by {
        if k < hn {
            assert(signing_input(c)[k] == h[k]);
        } else if k > hn {
            assert(signing_input(c)[k] == cl[k - hn - 1]);
        }
    }
    assert(a.subrange(0, hn + 1 + cn) =~= signing_input(c));
    assert(a.subrange(hn + 1, hn + 1 + cn) =~= cl);
    assert(a.subrange(hn + 2 + cn, a.len() as int) =~= tail);
}

/// Decoding recovers the claims of a well-formed assertion.
#[verifier::rlimit(100)]
pub proof fn lemma_decode_assertion_round(c: SpecClaims, key: Seq<u8>)
    requires
        wf_claims(c),
        valid_utf8(c.email),
    ensures
        spec_decode_assertion(assertion_bytes(c, key), key) == Some(c),
{
    let a = assertion_bytes(c, key);
    let tail = hs256_sig(signing_input(c), key);
    lemma_assertion_split(c, a, tail);
    let hn = b64url_encode(header_bytes()).len() as int;
    let cn = b64url_encode(claims_json(c)).len() as int;
    let d1 = find_byte(a, 46, 0);
    let d2 = find_byte(a, 46, d1 + 1);
    assert(d1 == hn && d2 == hn + 1 + cn);
    assert(d1 < a.len() && d2 < a.len());
    assert(a.subrange(0, d2) == signing_input(c));
    assert(a.subrange(d2 + 1, a.len() as int) == hs256_sig(a.subrange(0, d2), key));
    lemma_b64url_round_trip(claims_json(c));
    assert(crate::b64url::b64url_decode(a.subrange(d1 + 1, d2)) == Some(claims_json(c)));
    lemma_claims_round_trip(c);
}

/// Any assertion whose signature segment is not the signature of its first
/// two segments is rejected, whatever else it holds.
pub proof fn lemma_decode_assertion_tampered(c: SpecClaims, key: Seq<u8>, tail: Seq<u8>)
    requires
        tail != hs256_sig(signing_input(c), key),
    ensures
        spec_decode_assertion(signing_input(c) + seq![46u8] + tail, key) is None,
{
    let a = signing_input(c) + seq![46u8] + tail;
    lemma_assertion_split(c, a, tail);
}

} // verus!
