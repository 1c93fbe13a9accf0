//! Authentication orchestrator: registration, login and assertion
//! verification, with one audit record written for every login attempt
//! before its outcome is returned.

use vstd::prelude::*;

use crate::claims::{AuthTokenClaims, SpecClaims};
use crate::config::Config;
use crate::password::{bcrypt_verifies, hash_password, verify_password};
use crate::store::{
    token_by_id, user_by_email, AuthLog, CreateAuthLogError, CreateAuthTokenError, CreateUserError,
    CredentialStore, GetUserError, NewAuthLog, NewAuthToken, NewUser, SpecAuthLog, SpecStore,
    StoreFailure, User, STORE_CAPACITY,
};
use crate::store::{lemma_token_by_id, lemma_user_by_email};
use crate::token::{
    assertion_bytes, b64_of, b64_std_encode, current_unix_time, encode_assertion, find_byte_in,
    hs256_sign, lemma_decode_assertion_round, lemma_decode_assertion_tampered, random_secret,
    signing_input, spec_decode_assertion,
};
use crate::bytesutil::bytes_eq;
use crate::claims::{parse_claims, wf_claims};
use crate::b64url::base64url_decode;
use crate::text::utf8_to_string;
use vstd::slice::slice_subrange;
use vstd::utf8::{encode_utf8, encode_utf8_valid_utf8, valid_utf8};

verus! {

/// Why a login failed. The boundary reports the first two as one
/// undifferentiated unauthorized outcome, to avoid user enumeration.
#[derive(Debug, PartialEq, Eq, Structural)]
pub enum LoginError {
    UserNotFound,
    WrongPassword,
    OtherDbError(StoreFailure),
}

/// Why an assertion was rejected; distinguished internally, reported as one
/// unauthorized outcome at the boundary.
#[derive(Debug, PartialEq, Eq, Structural)]
pub enum VerifyTokenError {
    /// Structural decode failure or signature mismatch.
    SignatureError,
    /// The assertion's expiry has passed by more than the leeway.
    ExpiredError,
    /// No live persisted session token with the claimed identifier.
    NotFound,
    /// The claimed owner differs from the persisted record's owner.
    UserMismatch,
    /// The claimed secret differs from the persisted secret.
    TokenMismatch,
}

/// Exactly one audit record was appended: the attempted email, the outcome,
/// caller address and agent, and the time.
pub open spec fn logged_attempt(
    pre: SpecStore,
    post: SpecStore,
    email: Seq<char>,
    ip: Seq<char>,
    ua: Seq<char>,
    success: bool,
    now: int,
) -> bool {
    post.auth_log == pre.auth_log.push(
        SpecAuthLog {
            id: pre.auth_log.len() as int + 1,
            email: email,
            success: success,
            ip_address: ip,
            user_agent: ua,
            date_created: now,
        },
    )
}

/// What registration guarantees, for each outcome.
pub open spec fn create_user_post(
    pre: SpecStore,
    post: SpecStore,
    pepper: Seq<u8>,
    email: Seq<char>,
    password: Seq<char>,
    now: int,
    r: Result<User, CreateUserError>,
) -> bool {
    &&& post.tokens == pre.tokens
    &&& post.auth_log == pre.auth_log
    &&& post.next_token_id == pre.next_token_id
    &&& match r {
        Ok(u) => {
            &&& !pre.has_email(email)
            &&& pre.users.len() < STORE_CAPACITY
            &&& post.users == pre.users.push(u@)
            &&& u@.id == pre.users.len() + 1
            &&& u@.email == email
            &&& u@.date_created == now
            &&& u@.date_modified == now
            &&& bcrypt_verifies(password, u@.password, pepper)
        },
        Err(CreateUserError::EmailExists) => pre.has_email(email) && post == pre,
        Err(CreateUserError::OtherDbError(_)) => !pre.has_email(email) && post == pre,
    }
}

/// What login guarantees, for each outcome; the audit write comes first and
/// happens exactly once, except when that write itself is what failed.
pub open spec fn login_post(
    pre: SpecStore,
    post: SpecStore,
    pepper: Seq<u8>,
    key: Seq<u8>,
    ttl: int,
    email: Seq<char>,
    password: Seq<char>,
    ip: Seq<char>,
    ua: Seq<char>,
    now: int,
    r: Result<String, LoginError>,
) -> bool {
    &&& post.users == pre.users
    &&& match r {
        Ok(a) => {
            let u = user_by_email(pre.users, email).unwrap();
            let tk = post.tokens.last();
            &&& pre.has_email(email)
            &&& bcrypt_verifies(password, u.password, pepper)
            &&& logged_attempt(pre, post, email, ip, ua, true, now)
            &&& post.tokens == pre.tokens.push(tk)
            &&& post.next_token_id == pre.next_token_id + 1
            &&& tk.id == pre.next_token_id
            &&& tk.user_id == u.id
            &&& tk.token.len() == 16
            &&& tk.date_created == now
            &&& tk.date_expired == now + ttl
            &&& tk.token_type == "authentication"@
            &&& encode_utf8(a@) == assertion_bytes(
                SpecClaims {
                    token_id: tk.id,
                    user_id: u.id,
                    email: encode_utf8(email),
                    token: b64_of(tk.token),
                    exp: tk.date_expired,
                },
                key,
            )
        },
        Err(LoginError::UserNotFound) => {
            &&& !pre.has_email(email)
            &&& logged_attempt(pre, post, email, ip, ua, false, now)
            &&& post.tokens == pre.tokens
            &&& post.next_token_id == pre.next_token_id
        },
        Err(LoginError::WrongPassword) => {
            &&& pre.has_email(email)
            &&& !bcrypt_verifies(password, user_by_email(pre.users, email).unwrap().password, pepper)
            &&& logged_attempt(pre, post, email, ip, ua, false, now)
            &&& post.tokens == pre.tokens
            &&& post.next_token_id == pre.next_token_id
        },
        Err(LoginError::OtherDbError(_)) => {
            &&& post.tokens == pre.tokens
            &&& post.next_token_id == pre.next_token_id
            &&& (post.auth_log == pre.auth_log || logged_attempt(
                pre,
                post,
                email,
                ip,
                ua,
                pre.has_email(email) && bcrypt_verifies(
                    password,
                    user_by_email(pre.users, email).unwrap().password,
                    pepper,
                ),
                now,
            ))
            &&& (pre.auth_log.len() >= STORE_CAPACITY || pre.next_token_id == i64::MAX || now + ttl
                > i64::MAX)
        },
    }
    &&& (pre.has_email(email) && bcrypt_verifies(
        password,
        user_by_email(pre.users, email).unwrap().password,
        pepper,
    ) && pre.auth_log.len() < STORE_CAPACITY && pre.next_token_id < i64::MAX && now + ttl
        <= i64::MAX) ==> r is Ok
}

/// Verification of a claim set against the store: expiry first, then the
/// persisted record by the claimed identifier, then owner, then secret.
pub open spec fn spec_verify_claims(
    store: SpecStore,
    leeway: int,
    c: SpecClaims,
    now: int,
) -> Result<(int, Seq<u8>), VerifyTokenError> {
    if now - leeway > c.exp {
        Err(VerifyTokenError::ExpiredError)
    } else {
        match token_by_id(store.tokens, c.token_id) {
            None => Err(VerifyTokenError::NotFound),
            Some(t) => if now - leeway > t.date_expired {
                Err(VerifyTokenError::NotFound)
            } else if c.user_id != t.user_id {
                Err(VerifyTokenError::UserMismatch)
            } else if c.token != b64_of(t.token) {
                Err(VerifyTokenError::TokenMismatch)
            } else {
                Ok((c.user_id, c.email))
            },
        }
    }
}

/// The whole verification of an assertion's bytes: signature and structure,
/// then the claim checks.
pub open spec fn spec_verify_token(
    store: SpecStore,
    key: Seq<u8>,
    leeway: int,
    a: Seq<u8>,
    now: int,
) -> Result<(int, Seq<u8>), VerifyTokenError> {
    match spec_decode_assertion(a, key) {
        None => Err(VerifyTokenError::SignatureError),
        Some(c) => spec_verify_claims(store, leeway, c, now),
    }
}

/// What verification returns, phrased against the spec-level pipeline.
pub open spec fn verify_token_post(
    store: SpecStore,
    key: Seq<u8>,
    leeway: int,
    token: Seq<char>,
    now: int,
    r: Result<(i64, String), VerifyTokenError>,
) -> bool {
    let sv = spec_verify_token(store, key, leeway, encode_utf8(token), now);
    match r {
        Ok(p) => sv == Ok::<(int, Seq<u8>), VerifyTokenError>((p.0 as int, encode_utf8(p.1@))),
        Err(e) => sv == Err::<(int, Seq<u8>), VerifyTokenError>(e),
    }
}

/// Registers a user: refuse a duplicate email, hash the password under the
/// server pepper, insert the record.
pub fn create_user_at(
    store: &mut CredentialStore,
    config: &Config,
    email: &str,
    password: &str,
    now: i64,
) -> (r: Result<User, CreateUserError>)
    requires
        old(store)@.wf(),
        config.wf(),
    ensures
        final(store)@.wf(),
        create_user_post(
            old(store)@,
            final(store)@,
            config.pepper@,
            email@,
            password@,
            now as int,
            r,
        ),
{
    match store.get_user_by_email(email) {
        Ok(_) => {
            proof {
                lemma_user_by_email(store@.users, email@);
            }
            Err(CreateUserError::EmailExists)
        },
        Err(GetUserError::OtherDbError(e)) => Err(CreateUserError::OtherDbError(e)),
        Err(GetUserError::UserNotFound) => {
            let hashed = match hash_password(password, config.pepper.as_slice(), config.bcrypt_cost)
                {
                Ok(h) => h,
                Err(_) => {
                    return Err(CreateUserError::OtherDbError(StoreFailure::HashingFailed));
                },
            };
            let new_user = NewUser { email, password: hashed.as_str() };
            store.create_user(&new_user, now)
        },
    }
}

/// Registers a user at the current time.
pub fn create_user(store: &mut CredentialStore, config: &Config, email: &str, password: &str) -> (r:
    Result<User, CreateUserError>)
    requires
        old(store)@.wf(),
        config.wf(),
    ensures
        final(store)@.wf(),
        exists|at: int|
            create_user_post(
                old(store)@,
                final(store)@,
                config.pepper@,
                email@,
                password@,
                at,
                r,
            ),
{
    let now = current_unix_time();
    let r = create_user_at(store, config, email, password, now);
    proof {
        assert(create_user_post(
            old(store)@,
            store@,
            config.pepper@,
            email@,
            password@,
            now as int,
            r,
        ));
    }
    r
}

/// Appends one audit record for a login attempt.
fn log_auth_attempt(
    store: &mut CredentialStore,
    email: &str,
    ip_address: &str,
    user_agent: &str,
    success: bool,
    now: i64,
) -> (r: Result<AuthLog, CreateAuthLogError>)
    requires
        old(store)@.wf(),
    ensures
        final(store)@.wf(),
        final(store)@.users == old(store)@.users,
        final(store)@.tokens == old(store)@.tokens,
        final(store)@.next_token_id == old(store)@.next_token_id,
        match r {
            Ok(_) => logged_attempt(
                old(store)@,
                final(store)@,
                email@,
                ip_address@,
                user_agent@,
                success,
                now as int,
            ),
            Err(CreateAuthLogError::OtherDbError(_)) => old(store)@.auth_log.len()
                >= STORE_CAPACITY && final(store)@ == old(store)@,
        },
{
    let entry = NewAuthLog { email, success, ip_address, user_agent, date_created: now };
    store.create_auth_log(&entry)
}

/// Authenticates by email and password; writes exactly one audit record for
/// the attempt before returning, and on success mints a session token and
/// returns its signed assertion.
pub fn login_at(
    store: &mut CredentialStore,
    config: &Config,
    email: &str,
    password: &str,
    ip_address: &str,
    user_agent: &str,
    now: i64,
) -> (r: Result<String, LoginError>)
    requires
        old(store)@.wf(),
        config.wf(),
        now >= 0,
    ensures
        final(store)@.wf(),
        login_post(
            old(store)@,
            final(store)@,
            config.pepper@,
            config.signing_secret@,
            config.ttl_seconds as int,
            email@,
            password@,
            ip_address@,
            user_agent@,
            now as int,
            r,
        ),
{
    proof {
        lemma_user_by_email(old(store)@.users, email@);
    }
    let user = match store.get_user_by_email(email) {
        Ok(u) => u,
        Err(err) => {
            match log_auth_attempt(store, email, ip_address, user_agent, false, now) {
                Ok(_) => (),
                Err(CreateAuthLogError::OtherDbError(e)) => {
                    return Err(LoginError::OtherDbError(e));
                },
            }
            match err {
                GetUserError::UserNotFound => {
                    return Err(LoginError::UserNotFound);
                },
                GetUserError::OtherDbError(e) => {
                    return Err(LoginError::OtherDbError(e));
                },
            }
        },
    };
    let password_valid = verify_password(password, user.password.as_str(), config.pepper.as_slice());
    match log_auth_attempt(store, email, ip_address, user_agent, password_valid, now) {
        Ok(_) => (),
        Err(CreateAuthLogError::OtherDbError(e)) => {
            return Err(LoginError::OtherDbError(e));
        },
    }
    if !password_valid {
        return Err(LoginError::WrongPassword);
    }
    let expiry = match now.checked_add(config.ttl_seconds) {
        Some(e) => e,
        None => {
            return Err(LoginError::OtherDbError(StoreFailure::ClockRangeExceeded));
        },
    };
    let secret = random_secret();
    let new_token = NewAuthToken {
        user_id: user.id,
        token: secret,
        date_created: now,
        date_expired: expiry,
        token_type: "authentication",
    };
    let tok = match store.create_token(&new_token) {
        Ok(t) => t,
        Err(CreateAuthTokenError::OtherDbError(e)) => {
            return Err(LoginError::OtherDbError(e));
        },
    };
    proof {
        let i = choose|i: int|
            0 <= i < old(store)@.users.len() && #[trigger] old(store)@.users[i] == user_by_email(
                old(store)@.users,
                email@,
            ).unwrap() && old(store)@.users[i].email == email@;
        assert(user@.id == i + 1);
    }
    let claims = AuthTokenClaims {
        token_id: tok.id,
        user_id: user.id,
        email: email.as_bytes_vec(),
        token: b64_std_encode(tok.token.as_slice()),
        exp: expiry,
    };
    let assertion = encode_assertion(&claims, config.signing_secret.as_slice());
    Ok(assertion)
}

/// Authenticates at the current time.
pub fn login(
    store: &mut CredentialStore,
    config: &Config,
    email: &str,
    password: &str,
    ip_address: &str,
    user_agent: &str,
) -> (r: Result<String, LoginError>)
    requires
        old(store)@.wf(),
        config.wf(),
    ensures
        final(store)@.wf(),
        exists|at: int|
            login_post(
                old(store)@,
                final(store)@,
                config.pepper@,
                config.signing_secret@,
                config.ttl_seconds as int,
                email@,
                password@,
                ip_address@,
                user_agent@,
                at,
                r,
            ),
{
    let raw = current_unix_time();
    let now: i64 = if raw < 0 {
        0
    } else {
        raw
    };
    let r = login_at(store, config, email, password, ip_address, user_agent, now);
    proof {
        assert(login_post(
            old(store)@,
            store@,
            config.pepper@,
            config.signing_secret@,
            config.ttl_seconds as int,
            email@,
            password@,
            ip_address@,
            user_agent@,
            now as int,
            r,
        ));
    }
    r
}

/// Verifies a caller-supplied assertion: signature and structure, expiry
/// with leeway, then the persisted session token fetched by the claimed
/// identifier and cross-checked field by field. A pure read path.
pub fn verify_token_at(
    store: &CredentialStore,
    config: &Config,
    token: &str,
    now: i64,
) -> (r: Result<(i64, String), VerifyTokenError>)
    requires
        config.wf(),
        now >= 0,
    ensures
        verify_token_post(
            store@,
            config.signing_secret@,
            config.leeway_seconds as int,
            token@,
            now as int,
            r,
        ),
{
    let abytes = token.as_bytes_vec();
    let a = abytes.as_slice();
    let ghost aseq = a@;
    let n = a.len();
    let d1 = find_byte_in(a, 46, 0);
    if d1 == n {
        return Err(VerifyTokenError::SignatureError);
    }
    let d2 = find_byte_in(a, 46, d1 + 1);
    if d2 == n {
        return Err(VerifyTokenError::SignatureError);
    }
    let msg = slice_subrange(a, 0, d2);
    let sig = slice_subrange(a, d2 + 1, n);
    let expected = hs256_sign(msg, config.signing_secret.as_slice());
    if !bytes_eq(sig, expected.as_slice()) {
        return Err(VerifyTokenError::SignatureError);
    }
    let cseg = slice_subrange(a, d1 + 1, d2);
    let cb = match base64url_decode(cseg) {
        Some(v) => v,
        None => {
            return Err(VerifyTokenError::SignatureError);
        },
    };
    let parsed = match parse_claims(cb.as_slice()) {
        Some(c) => c,
        None => {
            return Err(VerifyTokenError::SignatureError);
        },
    };
    let ghost cspec = parsed@;
    let AuthTokenClaims { token_id, user_id, email, token: claimed_secret, exp } = parsed;
    let em = match utf8_to_string(email) {
        Some(s) => s,
        None => {
            return Err(VerifyTokenError::SignatureError);
        },
    };
    proof {
        assert(spec_decode_assertion(aseq, config.signing_secret@) == Some(cspec));
    }
    if now - config.leeway_seconds > exp {
        return Err(VerifyTokenError::ExpiredError);
    }
    let t = match store.get_auth_token(token_id) {
        Ok(t) => t,
        Err(_) => {
            return Err(VerifyTokenError::NotFound);
        },
    };
    if now - config.leeway_seconds > t.date_expired {
        return Err(VerifyTokenError::NotFound);
    }
    if user_id != t.user_id {
        return Err(VerifyTokenError::UserMismatch);
    }
    let enc = b64_std_encode(t.token.as_slice());
    if !bytes_eq(claimed_secret.as_slice(), enc.as_slice()) {
        return Err(VerifyTokenError::TokenMismatch);
    }
    proof {
        assert(encode_utf8(em@) == cspec.email) by {
            vstd::utf8::decode_utf8_encode_utf8(cspec.email);
        }
    }
    Ok((user_id, em))
}

/// Verifies an assertion at the current time.
pub fn verify_token(store: &CredentialStore, config: &Config, token: &str) -> (r: Result<
    (i64, String),
    VerifyTokenError,
>)
    requires
        config.wf(),
    ensures
        exists|at: int|
            verify_token_post(
                store@,
                config.signing_secret@,
                config.leeway_seconds as int,
                token@,
                at,
                r,
            ),
{
    let raw = current_unix_time();
    let now: i64 = if raw < 0 {
        0
    } else {
        raw
    };
    let r = verify_token_at(store, config, token, now);
    proof {
        assert(verify_token_post(
            store@,
            config.signing_secret@,
            config.leeway_seconds as int,
            token@,
            now as int,
            r,
        ));
    }
    r
}

// ---------------------------------------------------------------------------
// Laws of the subsystem.
// ---------------------------------------------------------------------------

/// Registration uniqueness: once a registration for an email has succeeded,
/// a second registration with the same email reports the duplicate and
/// leaves the store unchanged, whatever password or time it used.
pub proof fn lemma_registration_unique(
    pre: SpecStore,
    mid: SpecStore,
    post: SpecStore,
    pepper: Seq<u8>,
    email: Seq<char>,
    pw1: Seq<char>,
    pw2: Seq<char>,
    t1: int,
    t2: int,
    r1: Result<User, CreateUserError>,
    r2: Result<User, CreateUserError>,
)
    requires
        create_user_post(pre, mid, pepper, email, pw1, t1, r1),
        create_user_post(mid, post, pepper, email, pw2, t2, r2),
        r1 is Ok,
    ensures
        r2 matches Err(CreateUserError::EmailExists),
        post == mid,
{
    let u = r1.unwrap();
    lemma_user_by_email(mid.users, email);
    assert(mid.users[mid.users.len() - 1].email == email);
}

/// Login audit invariant: every login call that did not itself fail on the
/// audit write appends exactly one audit record, whose outcome flag matches
/// the result the caller was given.
pub proof fn lemma_login_audits_once(
    pre: SpecStore,
    post: SpecStore,
    pepper: Seq<u8>,
    key: Seq<u8>,
    ttl: int,
    email: Seq<char>,
    password: Seq<char>,
    ip: Seq<char>,
    ua: Seq<char>,
    now: int,
    r: Result<String, LoginError>,
)
    requires
        login_post(pre, post, pepper, key, ttl, email, password, ip, ua, now, r),
        !(r matches Err(LoginError::OtherDbError(_))),
    ensures
        logged_attempt(pre, post, email, ip, ua, r is Ok, now),
        post.auth_log.len() == pre.auth_log.len() + 1,
        post.auth_log.last().success == (r is Ok),
{
}

/// Issuance-then-verification round trip: the assertion a successful login
/// returned verifies, against the store that login left behind, to the
/// owning user's identifier and email, at any time within its expiry.
pub proof fn lemma_login_then_verify(
    pre: SpecStore,
    post: SpecStore,
    pepper: Seq<u8>,
    key: Seq<u8>,
    ttl: int,
    leeway: int,
    email: Seq<char>,
    password: Seq<char>,
    ip: Seq<char>,
    ua: Seq<char>,
    now: int,
    vnow: int,
    r: Result<String, LoginError>,
)
    requires
        pre.wf(),
        post.wf(),
        login_post(pre, post, pepper, key, ttl, email, password, ip, ua, now, r),
        r is Ok,
        0 <= now,
        0 < ttl,
        now + ttl <= i64::MAX,
        0 <= leeway,
        vnow - leeway <= now + ttl,
    ensures
        spec_verify_token(post, key, leeway, encode_utf8(r.unwrap()@), vnow) == Ok::<
            (int, Seq<u8>),
            VerifyTokenError,
        >((user_by_email(pre.users, email).unwrap().id, encode_utf8(email))),
{
    let u = user_by_email(pre.users, email).unwrap();
    let tk = post.tokens.last();
    let c = SpecClaims {
        token_id: tk.id,
        user_id: u.id,
        email: encode_utf8(email),
        token: b64_of(tk.token),
        exp: tk.date_expired,
    };
    let last = post.tokens.len() - 1;
    assert(post.tokens[last] == tk);
    assert(1 <= tk.id <= i64::MAX);
    lemma_user_by_email(pre.users, email);
    let i = choose|i: int|
        0 <= i < pre.users.len() && #[trigger] pre.users[i] == u && pre.users[i].email == email;
    assert(u.id == i + 1);
    assert(wf_claims(c));
    encode_utf8_valid_utf8(email);
    lemma_decode_assertion_round(c, key);
    assert(spec_decode_assertion(encode_utf8(r.unwrap()@), key) == Some(c));
    lemma_token_by_id(post.tokens, tk.id);
    let j = choose|j: int|
        0 <= j < post.tokens.len() && #[trigger] post.tokens[j] == token_by_id(
            post.tokens,
            tk.id,
        ).unwrap() && post.tokens[j].id == tk.id;
    assert(j == last);
    assert(token_by_id(post.tokens, tk.id) == Some(tk));
}

/// Tamper detection: an assertion whose signature segment is anything other
/// than the signature of its header and claims segments is rejected as a
/// signature failure, whatever the store holds and whatever the time is.
pub proof fn lemma_tampered_signature(
    store: SpecStore,
    key: Seq<u8>,
    leeway: int,
    c: SpecClaims,
    sig2: Seq<u8>,
    now: int,
)
    requires
        sig2 != crate::token::hs256_sig(signing_input(c), key),
    ensures
        spec_verify_token(store, key, leeway, signing_input(c) + seq![46u8] + sig2, now) == Err::<
            (int, Seq<u8>),
            VerifyTokenError,
        >(VerifyTokenError::SignatureError),
{
    lemma_decode_assertion_tampered(c, key, sig2);
}

/// Expiry enforcement: a well-formed assertion whose expiry has passed by
/// more than the leeway is rejected as expired, whatever the store holds.
pub proof fn lemma_expired_assertion(
    store: SpecStore,
    key: Seq<u8>,
    leeway: int,
    c: SpecClaims,
    now: int,
)
    requires
        wf_claims(c),
        valid_utf8(c.email),
        now - leeway > c.exp,
    ensures
        spec_verify_token(store, key, leeway, assertion_bytes(c, key), now) == Err::<
            (int, Seq<u8>),
            VerifyTokenError,
        >(VerifyTokenError::ExpiredError),
{
    lemma_decode_assertion_round(c, key);
}

/// Revocation: once the persisted session token named by an assertion is
/// gone from the store, the still-cryptographically-valid assertion is
/// rejected, never accepted.
pub proof fn lemma_revoked_token(
    store: SpecStore,
    key: Seq<u8>,
    leeway: int,
    c: SpecClaims,
    now: int,
)
    requires
        wf_claims(c),
        valid_utf8(c.email),
        token_by_id(store.tokens, c.token_id) is None,
        now - leeway <= c.exp,
    ensures
        spec_verify_token(store, key, leeway, assertion_bytes(c, key), now) == Err::<
            (int, Seq<u8>),
            VerifyTokenError,
        >(VerifyTokenError::NotFound),
{
    lemma_decode_assertion_round(c, key);
}

} // verus!
