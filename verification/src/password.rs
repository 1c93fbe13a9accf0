//! Password codec: one-way hashing and constant-time verification of user
//! passwords, keyed by a server-wide pepper and a tunable work factor.

use vstd::prelude::*;

verus! {

/// Whether easy_password's keyed bcrypt check accepts `password` against
/// `hash` under `pepper`: the value of `verify_password` with a malformed
/// hash counted as a mismatch. A function of the three values alone.
pub uninterp spec fn bcrypt_verifies(password: Seq<char>, hash: Seq<char>, pepper: Seq<u8>) -> bool;

/// Failure of the password codec.
#[derive(Debug, PartialEq, Eq, Structural)]
pub enum PasswordError {
    /// The server pepper is absent or empty; fatal at startup.
    EmptyPepper,
    /// The work factor is outside the range the hash accepts (4 to 31).
    CostNotAllowed,
    /// The underlying hash reported a failure (for example, its random salt
    /// could not be drawn).
    HashingFailed,
}

/// Relies on easy_password::bcrypt::hash_password: with a work factor in
/// 4..=31 it returns a hash that verify_password accepts for the same
/// password and key.
#[verifier::external_body]
fn bcrypt_hash(password: &str, pepper: &[u8], cost: u32) -> (r: Option<String>)
    requires
        4 <= cost <= 31,
    ensures
        r matches Some(h) ==> bcrypt_verifies(password@, h@, pepper@),
{
    match easy_password::bcrypt::hash_password(password, pepper, cost) {
        Ok(h) => Some(h),
        Err(_) => None,
    }
}

/// Relies on easy_password::bcrypt::verify_password: its outcome is a
/// function of password, hash and key; it errs only on a malformed stored
/// hash, which counts as a mismatch here, not a crash.
#[verifier::external_body]
fn bcrypt_check(password: &str, hash: &str, pepper: &[u8]) -> (r: bool)
    ensures
        r == bcrypt_verifies(password@, hash@, pepper@),
{
    easy_password::bcrypt::verify_password(password, hash, pepper).unwrap_or(false)
}

/// Hashes a password under the server pepper. An empty pepper is refused;
/// so is a work factor outside 4..=31.
pub fn hash_password(password: &str, pepper: &[u8], cost: u32) -> (r: Result<String, PasswordError>)
    ensures
        match r {
            Ok(h) => pepper@.len() > 0 && 4 <= cost <= 31 && bcrypt_verifies(
                password@,
                h@,
                pepper@,
            ),
            Err(PasswordError::EmptyPepper) => pepper@.len() == 0,
            Err(PasswordError::CostNotAllowed) => pepper@.len() > 0 && !(4 <= cost <= 31),
            Err(PasswordError::HashingFailed) => pepper@.len() > 0 && 4 <= cost <= 31,
        },
{
    if pepper.len() == 0 {
        return Err(PasswordError::EmptyPepper);
    }
    if cost < 4 || cost > 31 {
        return Err(PasswordError::CostNotAllowed);
    }
    match bcrypt_hash(password, pepper, cost) {
        Some(h) => Ok(h),
        None => Err(PasswordError::HashingFailed),
    }
}

/// Verifies a password against a stored hash under the server pepper; a
/// malformed stored hash is a mismatch, never a crash.
pub fn verify_password(password: &str, hash: &str, pepper: &[u8]) -> (r: bool)
    ensures
        r == bcrypt_verifies(password@, hash@, pepper@),
{
    bcrypt_check(password, hash, pepper)
}

} // verus!
