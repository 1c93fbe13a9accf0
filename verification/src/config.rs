//! Process-wide configuration, constructed once at startup and passed into
//! the orchestrator; a missing or out-of-range entry is fatal at startup,
//! never a per-request error.

use vstd::prelude::*;

verus! {

/// Reference TTL of a session token, in seconds (one hour).
pub const DEFAULT_TTL_SECONDS: i64 = 3600;

/// Reference clock-skew leeway for expiry checks, in seconds.
pub const DEFAULT_LEEWAY_SECONDS: i64 = 60;

/// Reference work factor for password hashing.
pub const DEFAULT_BCRYPT_COST: u32 = 12;

/// A configuration entry is absent or out of range.
#[derive(Debug, PartialEq, Eq, Structural)]
pub enum ConfigError {
    EmptyPepper,
    EmptySigningSecret,
    InvalidCost,
    InvalidTtl,
    InvalidLeeway,
}

/// Server-wide secrets and tunables of the credential subsystem.
pub struct Config {
    /// Server-wide secret mixed into every password hash.
    pub pepper: Vec<u8>,
    /// Server-wide key that signs assertions.
    pub signing_secret: Vec<u8>,
    /// Work factor of the password hash.
    pub bcrypt_cost: u32,
    /// Seconds from issuance to expiry of a session token.
    pub ttl_seconds: i64,
    /// Permitted clock skew when checking expiry, in seconds.
    pub leeway_seconds: i64,
}

impl Config {
    /// Secrets present, cost in the range the hash accepts, and sane
    /// bounded time parameters.
    pub open spec fn wf(self) -> bool {
        &&& self.pepper@.len() > 0
        &&& self.signing_secret@.len() > 0
        &&& 4 <= self.bcrypt_cost <= 31
        &&& 0 < self.ttl_seconds <= 31_622_400
        &&& 0 <= self.leeway_seconds <= 86_400
    }

    /// Validates the configuration; errors are startup-fatal.
    pub fn new(
        pepper: Vec<u8>,
        signing_secret: Vec<u8>,
        bcrypt_cost: u32,
        ttl_seconds: i64,
        leeway_seconds: i64,
    ) -> (r: Result<Config, ConfigError>)
        ensures
            match r {
                Ok(c) => {
                    &&& c.wf()
                    &&& c.pepper@ == pepper@
                    &&& c.signing_secret@ == signing_secret@
                    &&& c.bcrypt_cost == bcrypt_cost
                    &&& c.ttl_seconds == ttl_seconds
                    &&& c.leeway_seconds == leeway_seconds
                },
                Err(ConfigError::EmptyPepper) => pepper@.len() == 0,
                Err(ConfigError::EmptySigningSecret) => pepper@.len() > 0
                    && signing_secret@.len() == 0,
                Err(ConfigError::InvalidCost) => !(4 <= bcrypt_cost <= 31),
                Err(ConfigError::InvalidTtl) => !(0 < ttl_seconds <= 31_622_400),
                Err(ConfigError::InvalidLeeway) => !(0 <= leeway_seconds <= 86_400),
            },
    {
        if pepper.len() == 0 {
            return Err(ConfigError::EmptyPepper);
        }
        if signing_secret.len() == 0 {
            return Err(ConfigError::EmptySigningSecret);
        }
        if !(4 <= bcrypt_cost && bcrypt_cost <= 31) {
            return Err(ConfigError::InvalidCost);
        }
        if !(0 < ttl_seconds && ttl_seconds <= 31_622_400) {
            return Err(ConfigError::InvalidTtl);
        }
        if !(0 <= leeway_seconds && leeway_seconds <= 86_400) {
            return Err(ConfigError::InvalidLeeway);
        }
        Ok(Config { pepper, signing_secret, bcrypt_cost, ttl_seconds, leeway_seconds })
    }
}

} // verus!
