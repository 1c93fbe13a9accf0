//! Credential and session-token core: password hashing and verification,
//! issuance of signed, time-bounded assertions backed by server-stored
//! revocable session tokens, verification of such assertions, and audit
//! logging of authentication attempts.
//!
//! The orchestrator lives in [`auth`], over the keyed-record store in
//! [`store`] and the configuration in [`config`]. The assertion format is
//! built from the codecs in [`b64url`] and [`claims`] and the trusted
//! crypto calls in [`token`]; [`password`] wraps the keyed password hash.
//! [`models`] holds the request and response bodies of the HTTP surface,
//! which itself stays outside the library.

pub mod auth;
pub mod b64url;
pub mod bytesutil;
pub mod claims;
pub mod config;
pub mod models;
pub mod password;
pub mod store;
pub mod text;
pub mod token;
