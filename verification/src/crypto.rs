//! Trusted boundary around the credential and token primitives: password
//! hashing and verification, salt generation, and base64 text encoding.
//!
//! Each wrapper names an outside function and states only what that
//! function's source and documentation show. The hash and the encoding are
//! deterministic functions of their arguments, so their results are given
//! uninterpreted names that the rest of the library reasons with; of the
//! random bytes nothing is claimed beyond their count.

use rand::RngCore;
use vstd::prelude::*;

verus! {

/// The encoded Argon2 hash of `password` under `salt`, with the crate's
/// default configuration. A deterministic function of its arguments.
pub uninterp spec fn argon2_hash_of(password: Seq<char>, salt: Seq<char>) -> Seq<char>;

/// Whether Argon2 verification of `password` against the encoded hash
/// `encoded` succeeds. A deterministic function of its arguments:
/// verification decodes `encoded` and re-runs the hash.
pub uninterp spec fn argon2_verifies(encoded: Seq<char>, password: Seq<char>) -> bool;

/// The base64 (standard alphabet, padded) encoding of `bytes`.
pub uninterp spec fn base64_chars_of(bytes: Seq<u8>) -> Seq<char>;

/// Relies on `argon2::hash_encoded` (crate `rust-argon2`): hashes the
/// password with the given salt under `argon2::Config::default()` and
/// returns the encoded hash. Its source returns `Ok` whenever the salt
/// holds at least 8 bytes and password and salt are well below 2^32 bytes
/// (the default configuration itself is always accepted); the bounds below
/// on character counts are sufficient for that. The crate documents that
/// `argon2::verify_encoded` verifies a password against exactly such an
/// encoded hash, which is the round-trip clause.
#[verifier::external_body]
pub(crate) fn argon2_hash(password: &str, salt: &str) -> (r: Option<String>)
    ensures
        r is Some ==> r->Some_0@ == argon2_hash_of(password@, salt@),
        r is Some ==> argon2_verifies(argon2_hash_of(password@, salt@), password@),
        8 <= salt@.len() <= 1024 && password@.len() <= 0x1000000 ==> r is Some,
{
    argon2::hash_encoded(password.as_bytes(), salt.as_bytes(), &argon2::Config::default()).ok()
}

/// Relies on `argon2::verify_encoded` (crate `rust-argon2`): verifies the
/// password against the encoded hash, recomputing the hash with the salt
/// and parameters carried inside `encoded`. A malformed `encoded` makes it
/// return an error, taken here as a failed verification.
#[verifier::external_body]
pub(crate) fn argon2_verify(encoded: &str, password: &str) -> (r: bool)
    ensures
        r == argon2_verifies(encoded@, password@),
{
    argon2::verify_encoded(encoded, password.as_bytes()).unwrap_or(false)
}

/// Relies on `base64::encode` (crate `base64`): encodes bytes with the
/// standard alphabet and padding, four output characters for every three
/// input bytes begun.
#[verifier::external_body]
pub(crate) fn base64_encode(bytes: &[u8]) -> (r: String)
    ensures
        r@ == base64_chars_of(bytes@),
        r@.len() == 4 * ((bytes@.len() + 2) / 3),
{
    base64::encode(bytes)
}

/// Relies on `rand::thread_rng` and `rand::RngCore::fill_bytes` (crate
/// `rand`): fills a buffer from the thread-local generator. The bytes are
/// random, so nothing is claimed of them beyond their count.
#[verifier::external_body]
pub(crate) fn random_bytes(n: usize) -> (r: Vec<u8>)
    ensures
        r@.len() == n,
{
    let mut buf = vec![0u8; n];
    rand::thread_rng().fill_bytes(&mut buf);
    buf
}

} // verus!
