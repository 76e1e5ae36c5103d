use vstd::prelude::*;

use crate::errors::AuthError;

verus! {

/// Whether argon2 verification of `plaintext` against the self-describing
/// `digest` succeeds; a function of the two strings alone.
pub uninterp spec fn digest_matches(digest: Seq<char>, plaintext: Seq<char>) -> bool;

/// Whether a digest string parses as a well-formed PHC string.
pub uninterp spec fn digest_wf(digest: Seq<char>) -> bool;

/// The cost parameters (memory in KiB, iterations, parallelism) embedded in
/// a digest string; a function of the string alone.
pub uninterp spec fn digest_params(digest: Seq<char>) -> (u32, u32, u32);

/// Memory cost of the key derivation, in KiB.
pub const HASH_M_COST: u32 = 19456;

/// Time cost (iterations) of the key derivation.
pub const HASH_T_COST: u32 = 2;

/// Parallelism of the key derivation.
pub const HASH_P_COST: u32 = 1;

/// Relies on argon2's `hash_password` (Argon2id, version 19) with a fresh
/// `OsRng` salt: on success the digest is a well-formed PHC string which
/// verification accepts for exactly the plaintext that was hashed, and which
/// embeds the cost parameters the call was made with.
#[verifier::external_body]
fn argon2_hash(plaintext: &str, m_cost: u32, t_cost: u32, p_cost: u32) -> (r: Result<String, ()>)
    ensures
        r matches Ok(d) ==> digest_wf(d@) && digest_matches(d@, plaintext@) && digest_params(d@)
            == (m_cost, t_cost, p_cost),
{
    let salt = password_hash::SaltString::generate(&mut password_hash::rand_core::OsRng);
    let params = match argon2::Params::new(m_cost, t_cost, p_cost, None) {
        Ok(p) => p,
        Err(_) => return Err(()),
    };
    let ctx = argon2::Argon2::new(argon2::Algorithm::Argon2id, argon2::Version::V0x13, params);
    match argon2::PasswordHasher::hash_password(&ctx, plaintext.as_bytes(), &salt) {
        Ok(h) => Ok(h.to_string()),
        Err(_) => Err(()),
    }
}

/// Relies on password_hash's `PasswordHash::new` and argon2's
/// `verify_password`: parsing succeeds exactly on well-formed PHC strings,
/// and verification recomputes the hash with the digest's embedded salt and
/// parameters and compares in constant time; the outcome is a function of
/// digest and plaintext alone.
#[verifier::external_body]
fn argon2_verify(plaintext: &str, digest: &str) -> (r: Result<bool, ()>)
    ensures
        r matches Ok(b) ==> digest_wf(digest@) && b == digest_matches(digest@, plaintext@),
        r is Err ==> !digest_wf(digest@),
{
    match password_hash::PasswordHash::new(digest) {
        Ok(ph) => Ok(
            argon2::PasswordVerifier::verify_password(
                &argon2::Argon2::default(),
                plaintext.as_bytes(),
                &ph,
            ).is_ok(),
        ),
        Err(_) => Err(()),
    }
}

/// What verification returns for a digest and plaintext.
pub open spec fn verify_outcome(digest: Seq<char>, plaintext: Seq<char>) -> Result<
    bool,
    AuthError,
> {
    if digest_wf(digest) {
        Ok(digest_matches(digest, plaintext))
    } else {
        Err(AuthError::MalformedDigest)
    }
}

/// Derive a fresh salted digest for a plaintext secret, at the fixed
/// memory-hard cost.
pub fn hash_password(plaintext: &str) -> (r: Result<String, AuthError>)
    ensures
        match r {
            Ok(d) => digest_wf(d@) && digest_matches(d@, plaintext@) && digest_params(d@) == (
                HASH_M_COST,
                HASH_T_COST,
                HASH_P_COST,
            ),
            Err(e) => e == AuthError::HashingFailure,
        },
{
    match argon2_hash(plaintext, HASH_M_COST, HASH_T_COST, HASH_P_COST) {
        Ok(d) => Ok(d),
        Err(_) => Err(AuthError::HashingFailure),
    }
}

/// Check a plaintext secret against a stored digest; a wrong secret returns
/// `Ok(false)`, only an unparsable digest is an error.
pub fn verify_password(plaintext: &str, digest: &str) -> (r: Result<bool, AuthError>)
    ensures
        r == verify_outcome(digest@, plaintext@),
{
    match argon2_verify(plaintext, digest) {
        Ok(b) => Ok(b),
        Err(_) => Err(AuthError::MalformedDigest),
    }
}

/// A digest produced from a plaintext verifies that same plaintext: hashing
/// ensures `digest_matches`, and verification returns exactly that outcome.
pub proof fn lemma_hash_digest_verifies(d: Seq<char>, p: Seq<char>)
    requires
        digest_wf(d),
        digest_matches(d, p),
    ensures
        verify_outcome(d, p) == Ok::<bool, AuthError>(true),
{
}

} // verus!
