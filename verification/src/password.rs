//! One-way salted password hashing and constant-time verification, wrapping
//! a slow adaptive hash primitive.

use vstd::prelude::*;

verus! {

#[verifier::external_type_specification]
#[verifier::external_body]
pub struct ExBcryptError(bcrypt::BcryptError);

/// What the bcrypt verifier answers for a password and a digest: `Some(true)`
/// on a match, `Some(false)` on a mismatch, `None` on a malformed digest.
/// Deterministic: the salt is carried inside the digest itself.
pub uninterp spec fn bcrypt_check(password: Seq<char>, digest: Seq<char>) -> Option<bool>;

/// Relies on bcrypt::hash: every digest it produces is a 60-character
/// `$`-prefixed hash string (never the plaintext) and verifies against the
/// password it was computed from.
#[verifier::external_body]
pub(crate) fn bcrypt_hash(password: &str) -> (r: Result<String, bcrypt::BcryptError>)
    ensures
        r matches Ok(h) ==> bcrypt_check(password@, h@) == Some(true) && h@.len() == 60 && h@[0]
            == '$',
{
    bcrypt::hash(password, bcrypt::DEFAULT_COST)
}

/// Relies on bcrypt::verify: recomputes the digest from the salt embedded in
/// `digest` and compares; errs only when the digest is malformed.
#[verifier::external_body]
pub(crate) fn bcrypt_verify(password: &str, digest: &str) -> (r: Result<bool, bcrypt::BcryptError>)
    ensures
        match r {
            Ok(b) => bcrypt_check(password@, digest@) == Some(b),
            Err(_) => bcrypt_check(password@, digest@) is None,
        },
{
    bcrypt::verify(password, digest)
}

} // verus!
