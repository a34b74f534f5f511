//! Authentication of host-info broadcasts: every broadcast carries a freshly
//! salted one-way hash of the pre-shared token, and incoming messages are
//! accepted only when that hash verifies against the local token.

use vstd::prelude::*;
use vstd::utf8::encode_utf8;

verus! {

/// Whether `hash` verifies as a salted one-way hash of `token`. The salt and
/// all hashing parameters are embedded in the hash string itself, so the
/// verdict is a pure function of the two strings.
pub uninterp spec fn token_matches(token: Seq<char>, hash: Seq<char>) -> bool;

/// Relies on `PasswordHash::new` and `Argon2::verify_password` (argon2 0.5,
/// password-hash 0.5): the verifier recomputes the digest of `token` under
/// the algorithm, parameters and salt carried inside `hash` and compares
/// outputs, so the verdict depends on the two strings alone. A string that
/// does not parse as a PHC hash verifies against no token.
#[verifier::external_body]
pub(crate) fn verify_token_hash(token: &str, hash: &str) -> (r: bool)
    ensures
        r == token_matches(token@, hash@),
{
    let parsed = match argon2::PasswordHash::new(hash) {
        Ok(v) => v,
        Err(_) => return false,
    };
    let verifier = argon2::Argon2::default();
    argon2::PasswordVerifier::verify_password(&verifier, token.as_bytes(), &parsed).is_ok()
}

/// Relies on `SaltString::generate` and `Argon2::hash_password` (argon2 0.5,
/// password-hash 0.5): on success the result is a PHC hash string of `token`
/// under a fresh random salt, and `verify_password` recomputes exactly that
/// digest when given the same token, so the hash verifies against it.
/// Hashing a password of at most 2^32 - 1 bytes under a freshly generated
/// 16-byte salt with the default parameters has no failure path in argon2's
/// source, so such a token is always hashed.
#[verifier::external_body]
pub(crate) fn hash_token(token: &str) -> (r: Option<String>)
    ensures
        r matches Some(h) ==> token_matches(token@, h@),
        encode_utf8(token@).len() <= 0xffff_ffff ==> r is Some,
{
    let salt = argon2::password_hash::SaltString::generate(&mut rand::rngs::OsRng);
    let hasher = argon2::Argon2::default();
    match argon2::PasswordHasher::hash_password(&hasher, token.as_bytes(), &salt) {
        Ok(h) => Some(h.to_string()),
        Err(_) => None,
    }
}

} // verus!
