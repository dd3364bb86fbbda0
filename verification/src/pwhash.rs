//! Password hashing for HTTP Basic Auth credentials, in the SHA-512 crypt
//! format.  Both operations are carried out by the `sha_crypt` crate; what
//! the library states of them is only what every outcome satisfies.

use vstd::prelude::*;

verus! {

/// Whether the SHA-512 crypt check accepts `hashed` as a hash of
/// `plaintext`; a function of the two strings alone.
pub uninterp spec fn sha512_verifies(plaintext: Seq<char>, hashed: Seq<char>) -> bool;

/// Hashes a plaintext password with a fresh random salt and 5000 rounds.
///
/// Relies on `sha_crypt::sha512_simple`: whatever salt is drawn, the
/// resulting string is accepted by `sha_crypt::sha512_check` for this
/// plaintext.  The salt is random, so nothing more is promised of the
/// string itself.
#[verifier::external_body]
pub fn crypt(plaintext: &str) -> (r: String)
    ensures
        sha512_verifies(plaintext@, r@),
{
    let crypt_params: sha_crypt::Sha512Params =
        sha_crypt::Sha512Params::new(5000).expect("sha_crypt");
    sha_crypt::sha512_simple(plaintext, &crypt_params).unwrap()
}

/// Checks a plaintext password against a SHA-512 crypt string.
///
/// Relies on `sha_crypt::sha512_check`: acceptance depends on the two
/// strings alone.
#[verifier::external_body]
pub fn verify(plaintext: &str, hashed_password: &str) -> (r: bool)
    ensures
        r == sha512_verifies(plaintext@, hashed_password@),
{
    sha_crypt::sha512_check(plaintext, hashed_password).is_ok()
}

} // verus!
