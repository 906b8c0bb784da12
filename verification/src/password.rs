use vstd::prelude::*;

verus! {

/// The Argon2 hash of a password under the given salt and the hashing
/// crate's default configuration. The full definition of the function is the
/// Argon2 algorithm itself; contracts only need that it is a function of
/// password and salt alone.
pub uninterp spec fn argon2_hash_of(password: Seq<u8>, salt: Seq<u8>) -> Seq<u8>;

/// Relies on argon2::hash_raw with argon2::Config::default(): the hash is a
/// function of password and salt alone, 32 bytes long, and the call succeeds
/// exactly when the salt is at least 8 bytes (and both lengths fit in u32,
/// the crate's validation limits).
#[verifier::external_body]
pub fn hash_password(password: &[u8], salt: &[u8]) -> (r: Option<Vec<u8>>)
    ensures
        r is Some <==> (8 <= salt@.len() && salt@.len() <= u32::MAX && password@.len()
            <= u32::MAX),
        r matches Some(h) ==> h@ == argon2_hash_of(password@, salt@) && h@.len() == 32,
{
    argon2::hash_raw(password, salt, &argon2::Config::default()).ok()
}

/// Relies on argon2::verify_raw with argon2::Config::default(): it recomputes
/// the raw hash for the stored 32-byte hash's length and compares, so the
/// answer is whether the stored hash equals the Argon2 hash of the offered
/// password; it succeeds under the same validation limits as hashing.
#[verifier::external_body]
pub fn verify_password(password: &[u8], salt: &[u8], hash: &[u8]) -> (r: Option<bool>)
    requires
        hash@.len() == 32,
    ensures
        r is Some <==> (8 <= salt@.len() && salt@.len() <= u32::MAX && password@.len()
            <= u32::MAX),
        r matches Some(b) ==> b == (hash@ == argon2_hash_of(password@, salt@)),
{
    argon2::verify_raw(password, salt, hash, &argon2::Config::default()).ok()
}

} // verus!
