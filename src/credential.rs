use vstd::prelude::*;
use vstd::utf8::encode_utf8;
use crate::error::Error;

verus! {

/// The bcrypt work factor used for stored passwords.
pub const PASSWORD_COST: u32 = 12;

/// Whether bcrypt accepts `password` against the stored `hash`.
pub uninterp spec fn bcrypt_accepts(password: Seq<u8>, hash: Seq<char>) -> bool;

/// A shape that every hash `bcrypt::verify` can read has: its `split_hash`
/// wants three non-empty `$`-separated fields (so at least two `$`), a
/// two-byte version, a cost, and a 53-byte salt and digest (so at least 58
/// bytes in all).
pub open spec fn bcrypt_shaped(hash: Seq<char>) -> bool {
    &&& exists|i: int, j: int| 0 <= i < j < hash.len() && hash[i] == '$' && hash[j] == '$'
    &&& encode_utf8(hash).len() >= 58
}

/// Relies on `bcrypt::hash`: it refuses a cost outside `4..=31`; a hash it
/// returns is `$2b$`, the two-digit cost, `$`, and 53 base64 characters, and
/// is one that `bcrypt::verify` accepts for the same password.
#[verifier::external_body]
fn bcrypt_hash(password: &[u8], cost: u32) -> (r: Option<String>)
    ensures
        cost < 4 || cost > 31 ==> r is None,
        r matches Some(h) ==> bcrypt_shaped(h@),
        r matches Some(h) ==> bcrypt_accepts(password@, h@),
{
    bcrypt::hash(password, cost).ok()
}

/// Relies on `bcrypt::verify`: whether `password` matches `hash`, compared in
/// constant time; a malformed hash is an error there and a mismatch here.
#[verifier::external_body]
fn bcrypt_verify(password: &[u8], hash: &str) -> (r: bool)
    ensures
        r == bcrypt_accepts(password@, hash@),
        !bcrypt_shaped(hash@) ==> !r,
{
    bcrypt::verify(password, hash).unwrap_or(false)
}

/// Whether `password` matches the stored hash `hash`; a hash of the wrong
/// shape matches no password.
pub open spec fn password_matches(password: Seq<char>, hash: Seq<char>) -> bool {
    bcrypt_shaped(hash) && bcrypt_accepts(encode_utf8(password), hash)
}

/// Salted, adaptive one-way hash of `password` at work factor `cost`. The
/// hash returned is one that `verify_password` accepts for `password`.
pub fn hash_password(password: &str, cost: u32) -> (r: Result<String, Error>)
    ensures
        cost < 4 || cost > 31 ==> r == Err::<String, _>(Error::Hashing),
        r matches Err(e) ==> e == Error::Hashing,
        r matches Ok(h) ==> password_matches(password@, h@),
{
    match bcrypt_hash(password.as_bytes(), cost) {
        Some(h) => Ok(h),
        None => Err(Error::Hashing),
    }
}

/// Whether `password` matches the stored hash; a malformed hash is a mismatch.
pub fn verify_password(password: &str, hash: &str) -> (r: bool)
    ensures
        r == password_matches(password@, hash@),
{
    bcrypt_verify(password.as_bytes(), hash)
}

} // verus!
