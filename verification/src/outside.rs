//! Calls into other crates and std: hash functions, the system's random
//! numbers and clock, UTF-8, and shared octets.

use std::sync::Arc;
use std::time::Instant;
use vstd::prelude::*;
use vstd::utf8::{decode_utf8, valid_utf8};

verus! {

/// The MD5 hash of `data`.
pub uninterp spec fn md5_digest(data: Seq<u8>) -> Seq<u8>;

/// The SHA-256 hash of `data`.
pub uninterp spec fn sha256_digest(data: Seq<u8>) -> Seq<u8>;

/// Calls `md5::Md5::digest`: its result depends on the data alone and is
/// 16 octets long.
#[verifier::external_body]
pub(crate) fn md5(data: &[u8]) -> (r: Vec<u8>)
    ensures
        r@ == md5_digest(data@),
        r@.len() == 16,
{
    <md5::Md5 as md5::Digest>::digest(data).to_vec()
}

/// Calls `sha2::Sha256::digest`: its result depends on the data alone and is
/// 32 octets long.
#[verifier::external_body]
pub(crate) fn sha256(data: &[u8]) -> (r: Vec<u8>)
    ensures
        r@ == sha256_digest(data@),
        r@.len() == 32,
{
    <sha2::Sha256 as sha2::Digest>::digest(data).to_vec()
}

/// Calls `getrandom::getrandom` on a buffer of `n` octets: where it succeeds
/// the buffer is returned, else the text of the failure. Nothing is said of
/// the octets, which are drawn by the system; a buffer cannot be longer than
/// `isize::MAX`.
#[verifier::external_body]
pub(crate) fn random_octets(n: usize) -> (r: Result<Vec<u8>, String>)
    requires
        n <= isize::MAX,
    ensures
        r matches Ok(v) ==> v@.len() == n,
{
    let mut b = vec![0u8; n];
    match getrandom::getrandom(&mut b) {
        Ok(()) => Ok(b),
        Err(e) => Err(e.to_string()),
    }
}

/// Calls `std::str::from_utf8`: the text that the octets encode where they
/// are valid UTF-8, else nothing.
#[verifier::external_body]
pub(crate) fn utf8_text(b: &[u8]) -> (r: Option<&str>)
    ensures
        match r {
            Some(s) => valid_utf8(b@) && s@ == decode_utf8(b@),
            None => !valid_utf8(b@),
        },
{
    std::str::from_utf8(b).ok()
}

/// Calls `Arc::clone`: another handle to the same octets.
#[verifier::external_body]
pub(crate) fn share(key: &Arc<Vec<u8>>) -> (r: Arc<Vec<u8>>)
    ensures
        r == *key,
{
    Arc::clone(key)
}

/// A reading of the machine's steady clock.
#[verifier::external_type_specification]
#[verifier::external_body]
pub struct ExInstant(Instant);

/// Calls `Instant::now`. Nothing is said of the result, which is the
/// machine's steady clock.
#[verifier::external_body]
pub(crate) fn clock_start() -> (r: Instant) {
    Instant::now()
}

/// Calls `Instant::elapsed` and gives the nanoseconds since the reading.
/// Nothing is said of the result, which depends on the machine's clock.
#[verifier::external_body]
pub(crate) fn nanos_since(start: &Instant) -> (r: u64) {
    start.elapsed().as_nanos() as u64
}

} // verus!
