//! The engine's three contacts with the world outside its own logic: the
//! clock, random identifiers and content digests. Each is a thin trusted
//! wrapper around an outside crate; everything computed from their results is
//! verified.

use vstd::prelude::*;

verus! {

/// The SHA-256 digest of the UTF-8 encoding of a string. The digest is a
/// function of the input alone; its value is not axiomatized here.
pub uninterp spec fn sha256_of(data: Seq<char>) -> Seq<u8>;

/// Relies on sha2's Sha256: a 32-byte digest computed from the input bytes
/// alone.
#[verifier::external_body]
pub(crate) fn sha256(data: &str) -> (r: Vec<u8>)
    ensures
        r@ == sha256_of(data@),
        r@.len() == 32,
{
    <sha2::Sha256 as sha2::Digest>::digest(data.as_bytes()).to_vec()
}

/// Relies on chrono's Utc::now: the current wall-clock time. Nothing is
/// assumed of the value; callers state what holds for every reading. On a
/// system clock set before the Unix epoch the underlying call aborts, an
/// environmental condition no input can trigger.
#[verifier::external_body]
pub(crate) fn now_ms() -> u64 {
    chrono::Utc::now().timestamp_millis() as u64
}

/// Relies on uuid's Uuid::new_v4 and its hyphenated rendering: a random
/// identifier, always 36 characters. Nothing else is assumed of the value.
#[verifier::external_body]
pub(crate) fn new_uuid() -> (r: String)
    ensures
        r@.len() == 36,
{
    uuid::Uuid::new_v4().to_string()
}

} // verus!
