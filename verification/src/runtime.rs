//! The clock and the identifier source the engine stamps its records with.

use vstd::prelude::*;
use rand::RngCore;
use base64::Engine;

verus! {

/// The current time in milliseconds since the Unix epoch, as
/// `chrono::Utc::now().timestamp_millis()` reads it.
///
/// The clock decides the value: nothing is stated of it.
#[verifier::external_body]
pub fn now_millis() -> (t: i64) {
    chrono::Utc::now().timestamp_millis()
}

/// A reading of the monotonic clock, `std::time::Instant`.
#[verifier::external_type_specification]
#[verifier::external_body]
pub struct ExInstant(std::time::Instant);

/// The monotonic clock now: `std::time::Instant::now()`.
///
/// The clock decides the value: nothing is stated of it.
#[verifier::external_body]
pub fn instant_now() -> (t: std::time::Instant) {
    std::time::Instant::now()
}

/// The whole milliseconds the monotonic clock has advanced since `origin`:
/// `origin.elapsed().as_millis()`, as an `i64`.
///
/// The clock decides the value: nothing is stated of it.
#[verifier::external_body]
pub fn millis_since(origin: &std::time::Instant) -> (ms: i64) {
    origin.elapsed().as_millis() as i64
}

/// A fresh random identifier: `uuid::Uuid::new_v4()` in its hyphenated
/// text form.
///
/// The random bits decide the value; the hyphenated form always has 36
/// characters, which is all that is stated.
#[verifier::external_body]
pub fn new_uuid() -> (id: String)
    ensures
        id@.len() == 36,
{
    uuid::Uuid::new_v4().to_string()
}

/// `n` random bytes from the thread's generator:
/// `rand::thread_rng().fill_bytes` on a buffer of that length.
///
/// The generator decides the bytes; only their number is stated.
#[verifier::external_body]
pub fn random_bytes(n: usize) -> (r: Vec<u8>)
    ensures
        r@.len() == n,
{
    let mut key = vec![0u8; n];
    rand::thread_rng().fill_bytes(&mut key);
    key
}

/// The standard base64 text of a byte sequence (with padding).
pub uninterp spec fn base64_of(bytes: Seq<u8>) -> Seq<char>;

/// Encodes bytes in standard base64 with padding:
/// `base64::engine::general_purpose::STANDARD.encode`. The text is named
/// by `base64_of`; with padding every started group of three bytes gives
/// four characters, which is stated as the text's length. The encoder
/// panics when that length does not fit in `usize`, so such inputs are
/// left out.
#[verifier::external_body]
pub fn base64_standard(bytes: &Vec<u8>) -> (r: String)
    requires
        4 * ((bytes@.len() + 2) / 3) <= usize::MAX,
    ensures
        r@ == base64_of(bytes@),
        r@.len() == 4 * ((bytes@.len() + 2) / 3),
{
    base64::engine::general_purpose::STANDARD.encode(bytes)
}

} // verus!
