//! Calls into std and outside crates whose results the verified code relies
//! on. Each item states what the callee's documentation promises.
use vstd::prelude::*;
use base64::Engine;
use sha1::Digest;

verus! {

/// The text that `String::from_utf8_lossy` makes of `b`.
pub uninterp spec fn utf8_lossy(b: Seq<u8>) -> Seq<char>;

/// Relies on `String::from_utf8_lossy`: invalid sequences become U+FFFD, and
/// valid UTF-8 is decoded as it is.
#[verifier::external_body]
pub(crate) fn lossy_text(b: &[u8]) -> (r: String)
    ensures
        r@ == utf8_lossy(b@),
        vstd::utf8::valid_utf8(b@) ==> r@ == vstd::utf8::decode_utf8(b@),
{
    String::from_utf8_lossy(b).into_owned()
}


/// Relies on `SystemTime::now` and `duration_since(UNIX_EPOCH)`: nanoseconds
/// since the Unix epoch, or 0 for a clock set before it. Nothing is known of
/// the value.
#[verifier::external_body]
pub(crate) fn unix_time_nanos() -> (r: u128) {
    std::time::SystemTime::now().duration_since(std::time::UNIX_EPOCH).map(|d| d.as_nanos()).unwrap_or(0)
}


/// The standard base64 text (RFC 4648 alphabet, with padding) of `b`.
pub uninterp spec fn base64_text(b: Seq<u8>) -> Seq<char>;

/// Relies on `base64::Engine::encode` with the `STANDARD` engine: padded
/// output, four characters for each started group of three bytes.
#[verifier::external_body]
pub(crate) fn base64_encode(b: &[u8]) -> (r: String)
    ensures
        r@ == base64_text(b@),
        r@.len() == 4 * ((b@.len() + 2) / 3),
{
    base64::engine::general_purpose::STANDARD.encode(b)
}

/// The SHA-1 digest of `b`.
pub uninterp spec fn sha1_digest(b: Seq<u8>) -> Seq<u8>;

/// Relies on `sha1::Sha1` through `Digest::update` and `finalize`: the
/// 20-byte digest of `a` followed by `b`.
#[verifier::external_body]
pub(crate) fn sha1_of_parts(a: &[u8], b: &[u8]) -> (r: Vec<u8>)
    ensures
        r@ == sha1_digest(a@ + b@),
        r@.len() == 20,
{
    let mut hasher = sha1::Sha1::new();
    hasher.update(a);
    hasher.update(b);
    hasher.finalize().to_vec()
}

} // verus!
