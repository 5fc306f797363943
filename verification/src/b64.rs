//! URL-safe, unpadded base64 for ledger names and descriptions.
//!
//! The encoding itself is done by the `base64` crate; this module gives the
//! two calls contracts the rest of the library can reason with.

use vstd::prelude::*;

verus! {

/// The URL-safe, unpadded base64 rendering of a byte sequence.
pub uninterp spec fn b64url_of(b: Seq<u8>) -> Seq<char>;

/// What URL-safe, unpadded base64 decoding makes of a character sequence:
/// `Some` bytes exactly on canonical encodings, `None` otherwise.
pub uninterp spec fn b64url_decoded(s: Seq<char>) -> Option<Seq<u8>>;

/// Relies on base64's `URL_SAFE_NO_PAD` engine: it encodes without padding,
/// producing `ceil(4 * len / 3)` characters, and its decoder (which requires
/// no padding and forbids trailing bits) inverts it.
#[verifier::external_body]
pub(crate) fn b64url_encode(b: &Vec<u8>) -> (r: String)
    ensures
        r@ == b64url_of(b@),
        r@.len() == (b@.len() * 4 + 2) / 3,
        b64url_decoded(r@) == Some(b@),
{
    base64::Engine::encode(&base64::engine::general_purpose::URL_SAFE_NO_PAD, b.as_slice())
}

/// Relies on base64's `URL_SAFE_NO_PAD` engine decode: it accepts exactly the
/// canonical unpadded encodings (no padding allowed, no trailing bits).
#[verifier::external_body]
pub(crate) fn b64url_decode(s: &str) -> (r: Result<Vec<u8>, ()>)
    ensures
        r is Ok <==> b64url_decoded(s@) is Some,
        r is Ok ==> b64url_decoded(s@) == Some(r->Ok_0@),
{
    match base64::Engine::decode(&base64::engine::general_purpose::URL_SAFE_NO_PAD, s) {
        Ok(v) => Ok(v),
        Err(_) => Err(()),
    }
}

} // verus!
