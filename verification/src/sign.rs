//! The signer: an HMAC-SHA1 digest of the string-to-sign, rendered in
//! base64. Both primitives live in outside crates; each is called through
//! one trusted wrapper whose result is named, and everything around the
//! calls is verified against those names.

use vstd::prelude::*;
use vstd::utf8::encode_utf8;
use crypto::mac::Mac;

verus! {

/// The HMAC-SHA1 digest of `msg` under `key`: a pure function of the two
/// byte strings.
pub uninterp spec fn hmac_sha1(key: Seq<u8>, msg: Seq<u8>) -> Seq<u8>;

/// The standard base64 rendering (padded) of a byte string, as the UTF-8
/// bytes of the resulting text: a pure function of the input bytes.
pub uninterp spec fn base64_of(s: Seq<u8>) -> Seq<u8>;

/// Relies on crypto's `Hmac::new` with `Sha1` and the `Mac` trait
/// (`input`, `result`, `code`): the digest is HMAC-SHA1 of key and
/// message alone, and SHA-1 digests are 20 bytes.
#[verifier::external_body]
fn hmac_sha1_digest(key: &[u8], msg: &[u8]) -> (r: Vec<u8>)
    ensures
        r@ == hmac_sha1(key@, msg@),
        r@.len() == 20,
{
    let mut mac = crypto::hmac::Hmac::new(crypto::sha1::Sha1::new(), key);
    mac.input(msg);
    let out = mac.result();
    out.code().to_vec()
}

/// Relies on `base64::encode`: the standard-alphabet, padded base64 text
/// of the input bytes, a function of those bytes alone.
#[verifier::external_body]
fn base64_string(data: &[u8]) -> (r: String)
    ensures
        encode_utf8(r@) == base64_of(data@),
{
    base64::encode(data)
}

/// The signature of `body` under `key`: base64 of the HMAC-SHA1 digest.
pub fn sign_bytes(key: &[u8], body: &[u8]) -> (r: String)
    ensures
        encode_utf8(r@) == base64_of(hmac_sha1(key@, body@)),
{
    let digest = hmac_sha1_digest(key, body);
    base64_string(digest.as_slice())
}

/// The signature of `body` under a string `key` (the provider uses the
/// account secret with `&` appended).
pub fn sign(key: &str, body: &str) -> (r: String)
    ensures
        encode_utf8(r@) == base64_of(hmac_sha1(encode_utf8(key@), encode_utf8(body@))),
{
    sign_bytes(key.as_bytes(), body.as_bytes())
}

} // verus!
