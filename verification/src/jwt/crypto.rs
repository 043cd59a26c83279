//! Calls into the base64, hmac and sha2 crates, and std's `Debug` text of a string.
use vstd::prelude::*;
use vstd::utf8::encode_utf8;
use base64::Engine;
use hmac::Mac;

verus! {

/// What `BASE64_URL_SAFE_NO_PAD.decode` gives for some bytes (`None`: a decode error).
pub uninterp spec fn base64url_nopad_decoded(input: Seq<u8>) -> Option<Seq<u8>>;

/// What `BASE64_STANDARD.decode` gives for some bytes (`None`: a decode error).
pub uninterp spec fn base64_standard_decoded(input: Seq<u8>) -> Option<Seq<u8>>;

/// The HMAC-SHA256 tag of a message under a key.
pub uninterp spec fn hmac_sha256(key: Seq<u8>, msg: Seq<u8>) -> Seq<u8>;

/// The text `format!("{:?}", s)` gives for a string: quoted, with escapes.
pub uninterp spec fn debug_quoted(s: Seq<char>) -> Seq<char>;

/// `base64::prelude::BASE64_URL_SAFE_NO_PAD.decode` on the UTF-8 bytes of
/// `input`. The result is the decoder's, a function of the input alone.
#[verifier::external_body]
pub(crate) fn base64url_decode(input: &str) -> (r: Option<Vec<u8>>)
    ensures
        r is Some <==> base64url_nopad_decoded(encode_utf8(input@)) is Some,
        r matches Some(v) ==> base64url_nopad_decoded(encode_utf8(input@)) == Some(v@),
{
    base64::prelude::BASE64_URL_SAFE_NO_PAD.decode(input.as_bytes()).ok()
}

/// `base64::prelude::BASE64_STANDARD.decode` on the UTF-8 bytes of `input`.
#[verifier::external_body]
pub(crate) fn base64_standard_decode(input: &str) -> (r: Option<Vec<u8>>)
    ensures
        r is Some <==> base64_standard_decoded(encode_utf8(input@)) is Some,
        r matches Some(v) ==> base64_standard_decoded(encode_utf8(input@)) == Some(v@),
{
    base64::prelude::BASE64_STANDARD.decode(input.as_bytes()).ok()
}

/// `Hmac::<Sha256>::new_from_slice(key)`, `update(msg)`, `verify_slice(tag)`.
/// `None` would be a refused key, which `new_from_slice` never gives for
/// HMAC (any key length is accepted); the result is whether `tag` equals
/// the HMAC-SHA256 tag (`verify_slice` compares the full tag, length
/// included).
#[verifier::external_body]
pub(crate) fn hmac_sha256_verify(key: &[u8], msg: &[u8], tag: &[u8]) -> (r: Option<bool>)
    ensures
        r == Some(tag@ == hmac_sha256(key@, msg@)),
{
    let mut mac = match hmac::Hmac::<sha2::Sha256>::new_from_slice(key) {
        Ok(m) => m,
        Err(_) => return None,
    };
    mac.update(msg);
    Some(mac.verify_slice(tag).is_ok())
}

/// `format!("{:?}", s)`: the string quoted, with control characters and
/// quotes escaped.
#[verifier::external_body]
pub(crate) fn debug_quote(s: &str) -> (r: String)
    ensures
        r@ == debug_quoted(s@),
{
    format!("{:?}", s)
}

} // verus!
