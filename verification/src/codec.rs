//! Encodings and MACs the protocol relies on, from the `base64`, `hmac` and
//! `sha2` crates.
use base64::Engine;
use hmac::Mac;
use vstd::prelude::*;

verus! {

/// Standard base64 (with padding) of some bytes.
pub uninterp spec fn base64_standard(bytes: Seq<u8>) -> Seq<char>;

/// Decoding of standard base64 text (`None` when it is not valid).
pub uninterp spec fn base64_standard_decoded(text: Seq<char>) -> Option<Seq<u8>>;

/// URL-safe base64 without padding of some bytes.
pub uninterp spec fn base64_url_nopad(bytes: Seq<u8>) -> Seq<char>;

/// Decoding of URL-safe unpadded base64 text (`None` when it is not valid).
pub uninterp spec fn base64_url_nopad_decoded(text: Seq<char>) -> Option<Seq<u8>>;

/// HMAC-SHA256 of a message under a key.
pub uninterp spec fn hmac_sha256(key: Seq<u8>, message: Seq<u8>) -> Seq<u8>;

/// Encodes with `base64::engine::general_purpose::STANDARD`.
///
/// Trusted: `Engine::encode` gives the named encoding, which decodes back to
/// the same bytes; with padding it is four characters for every started
/// group of three bytes (`encoded_len`).
#[verifier::external_body]
pub(crate) fn base64_standard_encode(bytes: &[u8]) -> (r: String)
    ensures
        r@ == base64_standard(bytes@),
        base64_standard_decoded(r@) == Some(bytes@),
        r@.len() == 4 * ((bytes@.len() + 2) / 3),
{
    base64::engine::general_purpose::STANDARD.encode(bytes)
}

/// Decodes with `base64::engine::general_purpose::STANDARD`.
///
/// Trusted: `Engine::decode` gives the named decoding, `Err` mapped to `None`.
#[verifier::external_body]
pub(crate) fn base64_standard_decode(text: &str) -> (r: Option<Vec<u8>>)
    ensures
        match r {
            Some(b) => base64_standard_decoded(text@) == Some(b@),
            None => base64_standard_decoded(text@) is None,
        },
{
    base64::engine::general_purpose::STANDARD.decode(text.as_bytes()).ok()
}

/// Encodes with `base64::engine::general_purpose::URL_SAFE_NO_PAD`.
///
/// Trusted: `Engine::encode` gives the named encoding, which decodes back
/// to the same bytes; without padding it is four characters per three
/// bytes, rounded up (`encoded_len`).
#[verifier::external_body]
pub(crate) fn base64_url_nopad_encode(bytes: &[u8]) -> (r: String)
    ensures
        r@ == base64_url_nopad(bytes@),
        base64_url_nopad_decoded(r@) == Some(bytes@),
        r@.len() == (4 * bytes@.len() + 2) / 3,
{
    base64::engine::general_purpose::URL_SAFE_NO_PAD.encode(bytes)
}

/// Decodes with `base64::engine::general_purpose::URL_SAFE_NO_PAD`.
///
/// Trusted: `Engine::decode` gives the named decoding, `Err` mapped to `None`.
#[verifier::external_body]
pub(crate) fn base64_url_nopad_decode(text: &str) -> (r: Option<Vec<u8>>)
    ensures
        match r {
            Some(b) => base64_url_nopad_decoded(text@) == Some(b@),
            None => base64_url_nopad_decoded(text@) is None,
        },
{
    base64::engine::general_purpose::URL_SAFE_NO_PAD.decode(text.as_bytes()).ok()
}

/// HMAC-SHA256 through `hmac::Hmac<sha2::Sha256>`: `Mac::new_from_slice`,
/// `Mac::update`, `Mac::finalize`.
///
/// Trusted: the tag is the named function of key and message and is 32
/// bytes long; `new_from_slice` accepts keys of any length (the `hmac`
/// source hashes long keys and pads short ones), so the result is `Some`.
#[verifier::external_body]
pub(crate) fn hmac_sha256_tag(key: &[u8], message: &[u8]) -> (r: Option<Vec<u8>>)
    ensures
        r is Some,
        r matches Some(t) ==> t@ == hmac_sha256(key@, message@) && t@.len() == 32,
{
    match <hmac::Hmac<sha2::Sha256> as Mac>::new_from_slice(key) {
        Ok(mut mac) => {
            mac.update(message);
            Some(mac.finalize().into_bytes().to_vec())
        },
        Err(_) => None,
    }
}

} // verus!
