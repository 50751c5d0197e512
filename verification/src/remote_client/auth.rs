//! Client-side HMAC proof for `session.hello`.
//!
//! The proof is `base64(HMAC-SHA256(device_key, transcript))`, where the
//! transcript is `"superhq:v1:" host ":" device ":"` in UTF-8 followed by
//! the raw bytes of the one-shot nonce from `session.challenge`; the host
//! checks the same bytes.
use crate::codec::{base64_standard, base64_standard_decode, base64_standard_decoded,
    base64_standard_encode, hmac_sha256, hmac_sha256_tag};
use crate::text::{append_str, string_from_chars};
use vstd::prelude::*;
use vstd::utf8::encode_utf8;

verus! {

/// Domain separator that starts every transcript.
pub const DOMAIN: &'static str = "superhq:v1:";

/// Length in bytes of a device key.
pub const DEVICE_KEY_LEN: usize = 32;

/// The text part of the transcript, before the nonce.
pub open spec fn transcript_prefix(host_node_id: Seq<char>, device_id: Seq<char>) -> Seq<char> {
    DOMAIN@ + host_node_id + seq![':'] + device_id + seq![':']
}

/// The bytes the MAC covers.
pub open spec fn proof_transcript(host_node_id: Seq<char>, device_id: Seq<char>, nonce: Seq<u8>) -> Seq<u8> {
    encode_utf8(transcript_prefix(host_node_id, device_id)) + nonce
}

/// The proof a device with `device_key` sends for the given host, device
/// and nonce: standard base64 of the HMAC-SHA256 tag over the transcript.
pub open spec fn proof_text(device_key: Seq<u8>, host_node_id: Seq<char>, device_id: Seq<char>, nonce: Seq<u8>) -> Seq<char> {
    base64_standard(hmac_sha256(device_key, proof_transcript(host_node_id, device_id, nonce)))
}

/// Computes the `session.hello` proof for the nonce the host handed out.
/// A key that is not 32 bytes long is refused with
/// `"device key must be 32 bytes"`; every other key gives the proof.
pub fn compute_proof(device_key: &[u8], host_node_id: &str, device_id: &str, nonce: &[u8]) -> (r: Result<String, &'static str>)
    ensures
        device_key@.len() != DEVICE_KEY_LEN ==> (r matches Err(e) && e@ == "device key must be 32 bytes"@),
        device_key@.len() == DEVICE_KEY_LEN ==> (r matches Ok(p)
            && p@ == proof_text(device_key@, host_node_id@, device_id@, nonce@) && p@.len() == 44),
{
    if device_key.len() != DEVICE_KEY_LEN {
        return Err("device key must be 32 bytes");
    }
    let mut prefix: Vec<char> = Vec::new();
    append_str(&mut prefix, DOMAIN);
    append_str(&mut prefix, host_node_id);
    prefix.push(':');
    append_str(&mut prefix, device_id);
    prefix.push(':');
    let text = string_from_chars(&prefix);
    let mut message: Vec<u8> = Vec::new();
    message.extend_from_slice(text.as_str().as_bytes());
    message.extend_from_slice(nonce);
    proof {
        assert(prefix@ == transcript_prefix(host_node_id@, device_id@));
        assert(message@ == proof_transcript(host_node_id@, device_id@, nonce@));
    }
    match hmac_sha256_tag(device_key, message.as_slice()) {
        Some(tag) => Ok(base64_standard_encode(tag.as_slice())),
        None => Err("hmac init"),
    }
}

/// Decodes a device key from standard base64; text that is not valid base64
/// is refused with `"invalid base64 device key"`.
pub fn decode_device_key(b64: &str) -> (r: Result<Vec<u8>, &'static str>)
    ensures
        match base64_standard_decoded(b64@) {
            Some(bytes) => r matches Ok(k) && k@ == bytes,
            None => r matches Err(e) && e@ == "invalid base64 device key"@,
        },
{
    match base64_standard_decode(b64) {
        Some(k) => Ok(k),
        None => Err("invalid base64 device key"),
    }
}

} // verus!
