//! The cryptographic primitives Reality is built from, each a call into an
//! outside crate. Results that take a standard to describe are named by
//! uninterpreted functions of their inputs.
use vstd::prelude::*;
use vstd::utf8::encode_utf8;
use aes_gcm::{AeadInPlace, KeyInit};
use base64::Engine;
use hkdf::hmac::Mac;
use sha2::Digest;

verus! {

/// X25519(scalar, point) as x25519-dalek computes it.
pub uninterp spec fn x25519_of(scalar: Seq<u8>, point: Seq<u8>) -> Seq<u8>;

/// HKDF-SHA256 extract with `salt` and `ikm`, then expand with `info` to 32 bytes.
pub uninterp spec fn hkdf32_of(salt: Seq<u8>, ikm: Seq<u8>, info: Seq<u8>) -> Seq<u8>;

/// AES-256-GCM open of `sealed` (ciphertext then 16-byte tag); `None` when
/// the tag does not authenticate.
pub uninterp spec fn gcm_open_of(key: Seq<u8>, nonce: Seq<u8>, aad: Seq<u8>, sealed: Seq<u8>) -> Option<Seq<u8>>;

/// HMAC-SHA256 of `msg` under `key`.
pub uninterp spec fn hmac_sha256_of(key: Seq<u8>, msg: Seq<u8>) -> Seq<u8>;

/// SHA-256 digest of `data`.
pub uninterp spec fn sha256_of(data: Seq<u8>) -> Seq<u8>;

/// Standard-alphabet, padded Base64 decoding of `s`, if it is well formed.
pub uninterp spec fn base64_standard_of(s: Seq<char>) -> Option<Seq<u8>>;

/// Standard-alphabet, padded Base64 encoding of `b`.
pub uninterp spec fn base64_standard_encoding_of(b: Seq<u8>) -> Seq<char>;

/// URL-safe, unpadded Base64 decoding of `s`, if it is well formed.
pub uninterp spec fn base64_url_of(s: Seq<char>) -> Option<Seq<u8>>;

/// X25519 of a scalar and the curve's base point: the public key.
pub uninterp spec fn x25519_base_of(scalar: Seq<u8>) -> Seq<u8>;

/// Relies on x25519-dalek's `PublicKey::from(&StaticSecret)`.
#[verifier::external_body]
pub(crate) fn x25519_public(scalar: [u8; 32]) -> (r: [u8; 32])
    ensures
        r@ == x25519_base_of(scalar@),
{
    x25519_dalek::PublicKey::from(&x25519_dalek::StaticSecret::from(scalar)).to_bytes()
}

/// Relies on rand's `OsRng` filling 32 bytes; nothing is known of them.
#[verifier::external_body]
pub(crate) fn random_scalar() -> (r: [u8; 32]) {
    let mut b = [0u8; 32];
    rand::RngCore::fill_bytes(&mut rand::rngs::OsRng, &mut b);
    b
}

/// Relies on x25519-dalek's `StaticSecret::diffie_hellman`: the shared point
/// is a function of the two 32-byte inputs.
#[verifier::external_body]
pub(crate) fn x25519(scalar: [u8; 32], point: [u8; 32]) -> (r: [u8; 32])
    ensures
        r@ == x25519_of(scalar@, point@),
{
    let secret = x25519_dalek::StaticSecret::from(scalar);
    let public = x25519_dalek::PublicKey::from(point);
    secret.diffie_hellman(&public).to_bytes()
}

/// Relies on hkdf's `Hkdf::<Sha256>::new` and `expand`: 32 bytes of output
/// are within the 255 * 32 limit, so `expand` does not fail.
#[verifier::external_body]
pub(crate) fn hkdf_sha256_32(salt: &[u8], ikm: &[u8], info: &[u8]) -> (r: [u8; 32])
    ensures
        r@ == hkdf32_of(salt@, ikm@, info@),
{
    let hk = hkdf::Hkdf::<sha2::Sha256>::new(Some(salt), ikm);
    let mut okm = [0u8; 32];
    hk.expand(info, &mut okm).expect("32 bytes is a valid HKDF-SHA256 length");
    okm
}

/// Relies on aes-gcm's `Aes256Gcm::decrypt_in_place`: it fails on a buffer
/// shorter than the 16-byte tag or on a tag mismatch, and otherwise leaves
/// the plaintext, 16 bytes shorter than the input.
#[verifier::external_body]
pub(crate) fn aes256gcm_open(key: &[u8; 32], nonce: &[u8; 12], aad: &[u8], sealed: &[u8]) -> (r: Option<Vec<u8>>)
    ensures
        r.is_some() == gcm_open_of(key@, nonce@, aad@, sealed@).is_some(),
        r.is_some() ==> r.unwrap()@ == gcm_open_of(key@, nonce@, aad@, sealed@).unwrap(),
        r.is_some() ==> r.unwrap()@.len() + 16 == sealed@.len(),
{
    let cipher = aes_gcm::Aes256Gcm::new(aes_gcm::Key::<aes_gcm::Aes256Gcm>::from_slice(key));
    let mut buffer = sealed.to_vec();
    match cipher.decrypt_in_place(aes_gcm::Nonce::from_slice(nonce), aad, &mut buffer) {
        Ok(()) => Some(buffer),
        Err(_) => None,
    }
}

/// Relies on hmac's `Hmac::<Sha256>`: any key length is accepted.
#[verifier::external_body]
pub(crate) fn hmac_sha256(key: &[u8], msg: &[u8]) -> (r: [u8; 32])
    ensures
        r@ == hmac_sha256_of(key@, msg@),
{
    let mut mac = <hkdf::hmac::Hmac<sha2::Sha256> as Mac>::new_from_slice(key).expect("HMAC takes any key length");
    mac.update(msg);
    mac.finalize().into_bytes().into()
}

/// Relies on sha2's `Sha256::digest`.
#[verifier::external_body]
pub(crate) fn sha256(data: &[u8]) -> (r: [u8; 32])
    ensures
        r@ == sha256_of(data@),
{
    sha2::Sha256::digest(data).into()
}

/// Relies on base64's `general_purpose::STANDARD.decode`.
#[verifier::external_body]
pub(crate) fn base64_standard_decode(s: &str) -> (r: Option<Vec<u8>>)
    ensures
        r.is_some() == base64_standard_of(s@).is_some(),
        r.is_some() ==> r.unwrap()@ == base64_standard_of(s@).unwrap(),
{
    base64::engine::general_purpose::STANDARD.decode(s).ok()
}

/// Relies on base64's `general_purpose::URL_SAFE_NO_PAD.decode`.
#[verifier::external_body]
pub(crate) fn base64_url_decode(s: &str) -> (r: Option<Vec<u8>>)
    ensures
        r.is_some() == base64_url_of(s@).is_some(),
        r.is_some() ==> r.unwrap()@ == base64_url_of(s@).unwrap(),
{
    base64::engine::general_purpose::URL_SAFE_NO_PAD.decode(s).ok()
}

/// Relies on base64's `general_purpose::STANDARD.encode`; the standard
/// decoder reads the text back to the same bytes.
#[verifier::external_body]
pub(crate) fn base64_standard_encode(b: &[u8]) -> (r: String)
    ensures
        r@ == base64_standard_encoding_of(b@),
        base64_standard_of(r@) == Some(b@),
{
    base64::engine::general_purpose::STANDARD.encode(b)
}

/// The value of one hexadecimal digit byte.
pub open spec fn hex_digit(c: u8) -> Option<u8> {
    if 48 <= c <= 57 {
        Some((c - 48) as u8)
    } else if 97 <= c <= 102 {
        Some((c - 87) as u8)
    } else if 65 <= c <= 70 {
        Some((c - 55) as u8)
    } else {
        None
    }
}

/// Hexadecimal decoding: an even number of digit bytes, two per output byte.
pub open spec fn hex_decoded(b: Seq<u8>) -> Option<Seq<u8>>
    decreases b.len(),
{
    if b.len() == 0 {
        Some(Seq::empty())
    } else if b.len() < 2 || hex_digit(b[0]).is_none() || hex_digit(b[1]).is_none() {
        None
    } else {
        match hex_decoded(b.subrange(2, b.len() as int)) {
            Some(rest) => Some(seq![(hex_digit(b[0]).unwrap() * 16 + hex_digit(b[1]).unwrap()) as u8] + rest),
            None => None,
        }
    }
}

/// Relies on hex's `decode`: odd length or a non-digit byte is an error,
/// else each pair of digits is one byte, high nibble first.
#[verifier::external_body]
pub(crate) fn hex_decode(s: &str) -> (r: Option<Vec<u8>>)
    ensures
        r.is_some() == hex_decoded(encode_utf8(s@)).is_some(),
        r.is_some() ==> r.unwrap()@ == hex_decoded(encode_utf8(s@)).unwrap(),
{
    hex::decode(s).ok()
}

/// The SHA-256 digest of the empty message, the transcript hash that
/// starts the TLS 1.3 key schedule.
pub fn hash_empty() -> (r: [u8; 32])
    ensures
        r@ == sha256_of(Seq::<u8>::empty()),
{
    let empty: Vec<u8> = Vec::new();
    assert(empty@ =~= Seq::<u8>::empty());
    sha256(empty.as_slice())
}

} // verus!
