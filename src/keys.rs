//! X25519 key pairs for configuration, and their Base64 text.
use vstd::prelude::*;
use crate::crypto::{base64_standard_decode, base64_standard_encode, base64_standard_encoding_of, base64_standard_of,
    random_scalar, x25519_base_of, x25519_public};

verus! {

/// A private X25519 scalar and its public key.
pub struct X25519KeyPair {
    pub private_key: [u8; 32],
    pub public_key: [u8; 32],
}

/// Why a Base64 public key was refused.
#[derive(Debug, Clone, Copy, PartialEq, Eq, Structural)]
pub enum KeyTextError {
    /// Not standard Base64.
    NotBase64,
    /// Fewer than 32 bytes.
    TooShort,
}

/// A fresh key pair from the operating system's random source.
pub fn generate_x25519_keypair() -> (r: X25519KeyPair)
    ensures
        r.public_key@ == x25519_base_of(r.private_key@),
{
    let private_key = random_scalar();
    let public_key = x25519_public(private_key);
    X25519KeyPair { private_key, public_key }
}

pub fn public_key_to_base64(public_key: &[u8; 32]) -> (r: String)
    ensures
        r@ == base64_standard_encoding_of(public_key@),
        base64_standard_of(r@) == Some(public_key@),
{
    base64_standard_encode(public_key.as_slice())
}

pub fn private_key_to_base64(private_key_bytes: &[u8; 32]) -> (r: String)
    ensures
        r@ == base64_standard_encoding_of(private_key_bytes@),
        base64_standard_of(r@) == Some(private_key_bytes@),
{
    base64_standard_encode(private_key_bytes.as_slice())
}

/// The first 32 bytes that standard Base64 text decodes to.
pub fn public_key_from_base64(s: &str) -> (r: Result<[u8; 32], KeyTextError>)
    ensures
        base64_standard_of(s@) is None ==> r == Err::<[u8; 32], KeyTextError>(KeyTextError::NotBase64),
        base64_standard_of(s@) is Some && base64_standard_of(s@).unwrap().len() < 32 ==> r == Err::<[u8; 32], KeyTextError>(
            KeyTextError::TooShort,
        ),
        base64_standard_of(s@) is Some && base64_standard_of(s@).unwrap().len() >= 32 ==> r is Ok && r.unwrap()@
            == base64_standard_of(s@).unwrap().subrange(0, 32),
{
    let bytes = match base64_standard_decode(s) {
        Some(b) => b,
        None => return Err(KeyTextError::NotBase64),
    };
    if bytes.len() < 32 {
        return Err(KeyTextError::TooShort);
    }
    let mut key: [u8; 32] = [0u8; 32];
    let mut i: usize = 0;
    while i < 32
        invariant
            i <= 32,
            bytes@.len() >= 32,
            forall|t: int| 0 <= t < i ==> key@[t] == bytes@[t],
        decreases 32 - i,
    {
        key[i] = bytes[i];
        i = i + 1;
    }
    assert(key@ =~= bytes@.subrange(0, 32));
    Ok(key)
}

} // verus!
