//! The ServerHello signature: the last 12 bytes of ServerHello.random carry
//! an HMAC-SHA256 tag that proves knowledge of the session auth key.
use vstd::prelude::*;
use vstd::utf8::encode_utf8;
use crate::crypto::{base64_standard_decode, base64_standard_of, base64_url_decode, base64_url_of, hmac_sha256,
    hmac_sha256_of, sha256, sha256_of};
use crate::wire::copy_range;

verus! {

/// Why a key or a ServerHello was refused.
#[derive(Debug, Clone, Copy, PartialEq, Eq, Structural)]
pub enum AuthError {
    /// The key is Base64 but does not decode to 32 bytes.
    InvalidKeyLength,
    /// The message is shorter than a ServerHello up to its random.
    ServerHelloTooShort,
    /// The message type byte is not 2 (ServerHello).
    NotServerHello,
}

/// The key bytes that a configured key string stands for: Base64 (standard,
/// then URL-safe unpadded) of 32 bytes; else the first 32 bytes of the
/// string itself; else, for a shorter string, its SHA-256 digest.
pub open spec fn key_from_text(s: Seq<char>) -> Result<Seq<u8>, AuthError> {
    if base64_standard_of(s).is_some() {
        if base64_standard_of(s).unwrap().len() == 32 {
            Ok(base64_standard_of(s).unwrap())
        } else {
            Err(AuthError::InvalidKeyLength)
        }
    } else if base64_url_of(s).is_some() {
        if base64_url_of(s).unwrap().len() == 32 {
            Ok(base64_url_of(s).unwrap())
        } else {
            Err(AuthError::InvalidKeyLength)
        }
    } else if encode_utf8(s).len() >= 32 {
        Ok(encode_utf8(s).subrange(0, 32))
    } else {
        Ok(sha256_of(encode_utf8(s)))
    }
}

/// The 12-byte signature over a client random and the first 20 bytes of a
/// server random.
pub open spec fn signature(key: Seq<u8>, client_random: Seq<u8>, server_prefix: Seq<u8>) -> Seq<u8> {
    Seq::new(12, |i: int| hmac_sha256_of(key, client_random + server_prefix)[i])
}

/// A server random with its last 12 bytes replaced by the signature.
pub open spec fn signed_random(key: Seq<u8>, client_random: Seq<u8>, server_random: Seq<u8>) -> Seq<u8> {
    server_random.subrange(0, 20) + signature(key, client_random, server_random.subrange(0, 20))
}

/// Whether the last 12 bytes of `random` sign its first 20.
pub open spec fn signature_valid(key: Seq<u8>, client_random: Seq<u8>, random: Seq<u8>) -> bool {
    random.subrange(20, 32) == signature(key, client_random, random.subrange(0, 20))
}

/// A signed server random carries a valid signature: the HMAC of the client
/// random and its first 20 bytes, cut to 12 bytes, is its last 12 bytes.
pub proof fn signed_random_is_valid(key: Seq<u8>, client_random: Seq<u8>, server_random: Seq<u8>)
    requires
        server_random.len() == 32,
    ensures
        signature_valid(key, client_random, signed_random(key, client_random, server_random)),
        signed_random(key, client_random, server_random).subrange(0, 20) == server_random.subrange(0, 20),
{
    let m = signed_random(key, client_random, server_random);
    assert(m.subrange(0, 20) =~= server_random.subrange(0, 20));
    assert(m.subrange(20, 32) =~= signature(key, client_random, server_random.subrange(0, 20)));
}

/// Signs ServerHello randoms with a 32-byte key.
pub struct RealityAuth {
    private_key_bytes: Vec<u8>,
}

impl RealityAuth {
    pub closed spec fn key(&self) -> Seq<u8> {
        self.private_key_bytes@
    }

    /// Derives the key from its configured text (see `key_from_text`).
    pub fn new(private_key: &str) -> (r: Result<RealityAuth, AuthError>)
        ensures
            match key_from_text(private_key@) {
                Ok(k) => r is Ok && r.unwrap().key() == k,
                Err(e) => r == Err::<RealityAuth, AuthError>(e),
            },
            r is Ok ==> r.unwrap().key().len() == 32,
    {
        let bytes: Vec<u8> = match base64_standard_decode(private_key) {
            Some(d) => {
                if d.len() != 32 {
                    return Err(AuthError::InvalidKeyLength);
                }
                d
            },
            None => match base64_url_decode(private_key) {
                Some(d) => {
                    if d.len() != 32 {
                        return Err(AuthError::InvalidKeyLength);
                    }
                    d
                },
                None => {
                    let raw: &[u8] = private_key.as_bytes();
                    if raw.len() >= 32 {
                        copy_range(raw, 0, 32)
                    } else {
                        let digest = sha256(raw);
                        copy_range(digest.as_slice(), 0, 32)
                    }
                },
            },
        };
        proof {
            if base64_standard_of(private_key@).is_none() && base64_url_of(private_key@).is_none()
                && encode_utf8(private_key@).len() < 32 {
                assert(sha256_of(encode_utf8(private_key@)).subrange(0, 32) =~= sha256_of(encode_utf8(private_key@)));
            }
        }
        Ok(RealityAuth { private_key_bytes: bytes })
    }

    /// Signs with a session auth key.
    pub fn from_auth_key(auth_key: [u8; 32]) -> (r: RealityAuth)
        ensures
            r.key() == auth_key@,
    {
        RealityAuth { private_key_bytes: copy_range(auth_key.as_slice(), 0, 32) }
    }

    /// HMAC-SHA256 under the key of the client random followed by the first
    /// 20 bytes of the server random.
    pub fn generate_auth_tag(&self, client_random: &[u8; 32], server_random: &[u8; 32]) -> (r: [u8; 32])
        ensures
            r@ == hmac_sha256_of(self.key(), client_random@ + server_random@.subrange(0, 20)),
    {
        let mut msg = copy_range(client_random.as_slice(), 0, 32);
        let mut i: usize = 0;
        while i < 20
            invariant
                i <= 20,
                msg@ == client_random@ + server_random@.subrange(0, i as int),
            decreases 20 - i,
        {
            msg.push(server_random[i]);
            i = i + 1;
            assert(msg@ =~= client_random@ + server_random@.subrange(0, i as int));
        }
        assert(client_random@.subrange(0, 32) =~= client_random@);
        hmac_sha256(self.private_key_bytes.as_slice(), msg.as_slice())
    }

    /// The server random with its first 20 bytes kept and its last 12
    /// replaced by the signature.
    pub fn inject_auth_into_random(&self, original_random: &[u8; 32], client_random: &[u8; 32]) -> (r: [u8; 32])
        ensures
            r@ == signed_random(self.key(), client_random@, original_random@),
    {
        let tag = self.generate_auth_tag(client_random, original_random);
        let mut out: [u8; 32] = *original_random;
        let mut i: usize = 20;
        while i < 32
            invariant
                20 <= i <= 32,
                tag@ == hmac_sha256_of(self.key(), client_random@ + original_random@.subrange(0, 20)),
                forall|k: int| 0 <= k < 20 ==> out@[k] == original_random@[k],
                forall|k: int| 20 <= k < i ==> out@[k] == tag@[k - 20],
            decreases 32 - i,
        {
            out[i] = tag[i - 20];
            i = i + 1;
        }
        assert(out@ =~= signed_random(self.key(), client_random@, original_random@));
        out
    }

    /// Whether the first 12 bytes of `received_tag` are the signature of the
    /// two randoms.
    pub fn verify_auth_tag(&self, client_random: &[u8; 32], server_random: &[u8; 32], received_tag: &[u8]) -> (r: bool)
        ensures
            r == (received_tag@.len() >= 12 && received_tag@.subrange(0, 12) == signature(
                self.key(),
                client_random@,
                server_random@.subrange(0, 20),
            )),
    {
        let expected = self.generate_auth_tag(client_random, server_random);
        if received_tag.len() < 12 {
            return false;
        }
        let ok = crate::wire::range_eq(expected.as_slice(), 0, received_tag, 0, 12);
        assert(expected@.subrange(0, 12) =~= signature(self.key(), client_random@, server_random@.subrange(0, 20)));
        ok
    }
}

/// The ServerHello message with its random signed.
pub open spec fn signed_server_hello(key: Seq<u8>, client_random: Seq<u8>, m: Seq<u8>) -> Seq<u8> {
    m.subrange(0, 6) + signed_random(key, client_random, m.subrange(6, 38)) + m.subrange(38, m.len() as int)
}

/// Rewrites ServerHello messages in place.
pub struct ServerHelloModifier {
    auth: RealityAuth,
}

impl ServerHelloModifier {
    pub closed spec fn key(&self) -> Seq<u8> {
        self.auth.key()
    }

    pub fn new(private_key: &str) -> (r: Result<ServerHelloModifier, AuthError>)
        ensures
            match key_from_text(private_key@) {
                Ok(k) => r is Ok && r.unwrap().key() == k,
                Err(e) => r == Err::<ServerHelloModifier, AuthError>(e),
            },
            r is Ok ==> r.unwrap().key().len() == 32,
    {
        match RealityAuth::new(private_key) {
            Ok(auth) => Ok(ServerHelloModifier { auth }),
            Err(e) => Err(e),
        }
    }

    pub fn from_auth(auth: RealityAuth) -> (r: ServerHelloModifier)
        ensures
            r.key() == auth.key(),
    {
        ServerHelloModifier { auth }
    }

    /// Signs the random of a ServerHello handshake message (type byte 2,
    /// random at offset 6); any other message is refused and left as it was.
    pub fn modify_server_hello(&self, server_hello_data: &mut Vec<u8>, client_random: &[u8; 32]) -> (r: Result<(), AuthError>)
        ensures
            old(server_hello_data)@.len() < 38 ==> r == Err::<(), AuthError>(AuthError::ServerHelloTooShort),
            old(server_hello_data)@.len() >= 38 && old(server_hello_data)@[0] != 2 ==> r == Err::<(), AuthError>(
                AuthError::NotServerHello,
            ),
            old(server_hello_data)@.len() >= 38 && old(server_hello_data)@[0] == 2 ==> r is Ok,
            r is Err ==> final(server_hello_data)@ == old(server_hello_data)@,
            r is Ok ==> old(server_hello_data)@.len() >= 38 && old(server_hello_data)@[0] == 2
                && final(server_hello_data)@ == signed_server_hello(self.key(), client_random@, old(server_hello_data)@),
    {
        if server_hello_data.len() < 38 {
            return Err(AuthError::ServerHelloTooShort);
        }
        if server_hello_data[0] != 2 {
            return Err(AuthError::NotServerHello);
        }
        let ghost before = server_hello_data@;
        let mut original: [u8; 32] = [0u8; 32];
        let mut i: usize = 0;
        while i < 32
            invariant
                i <= 32,
                server_hello_data@ == before,
                before.len() >= 38,
                forall|k: int| 0 <= k < i ==> original@[k] == before[6 + k],
            decreases 32 - i,
        {
            original[i] = server_hello_data[6 + i];
            i = i + 1;
        }
        assert(original@ =~= before.subrange(6, 38));
        let modified = self.auth.inject_auth_into_random(&original, client_random);
        let mut j: usize = 0;
        while j < 32
            invariant
                j <= 32,
                server_hello_data@.len() == before.len(),
                before.len() >= 38,
                forall|k: int| 0 <= k < server_hello_data@.len() ==> server_hello_data@[k] == (if 6 <= k < 6 + j {
                    modified@[k - 6]
                } else {
                    before[k]
                }),
            decreases 32 - j,
        {
            server_hello_data.set(6 + j, modified[j]);
            j = j + 1;
        }
        assert(server_hello_data@ =~= signed_server_hello(self.key(), client_random@, before));
        Ok(())
    }
}

} // verus!
