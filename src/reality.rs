//! Reality admission: authenticate the token a client hides in the
//! ClientHello session id, and decide between the TLS path and a verbatim
//! splice to the camouflage origin.
use vstd::prelude::*;
use crate::crypto::{aes256gcm_open, gcm_open_of, hex_decode, hex_decoded, hkdf32_of, hkdf_sha256_32, x25519, x25519_of, base64_url_decode, base64_url_of, base64_standard_decode, base64_standard_of};
use crate::hello::{parse_client_hello, parse_hello, ClientHelloInfo, HelloModel, HelloParse, HelloParseModel};
use crate::wire::{be16, copy_range, push_all, push_u16, range_eq, read_u16, u16_bytes};

verus! {

/// Reality settings as the configuration file gives them.
#[derive(Debug, Clone)]
pub struct RealityConfig {
    /// Camouflage origin, `host:port`.
    pub dest: String,
    pub server_names: Vec<String>,
    /// X25519 private key, URL-safe Base64 without padding.
    pub private_key: String,
    pub public_key: Option<String>,
    /// Accepted short ids, in hexadecimal.
    pub short_ids: Vec<String>,
    pub fingerprint: String,
}

/// Why Reality settings were refused.
#[derive(Debug, Clone, Copy, PartialEq, Eq, Structural)]
pub enum RealityError {
    /// The camouflage destination is empty.
    EmptyDest,
    /// The private key is empty.
    EmptyPrivateKey,
    /// The private key is not Base64 of exactly 32 bytes.
    InvalidPrivateKey,
    /// A short id is not hexadecimal.
    InvalidShortId,
}

/// The private key bytes a configured key text stands for: URL-safe
/// unpadded Base64, else standard Base64.
pub open spec fn configured_key(s: Seq<char>) -> Option<Seq<u8>> {
    if base64_url_of(s) is Some {
        base64_url_of(s)
    } else {
        base64_standard_of(s)
    }
}

/// The largest ClientHello record admission waits for.
pub const MAX_HELLO_BYTES: usize = 16384;

/// HKDF info string of the Reality auth key.
pub open spec fn reality_info() -> Seq<u8> {
    seq![82u8, 69, 65, 76, 73, 84, 89]
}

/// Where the first record of a buffer ends: after its header and the
/// length the header gives, or at the end of the buffer if that comes first.
pub open spec fn record_end(record: Seq<u8>) -> int {
    if record.len() < 5 + be16(record, 3) { record.len() as int } else { 5 + be16(record, 3) }
}

/// The handshake message inside a buffer: the body of its first record when
/// it starts with a record header; bytes after that record are not part of it.
pub open spec fn handshake_message(record: Seq<u8>) -> Seq<u8> {
    if record.len() > 5 && record[0] == 0x16 {
        record.subrange(5, record_end(record))
    } else {
        record
    }
}

pub open spec fn occurs_at(m: Seq<u8>, sid: Seq<u8>, i: int) -> bool {
    0 <= i && i + sid.len() <= m.len() && m.subrange(i, i + sid.len()) == sid
}

/// The first position at or after `i` where `sid` occurs in `m`.
pub open spec fn first_occurrence(m: Seq<u8>, sid: Seq<u8>, i: int) -> Option<int>
    decreases m.len() + 1 - i,
{
    if i < 0 || i + sid.len() > m.len() {
        None
    } else if occurs_at(m, sid, i) {
        Some(i)
    } else {
        first_occurrence(m, sid, i + 1)
    }
}

/// `m` with `n` bytes from `p` set to zero.
pub open spec fn zero_range(m: Seq<u8>, p: int, n: int) -> Seq<u8> {
    Seq::new(m.len(), |i: int| if p <= i < p + n { 0u8 } else { m[i] })
}

/// The additional data of the token: the handshake message with the session
/// id zeroed where it first occurs (at its usual offset 39 if it is not found).
pub open spec fn token_aad(m: Seq<u8>, sid: Seq<u8>) -> Seq<u8> {
    match first_occurrence(m, sid, 0) {
        Some(p) => zero_range(m, p, 32),
        None => if m.len() >= 71 { zero_range(m, 39, 32) } else { m },
    }
}

/// Whether short id `id` (at most 8 bytes) sits at `off` in the plaintext.
pub open spec fn id_at(p: Seq<u8>, id: Seq<u8>, off: int) -> bool {
    id.len() <= 8 && off + id.len() <= p.len() && p.subrange(off, off + id.len()) == id
}

/// The offset (4 or 8) at which the first configured short id that matches
/// sits, trying offset 4 before 8 for each id.
pub open spec fn short_id_offset(ids: Seq<Seq<u8>>, p: Seq<u8>) -> Option<int>
    decreases ids.len(),
{
    if ids.len() == 0 {
        None
    } else if id_at(p, ids[0], 4) {
        Some(4)
    } else if id_at(p, ids[0], 8) {
        Some(8)
    } else {
        short_id_offset(ids.subrange(1, ids.len() as int), p)
    }
}

/// The auth key of a ClientHello and the offset of its short id, when its
/// session id is a valid Reality token.
pub open spec fn reality_auth(key: Seq<u8>, ids: Seq<Seq<u8>>, h: HelloModel, record: Seq<u8>) -> Option<(Seq<u8>, int)> {
    if h.session_id.len() != 32 || h.public_key.is_none() || h.public_key.unwrap().len() != 32 {
        None
    } else {
        let auth = hkdf32_of(h.client_random.subrange(0, 20), x25519_of(key, h.public_key.unwrap()), reality_info());
        let aad = token_aad(handshake_message(record), h.session_id);
        match gcm_open_of(auth, h.client_random.subrange(20, 32), aad, h.session_id) {
            None => None,
            Some(p) => match short_id_offset(ids, p) {
                Some(off) => Some((auth, off)),
                None => None,
            },
        }
    }
}

/// Whether admission must read more before it decides.
pub open spec fn needs_more(s: Seq<u8>) -> bool {
    s.len() < 5 || (s[0] == 0x16 && s.len() < 5 + be16(s, 3) && s.len() < MAX_HELLO_BYTES)
}

/// What admission does with the bytes read so far.
#[derive(Debug)]
pub enum Admission {
    /// Read more from the client.
    ReadMore,
    /// The client closed before sending anything: close.
    Close,
    /// Dial the camouflage origin, send `prefix` to it, then splice.
    Fallback { prefix: Vec<u8> },
    /// Replay `prefix` into the TLS acceptor keyed with `auth_key`.
    Accept { prefix: Vec<u8>, auth_key: [u8; 32], short_id_offset: usize },
}

pub enum AdmissionModel {
    ReadMore,
    Close,
    Fallback { prefix: Seq<u8> },
    Accept { prefix: Seq<u8>, auth_key: Seq<u8>, short_id_offset: int },
}

impl View for Admission {
    type V = AdmissionModel;

    open spec fn view(&self) -> AdmissionModel {
        match self {
            Admission::ReadMore => AdmissionModel::ReadMore,
            Admission::Close => AdmissionModel::Close,
            Admission::Fallback { prefix } => AdmissionModel::Fallback { prefix: prefix@ },
            Admission::Accept { prefix, auth_key, short_id_offset } => AdmissionModel::Accept {
                prefix: prefix@,
                auth_key: auth_key@,
                short_id_offset: *short_id_offset as int,
            },
        }
    }
}

/// The admission decision on the bytes `s` read so far; `closed` tells
/// whether the client has closed its side.
pub open spec fn admission(key: Seq<u8>, ids: Seq<Seq<u8>>, s: Seq<u8>, closed: bool) -> AdmissionModel {
    if s.len() == 0 && closed {
        AdmissionModel::Close
    } else if needs_more(s) && !closed {
        AdmissionModel::ReadMore
    } else {
        match parse_hello(s) {
            Ok(HelloParseModel::Hello(h)) => match reality_auth(key, ids, h, s) {
                Some((k, off)) => AdmissionModel::Accept { prefix: s, auth_key: k, short_id_offset: off },
                None => AdmissionModel::Fallback { prefix: s },
            },
            _ => AdmissionModel::Fallback { prefix: s },
        }
    }
}

/// A byte stream that does not open with a TLS handshake record is sent,
/// as received, to the camouflage origin, and nothing is sent to the client.
pub proof fn non_tls_falls_back(key: Seq<u8>, ids: Seq<Seq<u8>>, s: Seq<u8>, closed: bool)
    requires
        s.len() > 0,
        s[0] != 0x16,
        s.len() >= 5 || closed,
    ensures
        admission(key, ids, s, closed) == (AdmissionModel::Fallback { prefix: s }),
{
}

/// Whenever admission falls back, the bytes handed to the camouflage origin
/// are exactly the bytes received from the client.
pub proof fn fallback_is_verbatim(key: Seq<u8>, ids: Seq<Seq<u8>>, s: Seq<u8>, closed: bool)
    requires
        admission(key, ids, s, closed) is Fallback,
    ensures
        admission(key, ids, s, closed) == (AdmissionModel::Fallback { prefix: s }),
{
}

/// A configured short id of at most 8 bytes is accepted when the plaintext
/// bytes at offset 4, or at offset 8, of its length are that id.
pub proof fn short_id_accepted(ids: Seq<Seq<u8>>, p: Seq<u8>, i: int)
    requires
        0 <= i < ids.len(),
        ids[i].len() <= 8,
        (4 + ids[i].len() <= p.len() && p.subrange(4, 4 + ids[i].len() as int) == ids[i])
            || (8 + ids[i].len() <= p.len() && p.subrange(8, 8 + ids[i].len() as int) == ids[i]),
    ensures
        short_id_offset(ids, p).is_some(),
    decreases i,
{
    if i > 0 && !id_at(p, ids[0], 4) && !id_at(p, ids[0], 8) {
        let rest = ids.subrange(1, ids.len() as int);
        assert(rest[i - 1] == ids[i]);
        short_id_accepted(rest, p, i - 1);
    }
}

/// A ClientHello whose session id opens, under the auth key derived from
/// its key share, to a plaintext carrying a configured short id at offset 4
/// or 8 is accepted, with that auth key.
pub proof fn reality_token_accepted(key: Seq<u8>, ids: Seq<Seq<u8>>, h: HelloModel, record: Seq<u8>, p: Seq<u8>, i: int)
    requires
        h.session_id.len() == 32,
        h.public_key is Some,
        h.public_key.unwrap().len() == 32,
        gcm_open_of(
            hkdf32_of(h.client_random.subrange(0, 20), x25519_of(key, h.public_key.unwrap()), reality_info()),
            h.client_random.subrange(20, 32),
            token_aad(handshake_message(record), h.session_id),
            h.session_id,
        ) == Some(p),
        0 <= i < ids.len(),
        ids[i].len() <= 8,
        (4 + ids[i].len() <= p.len() && p.subrange(4, 4 + ids[i].len() as int) == ids[i])
            || (8 + ids[i].len() <= p.len() && p.subrange(8, 8 + ids[i].len() as int) == ids[i]),
    ensures
        reality_auth(key, ids, h, record) is Some,
        reality_auth(key, ids, h, record).unwrap().0 == hkdf32_of(
            h.client_random.subrange(0, 20),
            x25519_of(key, h.public_key.unwrap()),
            reality_info(),
        ),
{
    short_id_accepted(ids, p, i);
}

/// Reality keys in the form admission uses them.
pub struct RealityVerifier {
    private_key: [u8; 32],
    short_ids: Vec<Vec<u8>>,
}

impl RealityVerifier {
    pub closed spec fn key(&self) -> Seq<u8> {
        self.private_key@
    }

    pub closed spec fn ids(&self) -> Seq<Seq<u8>> {
        Seq::new(self.short_ids@.len(), |i: int| self.short_ids@[i]@)
    }

    pub fn new(private_key: [u8; 32], short_ids: Vec<Vec<u8>>) -> (r: RealityVerifier)
        ensures
            r.key() == private_key@,
            r.ids() == Seq::new(short_ids@.len(), |i: int| short_ids@[i]@),
    {
        RealityVerifier { private_key, short_ids }
    }

    /// Decodes the private key (URL-safe Base64 without padding, else
    /// standard Base64) and the short ids (hexadecimal) of `cfg`.
    #[verifier::loop_isolation(false)]
    pub fn from_config(cfg: &RealityConfig) -> (r: Result<RealityVerifier, RealityError>)
        ensures
            cfg.dest@.len() == 0 ==> r == Err::<RealityVerifier, RealityError>(RealityError::EmptyDest),
            cfg.dest@.len() > 0 && cfg.private_key@.len() == 0 ==> r == Err::<RealityVerifier, RealityError>(
                RealityError::EmptyPrivateKey,
            ),
            cfg.dest@.len() > 0 && cfg.private_key@.len() > 0 ==> ({
                let k = configured_key(cfg.private_key@);
                &&& (k is None || k.unwrap().len() != 32) ==> r == Err::<RealityVerifier, RealityError>(RealityError::InvalidPrivateKey)
                &&& (k is Some && k.unwrap().len() == 32) ==> match r {
                    Ok(v) => v.key() == k.unwrap()
                        && v.ids().len() == cfg.short_ids@.len()
                        && (forall|i: int| 0 <= i < cfg.short_ids@.len()
                            ==> hex_decoded(vstd::utf8::encode_utf8(#[trigger] cfg.short_ids@[i]@)) == Some(v.ids()[i])),
                    Err(e) => e == RealityError::InvalidShortId
                        && exists|i: int| 0 <= i < cfg.short_ids@.len()
                            && hex_decoded(vstd::utf8::encode_utf8(#[trigger] cfg.short_ids@[i]@)).is_none(),
                }
            }),
    {
        if cfg.dest.as_str().is_empty() {
            return Err(RealityError::EmptyDest);
        }
        if cfg.private_key.as_str().is_empty() {
            return Err(RealityError::EmptyPrivateKey);
        }
        let decoded = match base64_url_decode(cfg.private_key.as_str()) {
            Some(d) => d,
            None => match base64_standard_decode(cfg.private_key.as_str()) {
                Some(d) => d,
                None => return Err(RealityError::InvalidPrivateKey),
            },
        };
        if decoded.len() != 32 {
            return Err(RealityError::InvalidPrivateKey);
        }
        let mut key: [u8; 32] = [0u8; 32];
        let mut j: usize = 0;
        while j < 32
            invariant
                decoded@.len() == 32,
                j <= 32,
                forall|t: int| 0 <= t < j ==> key@[t] == decoded@[t],
            decreases 32 - j,
        {
            key[j] = decoded[j];
            j = j + 1;
        }
        assert(key@ =~= decoded@);
        let mut ids: Vec<Vec<u8>> = Vec::new();
        let mut i: usize = 0;
        while i < cfg.short_ids.len()
            invariant
                i <= cfg.short_ids@.len(),
                ids@.len() == i,
                forall|t: int| 0 <= t < i ==> hex_decoded(vstd::utf8::encode_utf8(#[trigger] cfg.short_ids@[t]@)) == Some(ids@[t]@),
            decreases cfg.short_ids@.len() - i,
        {
            match hex_decode(cfg.short_ids[i].as_str()) {
                Some(b) => ids.push(b),
                None => {
                    assert(hex_decoded(vstd::utf8::encode_utf8(cfg.short_ids@[i as int]@)).is_none());
                    return Err(RealityError::InvalidShortId);
                },
            }
            i = i + 1;
        }
        let v = RealityVerifier { private_key: key, short_ids: ids };
        assert(forall|t: int| 0 <= t < cfg.short_ids@.len() ==> v.ids()[t] == ids@[t]@);
        Ok(v)
    }

    fn short_id_match(&self, p: &Vec<u8>) -> (r: Option<usize>)
        ensures
            match short_id_offset(self.ids(), p@) {
                Some(off) => r.is_some() && r.unwrap() as int == off,
                None => r.is_none(),
            },
    {
        let mut i: usize = 0;
        assert(self.ids().subrange(0, self.ids().len() as int) =~= self.ids());
        while i < self.short_ids.len()
            invariant
                i <= self.short_ids@.len(),
                short_id_offset(self.ids(), p@) == short_id_offset(self.ids().subrange(i as int, self.ids().len() as int), p@),
            decreases self.short_ids@.len() - i,
        {
            let ghost rest = self.ids().subrange(i as int, self.ids().len() as int);
            let id: &Vec<u8> = &self.short_ids[i];
            assert(rest[0] == id@);
            let n = id.len();
            if n <= 8 && 4 + n <= p.len() && range_eq(p.as_slice(), 4, id.as_slice(), 0, n) {
                assert(id@.subrange(0, n as int) =~= id@);
                return Some(4);
            }
            assert(id@.subrange(0, n as int) =~= id@);
            if n <= 8 && 8 + n <= p.len() && range_eq(p.as_slice(), 8, id.as_slice(), 0, n) {
                return Some(8);
            }
            assert(rest.subrange(1, rest.len() as int) =~= self.ids().subrange(i + 1, self.ids().len() as int));
            i = i + 1;
        }
        None
    }

    /// Checks the Reality token in the session id of a parsed ClientHello;
    /// `record` is the buffer the ClientHello was parsed from. Returns the
    /// auth key and the offset of the matched short id.
    #[verifier::loop_isolation(false)]
    pub fn verify(&self, info: &ClientHelloInfo, record: &[u8]) -> (r: Option<([u8; 32], usize)>)
        ensures
            match reality_auth(self.key(), self.ids(), info@, record@) {
                Some((k, off)) => r.is_some() && r.unwrap().0@ == k && r.unwrap().1 as int == off,
                None => r.is_none(),
            },
    {
        if info.session_id.len() != 32 {
            return None;
        }
        let pk: &Vec<u8> = match &info.public_key {
            Some(k) => k,
            None => return None,
        };
        if pk.len() != 32 {
            return None;
        }
        let mut point: [u8; 32] = [0u8; 32];
        let mut j: usize = 0;
        while j < 32
            invariant
                pk@.len() == 32,
                j <= 32,
                forall|t: int| 0 <= t < j ==> point@[t] == pk@[t],
            decreases 32 - j,
        {
            point[j] = pk[j];
            j = j + 1;
        }
        assert(point@ =~= pk@);
        let shared = x25519(self.private_key, point);
        let cr: &[u8; 32] = &info.client_random;
        let salt = copy_range(cr.as_slice(), 0, 20);
        let info_bytes: [u8; 7] = [82u8, 69, 65, 76, 73, 84, 89];
        assert(info_bytes@ =~= reality_info());
        let auth_key = hkdf_sha256_32(salt.as_slice(), shared.as_slice(), info_bytes.as_slice());
        let nonce: [u8; 12] = [cr[20], cr[21], cr[22], cr[23], cr[24], cr[25], cr[26], cr[27], cr[28], cr[29],
            cr[30], cr[31]];
        assert(nonce@ =~= cr@.subrange(20, 32));
        let aad = Self::token_aad(record, info.session_id.as_slice());
        let plain = match aes256gcm_open(&auth_key, &nonce, aad.as_slice(), info.session_id.as_slice()) {
            Some(p) => p,
            None => return None,
        };
        match self.short_id_match(&plain) {
            Some(off) => Some((auth_key, off)),
            None => None,
        }
    }

    fn token_aad(record: &[u8], sid: &[u8]) -> (r: Vec<u8>)
        requires
            sid@.len() == 32,
        ensures
            r@ == token_aad(handshake_message(record@), sid@),
    {
        let m: Vec<u8> = if record.len() > 5 && record[0] == 0x16 {
            let n = read_u16(record, 3) as usize;
            let end = if record.len() - 5 < n { record.len() } else { 5 + n };
            copy_range(record, 5, end)
        } else {
            copy_range(record, 0, record.len())
        };
        assert(record@.subrange(0, record@.len() as int) =~= record@);
        let ghost hm = m@;
        let mut aad = m;
        let mut i: usize = 0;
        let mut found: Option<usize> = None;
        let alen = aad.len();
        while found.is_none() && alen >= 32 && i <= alen - 32
            invariant
                aad@ == hm,
                alen == hm.len(),
                sid@.len() == 32,
                found.is_none() ==> first_occurrence(hm, sid@, 0) == first_occurrence(hm, sid@, i as int),
                found.is_some() ==> first_occurrence(hm, sid@, 0) == Some(found.unwrap() as int)
                    && found.unwrap() + 32 <= hm.len(),
            decreases hm.len() + 2 - i - (if found.is_none() { 0int } else { 1int }),
        {
            assert(sid@.subrange(0, 32) =~= sid@);
            if range_eq(aad.as_slice(), i, sid, 0, 32) {
                found = Some(i);
            } else {
                i = i + 1;
            }
        }
        let start: usize = match found {
            Some(p) => p,
            None => {
                if alen >= 71 {
                    39
                } else {
                    return aad;
                }
            },
        };
        let ghost p0 = start as int;
        let mut t: usize = 0;
        while t < 32
            invariant
                t <= 32,
                p0 == start as int,
                start + 32 <= hm.len(),
                alen == hm.len(),
                aad@.len() == hm.len(),
                forall|k: int| 0 <= k < hm.len() ==> aad@[k] == (if p0 <= k < p0 + t { 0u8 } else { hm[k] }),
            decreases 32 - t,
        {
            aad.set(start + t, 0);
            t = t + 1;
        }
        assert(aad@ =~= zero_range(hm, p0, 32));
        aad
    }

    /// The admission decision on the bytes read so far from a new client;
    /// `closed` tells whether the client has closed its side.
    pub fn decide(&self, buf: &[u8], closed: bool) -> (r: Admission)
        ensures
            r@ == admission(self.key(), self.ids(), buf@, closed),
    {
        let len = buf.len();
        if len == 0 && closed {
            return Admission::Close;
        }
        let more = len < 5 || (buf[0] == 0x16 && len < 5 + read_u16(buf, 3) as usize && len < MAX_HELLO_BYTES);
        if more && !closed {
            return Admission::ReadMore;
        }
        let prefix = copy_range(buf, 0, len);
        assert(buf@.subrange(0, len as int) =~= buf@);
        match parse_client_hello(buf) {
            Ok(HelloParse::Hello(info)) => match self.verify(&info, buf) {
                Some((auth_key, off)) => Admission::Accept { prefix, auth_key, short_id_offset: off },
                None => Admission::Fallback { prefix },
            },
            _ => Admission::Fallback { prefix },
        }
    }
}

/// Server side of a Reality TLS 1.3 handshake for one configuration.
pub struct RealityHandshake {
    config: RealityConfig,
}

/// An EncryptedExtensions handshake message with no extensions.
pub open spec fn empty_encrypted_extensions() -> Seq<u8> {
    seq![8u8, 0, 0, 2, 0, 0]
}

/// Three big-endian bytes of a length below 2^24.
pub open spec fn u24_bytes(n: nat) -> Seq<u8> {
    seq![(n / 65536) as u8, ((n / 256) % 256) as u8, (n % 256) as u8]
}

/// A Certificate message carrying one certificate and no extensions.
pub open spec fn certificate_message(cert: Seq<u8>) -> Seq<u8> {
    let body = seq![0u8] + u24_bytes(cert.len() + 5) + u24_bytes(cert.len()) + cert + seq![0u8, 0];
    seq![11u8] + u24_bytes(body.len()) + body
}

/// `TLS 1.3, server CertificateVerify`
pub open spec fn server_cv_label() -> Seq<u8> {
    seq![84u8, 76, 83, 32, 49, 46, 51, 44, 32, 115, 101, 114, 118, 101, 114, 32, 67, 101, 114, 116, 105, 102, 105,
        99, 97, 116, 101, 86, 101, 114, 105, 102, 121]
}

/// What the server signs: 64 spaces, the context string, a zero byte, the
/// transcript hash.
pub open spec fn certificate_verify_input(hash: Seq<u8>) -> Seq<u8> {
    Seq::new(64, |i: int| 32u8) + server_cv_label() + seq![0u8] + hash
}

/// A CertificateVerify message with an ecdsa_secp256r1_sha256 signature.
pub open spec fn certificate_verify_message(sig: Seq<u8>) -> Seq<u8> {
    seq![15u8] + u24_bytes(sig.len() + 4) + seq![4u8, 3] + u16_bytes(sig.len() as u16) + sig
}

/// A Finished message.
pub open spec fn finished_message(verify_data: Seq<u8>) -> Seq<u8> {
    seq![20u8] + u24_bytes(verify_data.len()) + verify_data
}

/// What an opened client record means while the server waits for the
/// client's Finished.
#[derive(Debug, Clone, Copy, PartialEq, Eq, Structural)]
pub enum ClientFlight {
    /// The client's Finished: the handshake is complete.
    Finished,
    /// An alert: the handshake fails.
    Alert { level: u8, description: u8 },
    /// Anything else: keep reading.
    Continue,
}

/// The meaning of a client record with inner type `inner_type` and content
/// `content`.
pub open spec fn client_flight(inner_type: u8, content: Seq<u8>) -> ClientFlight {
    if inner_type == 21 {
        ClientFlight::Alert {
            level: if content.len() > 0 { content[0] } else { 0 },
            description: if content.len() > 1 { content[1] } else { 0 },
        }
    } else if inner_type == 22 && content.len() > 0 && content[0] == 20 {
        ClientFlight::Finished
    } else {
        ClientFlight::Continue
    }
}

pub fn classify_client_record(inner_type: u8, content: &[u8]) -> (r: ClientFlight)
    ensures
        r == client_flight(inner_type, content@),
{
    if inner_type == 21 {
        let level = if content.len() > 0 { content[0] } else { 0 };
        let description = if content.len() > 1 { content[1] } else { 0 };
        ClientFlight::Alert { level, description }
    } else if inner_type == 22 && content.len() > 0 && content[0] == 20 {
        ClientFlight::Finished
    } else {
        ClientFlight::Continue
    }
}

/// Why a handshake message could not be framed.
#[derive(Debug, Clone, Copy, PartialEq, Eq, Structural)]
pub enum FramingError {
    /// The payload does not fit its length field.
    TooLong,
}

fn push_u24(out: &mut Vec<u8>, n: usize)
    requires
        n < 16777216,
    ensures
        final(out)@ == old(out)@ + u24_bytes(n as nat),
{
    out.push((n / 65536) as u8);
    out.push(((n / 256) % 256) as u8);
    out.push((n % 256) as u8);
    assert(final(out)@ =~= old(out)@ + u24_bytes(n as nat));
}

impl RealityHandshake {
    /// The Certificate message for one DER certificate.
    pub fn build_certificate_message(&self, cert_der: &[u8]) -> (r: Result<Vec<u8>, FramingError>)
        ensures
            cert_der@.len() + 9 >= 16777216 ==> r == Err::<Vec<u8>, FramingError>(FramingError::TooLong),
            cert_der@.len() + 9 < 16777216 ==> r is Ok && r.unwrap()@ == certificate_message(cert_der@),
    {
        if cert_der.len() >= 16777216 - 9 {
            return Err(FramingError::TooLong);
        }
        let n = cert_der.len();
        let mut body: Vec<u8> = Vec::new();
        body.push(0);
        push_u24(&mut body, n + 5);
        push_u24(&mut body, n);
        push_all(&mut body, cert_der);
        body.push(0);
        body.push(0);
        assert(body@ =~= seq![0u8] + u24_bytes((n + 5) as nat) + u24_bytes(n as nat) + cert_der@ + seq![0u8, 0]);
        let mut msg: Vec<u8> = Vec::new();
        msg.push(11);
        push_u24(&mut msg, body.len());
        push_all(&mut msg, body.as_slice());
        assert(msg@ =~= certificate_message(cert_der@));
        Ok(msg)
    }

    /// The bytes the server signs for CertificateVerify.
    pub fn certificate_verify_input(&self, transcript_hash: &[u8]) -> (r: Vec<u8>)
        ensures
            r@ == certificate_verify_input(transcript_hash@),
    {
        let mut out: Vec<u8> = Vec::new();
        let mut i: usize = 0;
        while i < 64
            invariant
                i <= 64,
                out@ == Seq::new(i as nat, |k: int| 32u8),
            decreases 64 - i,
        {
            out.push(32);
            i = i + 1;
            assert(out@ =~= Seq::new(i as nat, |k: int| 32u8));
        }
        let label: [u8; 33] = [84, 76, 83, 32, 49, 46, 51, 44, 32, 115, 101, 114, 118, 101, 114, 32, 67, 101, 114, 116,
            105, 102, 105, 99, 97, 116, 101, 86, 101, 114, 105, 102, 121];
        assert(label@ =~= server_cv_label());
        push_all(&mut out, label.as_slice());
        out.push(0);
        push_all(&mut out, transcript_hash);
        assert(out@ =~= certificate_verify_input(transcript_hash@));
        out
    }

    /// The CertificateVerify message around a signature.
    pub fn build_certificate_verify(&self, signature: &[u8]) -> (r: Result<Vec<u8>, FramingError>)
        ensures
            signature@.len() > 65535 ==> r == Err::<Vec<u8>, FramingError>(FramingError::TooLong),
            signature@.len() <= 65535 ==> r is Ok && r.unwrap()@ == certificate_verify_message(signature@),
    {
        if signature.len() > 65535 {
            return Err(FramingError::TooLong);
        }
        let mut msg: Vec<u8> = Vec::new();
        msg.push(15);
        push_u24(&mut msg, signature.len() + 4);
        msg.push(4);
        msg.push(3);
        push_u16(&mut msg, signature.len() as u16);
        push_all(&mut msg, signature);
        assert(msg@ =~= certificate_verify_message(signature@));
        Ok(msg)
    }

    /// The Finished message around verify_data.
    pub fn build_finished(&self, verify_data: &[u8]) -> (r: Result<Vec<u8>, FramingError>)
        ensures
            verify_data@.len() >= 16777216 ==> r == Err::<Vec<u8>, FramingError>(FramingError::TooLong),
            verify_data@.len() < 16777216 ==> r is Ok && r.unwrap()@ == finished_message(verify_data@),
    {
        if verify_data.len() >= 16777216 {
            return Err(FramingError::TooLong);
        }
        let mut msg: Vec<u8> = Vec::new();
        msg.push(20);
        push_u24(&mut msg, verify_data.len());
        push_all(&mut msg, verify_data);
        assert(msg@ =~= finished_message(verify_data@));
        Ok(msg)
    }

    pub closed spec fn config(&self) -> RealityConfig {
        self.config
    }

    pub fn new(config: RealityConfig) -> (r: RealityHandshake)
        ensures
            r.config() == config,
    {
        RealityHandshake { config }
    }

    /// The EncryptedExtensions message the server sends: type 8, body
    /// length 2, an empty extension list.
    pub fn build_encrypted_extensions(&self) -> (r: Vec<u8>)
        ensures
            r@ == empty_encrypted_extensions(),
    {
        let r: Vec<u8> = vec![8u8, 0, 0, 2, 0, 0];
        assert(r@ =~= empty_encrypted_extensions());
        r
    }
}

/// Replays bytes that were read ahead (the ClientHello that admission
/// inspected) before the reads of the stream it wraps.
pub struct PrefixedStream<S> {
    prefix: Vec<u8>,
    position: usize,
    inner: S,
}

impl<S> PrefixedStream<S> {
    /// The bytes still to replay.
    pub closed spec fn pending(&self) -> Seq<u8> {
        self.prefix@.subrange(self.position as int, self.prefix@.len() as int)
    }

    pub closed spec fn wf(&self) -> bool {
        self.position <= self.prefix@.len()
    }

    pub closed spec fn inner_stream(&self) -> S {
        self.inner
    }

    pub fn new(prefix: Vec<u8>, inner: S) -> (r: PrefixedStream<S>)
        ensures
            r.wf(),
            r.pending() == prefix@,
            r.inner_stream() == inner,
    {
        let r = PrefixedStream { prefix, position: 0, inner };
        assert(r.prefix@.subrange(0, r.prefix@.len() as int) =~= r.prefix@);
        r
    }

    /// The next at most `max` replayed bytes; empty once the prefix is
    /// used up, after which reads go to the inner stream.
    pub fn take_prefix(&mut self, max: usize) -> (r: Vec<u8>)
        requires
            old(self).wf(),
        ensures
            final(self).wf(),
            final(self).inner_stream() == old(self).inner_stream(),
            r@.len() == if old(self).pending().len() < max { old(self).pending().len() } else { max as nat },
            old(self).pending() == r@ + final(self).pending(),
    {
        let avail = self.prefix.len() - self.position;
        let n = if avail < max { avail } else { max };
        let out = crate::wire::copy_range(self.prefix.as_slice(), self.position, self.position + n);
        let ghost before = self.pending();
        self.position = self.position + n;
        assert(before =~= out@ + self.pending());
        out
    }

    /// Whether all replayed bytes have been handed out.
    pub fn prefix_done(&self) -> (r: bool)
        requires
            self.wf(),
        ensures
            r == (self.pending().len() == 0),
    {
        self.position == self.prefix.len()
    }

    pub fn inner_mut(&mut self) -> (r: &mut S)
        ensures
            *r == old(self).inner_stream(),
            final(self).inner_stream() == *final(r),
            final(self).pending() == old(self).pending(),
            final(self).wf() == old(self).wf(),
    {
        &mut self.inner
    }
}

} // verus!
