//! The TLS 1.3 key schedule and record protection of the hand-written
//! Reality handshake: HKDF-Expand-Label, traffic keys and IVs, and
//! AES-128-GCM records with the sequence-number nonce.
use vstd::prelude::*;
use crate::crypto::{hash_empty, random_scalar, sha256_of, x25519, x25519_base_of, x25519_of, x25519_public};
use crate::wire::{copy_range, push_all, push_u16, u16_bytes};

verus! {

/// HKDF-SHA256: extract with `salt` and `ikm`, then expand with `info` to
/// one 32-byte block, as ring computes it.
pub uninterp spec fn ring_hkdf32_of(salt: Seq<u8>, ikm: Seq<u8>, info: Seq<u8>) -> Seq<u8>;

/// HKDF-SHA256 expand of the PRK `prk` with `info` to one 32-byte block.
pub uninterp spec fn ring_hkdf_expand32_of(prk: Seq<u8>, info: Seq<u8>) -> Seq<u8>;

/// AES-128-GCM seal: ciphertext followed by the 16-byte tag.
pub uninterp spec fn gcm128_seal_of(key: Seq<u8>, nonce: Seq<u8>, aad: Seq<u8>, plain: Seq<u8>) -> Seq<u8>;

/// AES-128-GCM open of ciphertext-and-tag; `None` when the tag does not authenticate.
pub uninterp spec fn gcm128_open_of(key: Seq<u8>, nonce: Seq<u8>, aad: Seq<u8>, sealed: Seq<u8>) -> Option<Seq<u8>>;

/// HMAC-SHA256 as ring computes it.
pub uninterp spec fn ring_hmac_of(key: Seq<u8>, msg: Seq<u8>) -> Seq<u8>;

/// Relies on ring's `hkdf::Salt::extract` and `Prk::expand` with
/// `HKDF_SHA256` as the output length: 32 bytes never exceed the limit.
#[verifier::external_body]
fn hkdf_expand32(salt: &[u8], ikm: &[u8], info: &[u8]) -> (r: [u8; 32])
    ensures
        r@ == ring_hkdf32_of(salt@, ikm@, info@),
{
    let prk = ring::hkdf::Salt::new(ring::hkdf::HKDF_SHA256, salt).extract(ikm);
    let info_parts = [info];
    let okm = prk.expand(&info_parts, ring::hkdf::HKDF_SHA256).expect("32 bytes is within the HKDF limit");
    let mut out = [0u8; 32];
    okm.fill(&mut out).expect("buffer has the requested length");
    out
}

/// Relies on ring's `hkdf::Prk::new_less_safe` and `Prk::expand` with
/// `HKDF_SHA256`: the bytes are used as the PRK as they are.
#[verifier::external_body]
fn hkdf_expand_prk32(prk: &[u8], info: &[u8]) -> (r: [u8; 32])
    ensures
        r@ == ring_hkdf_expand32_of(prk@, info@),
{
    let key = ring::hkdf::Prk::new_less_safe(ring::hkdf::HKDF_SHA256, prk);
    let info_parts = [info];
    let okm = key.expand(&info_parts, ring::hkdf::HKDF_SHA256).expect("32 bytes is within the HKDF limit");
    let mut out = [0u8; 32];
    okm.fill(&mut out).expect("buffer has the requested length");
    out
}

/// Relies on ring's `LessSafeKey::seal_in_place_append_tag` with
/// `AES_128_GCM`: a 16-byte key is accepted; the output is the ciphertext,
/// as long as the input, then the 16-byte tag. It fails only on inputs beyond
/// the AES-GCM length limits (`MAX_IN_OUT_LEN`, about 64 GiB), far above
/// 65535 bytes; a failure gives `None`.
#[verifier::external_body]
fn aes128gcm_seal(key: &[u8; 16], nonce: [u8; 12], aad: &[u8], plain: &[u8]) -> (r: Option<Vec<u8>>)
    ensures
        plain@.len() <= 65535 && aad@.len() <= 65535 ==> r is Some,
        r is Some ==> r.unwrap()@ == gcm128_seal_of(key@, nonce@, aad@, plain@) && r.unwrap()@.len() == plain@.len() + 16,
{
    let unbound = ring::aead::UnboundKey::new(&ring::aead::AES_128_GCM, key).ok()?;
    let sealing = ring::aead::LessSafeKey::new(unbound);
    let mut buf = plain.to_vec();
    sealing.seal_in_place_append_tag(ring::aead::Nonce::assume_unique_for_key(nonce), ring::aead::Aad::from(aad), &mut buf).ok()?;
    Some(buf)
}

/// Relies on ring's `LessSafeKey::open_in_place` with `AES_128_GCM`: on
/// success the plaintext is 16 bytes shorter than the input.
#[verifier::external_body]
fn aes128gcm_open(key: &[u8; 16], nonce: [u8; 12], aad: &[u8], sealed: &[u8]) -> (r: Option<Vec<u8>>)
    ensures
        r is Some == gcm128_open_of(key@, nonce@, aad@, sealed@) is Some,
        r is Some ==> r.unwrap()@ == gcm128_open_of(key@, nonce@, aad@, sealed@).unwrap() && r.unwrap()@.len() + 16
            == sealed@.len(),
{
    let unbound = ring::aead::UnboundKey::new(&ring::aead::AES_128_GCM, key).ok()?;
    let opening = ring::aead::LessSafeKey::new(unbound);
    let mut buf = sealed.to_vec();
    let plain = opening.open_in_place(ring::aead::Nonce::assume_unique_for_key(nonce), ring::aead::Aad::from(aad), &mut buf).ok()?;
    Some(plain.to_vec())
}

/// Relies on ring's `hmac::sign` with `HMAC_SHA256`: a 32-byte tag.
#[verifier::external_body]
pub(crate) fn ring_hmac_sha256(key: &[u8], msg: &[u8]) -> (r: Vec<u8>)
    ensures
        r@ == ring_hmac_of(key@, msg@),
        r@.len() == 32,
{
    ring::hmac::sign(&ring::hmac::Key::new(ring::hmac::HMAC_SHA256, key), msg).as_ref().to_vec()
}

/// `tls13 ` followed by the label.
pub open spec fn full_label(label: Seq<u8>) -> Seq<u8> {
    seq![116u8, 108, 115, 49, 51, 32] + label
}

/// The HkdfLabel structure: output length, label, context.
pub open spec fn label_info(len: u16, label: Seq<u8>, context: Seq<u8>) -> Seq<u8> {
    u16_bytes(len) + seq![full_label(label).len() as u8] + full_label(label) + seq![context.len() as u8] + context
}

/// HKDF-Expand-Label over the PRK extracted from `salt` and `ikm`; an
/// output of `len` bytes is the first `len` bytes of the first block.
pub open spec fn expand_label(salt: Seq<u8>, ikm: Seq<u8>, label: Seq<u8>, context: Seq<u8>, len: u16) -> Seq<u8> {
    ring_hkdf32_of(salt, ikm, label_info(len, label, context)).subrange(0, len as int)
}

/// HKDF-Expand-Label with `secret` used directly as the PRK (the
/// Derive-Secret and traffic-key steps of RFC 8446).
pub open spec fn expand_label_prk(secret: Seq<u8>, label: Seq<u8>, context: Seq<u8>, len: u16) -> Seq<u8> {
    ring_hkdf_expand32_of(secret, label_info(len, label, context)).subrange(0, len as int)
}

/// Why a key schedule step or a record operation failed.
#[derive(Debug, Clone, Copy, PartialEq, Eq, Structural)]
pub enum TlsKeyError {
    /// A label or context too long for its length byte.
    LabelTooLong,
    /// A record too long for its length field.
    RecordTooLong,
    /// The record did not authenticate.
    DecryptFailed,
    /// The record holds no content type.
    EmptyPlaintext,
    /// The 64-bit record sequence number is used up.
    SequenceExhausted,
}

fn label_info_exec(label: &[u8], context: &[u8], len: u16) -> (r: Vec<u8>)
    requires
        label@.len() <= 249,
        context@.len() <= 255,
    ensures
        r@ == label_info(len, label@, context@),
{
    let mut info: Vec<u8> = Vec::new();
    push_u16(&mut info, len);
    info.push((6 + label.len()) as u8);
    let prefix: [u8; 6] = [116, 108, 115, 49, 51, 32];
    push_all(&mut info, prefix.as_slice());
    push_all(&mut info, label);
    info.push(context.len() as u8);
    push_all(&mut info, context);
    assert(prefix@ + label@ =~= full_label(label@));
    assert(info@ =~= label_info(len, label@, context@));
    info
}

fn expand_label_exec(salt: &[u8], ikm: &[u8], label: &[u8], context: &[u8], len: u16) -> (r: Result<Vec<u8>, TlsKeyError>)
    requires
        len <= 32,
    ensures
        label@.len() <= 249 && context@.len() <= 255 ==> r is Ok && r.unwrap()@ == expand_label(salt@, ikm@, label@, context@, len)
            && r.unwrap()@.len() == len,
        !(label@.len() <= 249 && context@.len() <= 255) ==> r == Err::<Vec<u8>, TlsKeyError>(TlsKeyError::LabelTooLong),
{
    if label.len() > 249 || context.len() > 255 {
        return Err(TlsKeyError::LabelTooLong);
    }
    let info = label_info_exec(label, context, len);
    let block = hkdf_expand32(salt, ikm, info.as_slice());
    Ok(copy_range(block.as_slice(), 0, len as usize))
}

fn expand_label_prk_exec(secret: &[u8], label: &[u8], context: &[u8], len: u16) -> (r: Vec<u8>)
    requires
        len <= 32,
        label@.len() <= 249,
        context@.len() <= 255,
    ensures
        r@ == expand_label_prk(secret@, label@, context@, len),
        r@.len() == len,
{
    let info = label_info_exec(label, context, len);
    let block = hkdf_expand_prk32(secret, info.as_slice());
    copy_range(block.as_slice(), 0, len as usize)
}

pub open spec fn label_derived() -> Seq<u8> { seq![100u8, 101, 114, 105, 118, 101, 100] }
pub open spec fn label_c_hs() -> Seq<u8> { seq![99u8, 32, 104, 115, 32, 116, 114, 97, 102, 102, 105, 99] }
pub open spec fn label_s_hs() -> Seq<u8> { seq![115u8, 32, 104, 115, 32, 116, 114, 97, 102, 102, 105, 99] }
pub open spec fn label_c_ap() -> Seq<u8> { seq![99u8, 32, 97, 112, 32, 116, 114, 97, 102, 102, 105, 99] }
pub open spec fn label_s_ap() -> Seq<u8> { seq![115u8, 32, 97, 112, 32, 116, 114, 97, 102, 102, 105, 99] }
pub open spec fn label_key() -> Seq<u8> { seq![107u8, 101, 121] }
pub open spec fn label_iv() -> Seq<u8> { seq![105u8, 118] }
pub open spec fn label_finished() -> Seq<u8> { seq![102u8, 105, 110, 105, 115, 104, 101, 100] }

/// A PRK, kept as the salt and input key material it is extracted from.
#[derive(Debug, Clone)]
pub struct SecretPrk {
    pub salt: Vec<u8>,
    pub ikm: Vec<u8>,
}

/// Traffic keys, IVs and secrets of both directions.
#[derive(Debug, Clone)]
pub struct TlsKeys {
    pub client_write_key: [u8; 16],
    pub server_write_key: [u8; 16],
    pub client_iv: [u8; 12],
    pub server_iv: [u8; 12],
    pub client_traffic_secret: Vec<u8>,
    pub server_traffic_secret: Vec<u8>,
}

/// Keys derived from a traffic secret, which is used as the PRK.
pub open spec fn traffic_key(secret: Seq<u8>) -> Seq<u8> {
    expand_label_prk(secret, label_key(), Seq::empty(), 16)
}

pub open spec fn traffic_iv(secret: Seq<u8>) -> Seq<u8> {
    expand_label_prk(secret, label_iv(), Seq::empty(), 12)
}

/// The keys of a pair of traffic secrets.
pub open spec fn keys_match(k: TlsKeys, client_secret: Seq<u8>, server_secret: Seq<u8>) -> bool {
    &&& k.client_traffic_secret@ == client_secret
    &&& k.server_traffic_secret@ == server_secret
    &&& k.client_write_key@ == traffic_key(client_secret)
    &&& k.server_write_key@ == traffic_key(server_secret)
    &&& k.client_iv@ == traffic_iv(client_secret)
    &&& k.server_iv@ == traffic_iv(server_secret)
}

/// The `derived` secret taken from a PRK for the next extract.
pub open spec fn derived_from(salt: Seq<u8>, ikm: Seq<u8>) -> Seq<u8> {
    expand_label(salt, ikm, label_derived(), sha256_of(Seq::empty()), 32)
}

/// The early secret's `derived` value: the PRK of an all-zero input with no salt.
pub open spec fn early_derived() -> Seq<u8> {
    derived_from(Seq::empty(), Seq::new(32, |i: int| 0u8))
}

/// The nonce of record `seq`: the IV with the big-endian sequence number
/// XORed into its last eight bytes.
pub open spec fn record_nonce(iv: Seq<u8>, seq: u64) -> Seq<u8> {
    Seq::new(12, |i: int| if i < 4 { iv[i] } else { (iv[i] ^ ((seq >> (8 * (11 - i)) as u64) & 0xff) as u8) as u8 })
}

/// The header of a protected record whose body is `n` bytes.
pub open spec fn app_header(n: u16) -> Seq<u8> {
    seq![23u8, 3, 3] + u16_bytes(n)
}

/// The content type of a decrypted record and the length of its content:
/// trailing zero padding is skipped back to the last non-zero byte (or to
/// the first byte).
pub open spec fn strip_padding(p: Seq<u8>, i: int) -> int
    decreases i,
{
    if i <= 0 || p[i] != 0 {
        i
    } else {
        strip_padding(p, i - 1)
    }
}

pub proof fn lemma_strip_padding_bounds(p: Seq<u8>, i: int)
    requires
        0 <= i < p.len(),
    ensures
        0 <= strip_padding(p, i) <= i,
    decreases i,
{
    if i > 0 && p[i] == 0 {
        lemma_strip_padding_bounds(p, i - 1);
    }
}

fn key_iv(secret: &[u8]) -> (r: ([u8; 16], [u8; 12]))
    ensures
        r.0@ == traffic_key(secret@),
        r.1@ == traffic_iv(secret@),
{
    let empty: Vec<u8> = Vec::new();
    let key_label: [u8; 3] = [107, 101, 121];
    let iv_label: [u8; 2] = [105, 118];
    assert(key_label@ =~= label_key());
    assert(iv_label@ =~= label_iv());
    assert(empty@ =~= Seq::<u8>::empty());
    let k = expand_label_prk_exec(secret, key_label.as_slice(), empty.as_slice(), 16);
    let v = expand_label_prk_exec(secret, iv_label.as_slice(), empty.as_slice(), 12);
    let mut key: [u8; 16] = [0u8; 16];
    let mut iv: [u8; 12] = [0u8; 12];
    let mut i: usize = 0;
    while i < 16
        invariant
            i <= 16,
            k@.len() == 16,
            forall|t: int| 0 <= t < i ==> key@[t] == k@[t],
        decreases 16 - i,
    {
        key[i] = k[i];
        i = i + 1;
    }
    let mut j: usize = 0;
    while j < 12
        invariant
            j <= 12,
            v@.len() == 12,
            forall|t: int| 0 <= t < j ==> iv@[t] == v@[t],
        decreases 12 - j,
    {
        iv[j] = v[j];
        j = j + 1;
    }
    assert(key@ =~= k@);
    assert(iv@ =~= v@);
    (key, iv)
}

impl TlsKeys {
    fn from_secrets(client_secret: Vec<u8>, server_secret: Vec<u8>) -> (r: TlsKeys)
        ensures
            keys_match(r, client_secret@, server_secret@),
    {
        let (ck, civ) = key_iv(client_secret.as_slice());
        let (sk, siv) = key_iv(server_secret.as_slice());
        TlsKeys {
            client_write_key: ck,
            server_write_key: sk,
            client_iv: civ,
            server_iv: siv,
            client_traffic_secret: client_secret,
            server_traffic_secret: server_secret,
        }
    }

    /// Handshake traffic keys from the ECDHE shared secret and the hash of
    /// ClientHello..ServerHello; also returns the handshake secret.
    pub fn derive_handshake_keys(shared_secret: &[u8], hello_hash: &[u8]) -> (r: Result<(TlsKeys, SecretPrk), TlsKeyError>)
        ensures
            hello_hash@.len() > 255 ==> r == Err::<(TlsKeys, SecretPrk), TlsKeyError>(TlsKeyError::LabelTooLong),
            hello_hash@.len() <= 255 ==> r is Ok && ({
                let (k, hs) = r.unwrap();
                &&& hs.salt@ == early_derived()
                &&& hs.ikm@ == shared_secret@
                &&& keys_match(
                    k,
                    expand_label(early_derived(), shared_secret@, label_c_hs(), hello_hash@, 32),
                    expand_label(early_derived(), shared_secret@, label_s_hs(), hello_hash@, 32),
                )
            }),
    {
        if hello_hash.len() > 255 {
            return Err(TlsKeyError::LabelTooLong);
        }
        let empty: Vec<u8> = Vec::new();
        let zeros: Vec<u8> = vec![0u8; 32];
        assert(empty@ =~= Seq::<u8>::empty());
        assert(zeros@ =~= Seq::new(32, |i: int| 0u8));
        let derived_label: [u8; 7] = [100, 101, 114, 105, 118, 101, 100];
        assert(derived_label@ =~= label_derived());
        let he = hash_empty();
        let derived = match expand_label_exec(empty.as_slice(), zeros.as_slice(), derived_label.as_slice(), he.as_slice(), 32) {
            Ok(d) => d,
            Err(e) => return Err(e),
        };
        let c_hs: [u8; 12] = [99, 32, 104, 115, 32, 116, 114, 97, 102, 102, 105, 99];
        let s_hs: [u8; 12] = [115, 32, 104, 115, 32, 116, 114, 97, 102, 102, 105, 99];
        assert(c_hs@ =~= label_c_hs());
        assert(s_hs@ =~= label_s_hs());
        let client = match expand_label_exec(derived.as_slice(), shared_secret, c_hs.as_slice(), hello_hash, 32) {
            Ok(d) => d,
            Err(e) => return Err(e),
        };
        let server = match expand_label_exec(derived.as_slice(), shared_secret, s_hs.as_slice(), hello_hash, 32) {
            Ok(d) => d,
            Err(e) => return Err(e),
        };
        let keys = TlsKeys::from_secrets(client, server);
        let hs = SecretPrk { salt: derived, ikm: copy_range(shared_secret, 0, shared_secret.len()) };
        assert(shared_secret@.subrange(0, shared_secret@.len() as int) =~= shared_secret@);
        Ok((keys, hs))
    }

    /// Application traffic keys from the handshake secret and the hash of
    /// the handshake through the server Finished.
    pub fn derive_application_keys(handshake_secret: &SecretPrk, handshake_hash: &[u8]) -> (r: Result<TlsKeys, TlsKeyError>)
        ensures
            handshake_hash@.len() > 255 ==> r == Err::<TlsKeys, TlsKeyError>(TlsKeyError::LabelTooLong),
            handshake_hash@.len() <= 255 ==> r is Ok && ({
                let master_salt = derived_from(handshake_secret.salt@, handshake_secret.ikm@);
                let zeros = Seq::new(32, |i: int| 0u8);
                keys_match(
                    r.unwrap(),
                    expand_label(master_salt, zeros, label_c_ap(), handshake_hash@, 32),
                    expand_label(master_salt, zeros, label_s_ap(), handshake_hash@, 32),
                )
            }),
    {
        if handshake_hash.len() > 255 {
            return Err(TlsKeyError::LabelTooLong);
        }
        let zeros: Vec<u8> = vec![0u8; 32];
        assert(zeros@ =~= Seq::new(32, |i: int| 0u8));
        let derived_label: [u8; 7] = [100, 101, 114, 105, 118, 101, 100];
        assert(derived_label@ =~= label_derived());
        let he = hash_empty();
        let master_salt = match expand_label_exec(
            handshake_secret.salt.as_slice(),
            handshake_secret.ikm.as_slice(),
            derived_label.as_slice(),
            he.as_slice(),
            32,
        ) {
            Ok(d) => d,
            Err(e) => return Err(e),
        };
        let c_ap: [u8; 12] = [99, 32, 97, 112, 32, 116, 114, 97, 102, 102, 105, 99];
        let s_ap: [u8; 12] = [115, 32, 97, 112, 32, 116, 114, 97, 102, 102, 105, 99];
        assert(c_ap@ =~= label_c_ap());
        assert(s_ap@ =~= label_s_ap());
        let client = match expand_label_exec(master_salt.as_slice(), zeros.as_slice(), c_ap.as_slice(), handshake_hash, 32) {
            Ok(d) => d,
            Err(e) => return Err(e),
        };
        let server = match expand_label_exec(master_salt.as_slice(), zeros.as_slice(), s_ap.as_slice(), handshake_hash, 32) {
            Ok(d) => d,
            Err(e) => return Err(e),
        };
        Ok(TlsKeys::from_secrets(client, server))
    }

    fn nonce(iv: &[u8; 12], seq: u64) -> (r: [u8; 12])
        ensures
            r@ == record_nonce(iv@, seq),
    {
        let mut out: [u8; 12] = *iv;
        let mut i: usize = 4;
        while i < 12
            invariant
                4 <= i <= 12,
                forall|t: int| 0 <= t < 4 ==> out@[t] == iv@[t],
                forall|t: int| 4 <= t < i ==> out@[t] == record_nonce(iv@, seq)[t],
                forall|t: int| i <= t < 12 ==> out@[t] == iv@[t],
            decreases 12 - i,
        {
            let shift: u64 = (8 * (11 - i)) as u64;
            out[i] = iv[i] ^ ((seq >> shift) & 0xff) as u8;
            i = i + 1;
        }
        assert(out@ =~= record_nonce(iv@, seq));
        out
    }

    /// Protects `plaintext` of type `content_type` as server record `seq`:
    /// header (type 23, version 0x0303, length), then the sealed inner
    /// plaintext (content, then its type).
    pub fn encrypt_server_record(&self, seq: u64, plaintext: &[u8], content_type: u8) -> (r: Result<Vec<u8>, TlsKeyError>)
        ensures
            plaintext@.len() + 17 > 65535 ==> r == Err::<Vec<u8>, TlsKeyError>(TlsKeyError::RecordTooLong),
            plaintext@.len() + 17 <= 65535 ==> r is Ok,
            r is Ok ==> ({
                let header = app_header((plaintext@.len() + 17) as u16);
                r.unwrap()@ == header + gcm128_seal_of(
                    self.server_write_key@,
                    record_nonce(self.server_iv@, seq),
                    header,
                    plaintext@.push(content_type),
                )
            }),
    {
        if plaintext.len() > 65535 - 17 {
            return Err(TlsKeyError::RecordTooLong);
        }
        let nonce = Self::nonce(&self.server_iv, seq);
        let mut inner = copy_range(plaintext, 0, plaintext.len());
        inner.push(content_type);
        assert(plaintext@.subrange(0, plaintext@.len() as int).push(content_type) =~= plaintext@.push(content_type));
        let n: u16 = (plaintext.len() + 17) as u16;
        let mut header: Vec<u8> = vec![23u8, 3, 3];
        push_u16(&mut header, n);
        assert(header@ =~= app_header(n));
        let sealed = match aes128gcm_seal(&self.server_write_key, nonce, header.as_slice(), inner.as_slice()) {
            Some(s) => s,
            None => return Err(TlsKeyError::RecordTooLong),
        };
        let mut record = header;
        push_all(&mut record, sealed.as_slice());
        Ok(record)
    }

    /// The Finished verify_data: HMAC of the handshake hash under the
    /// `finished` key of the traffic secret.
    pub fn calculate_verify_data(traffic_secret_bytes: &[u8], handshake_hash: &[u8]) -> (r: Vec<u8>)
        ensures
            r@.len() == 32,
            r@ == ring_hmac_of(
                expand_label_prk(traffic_secret_bytes@, label_finished(), Seq::empty(), 32),
                handshake_hash@,
            ),
    {
        let empty: Vec<u8> = Vec::new();
        assert(empty@ =~= Seq::<u8>::empty());
        let label: [u8; 8] = [102, 105, 110, 105, 115, 104, 101, 100];
        assert(label@ =~= label_finished());
        let key = expand_label_prk_exec(traffic_secret_bytes, label.as_slice(), empty.as_slice(), 32);
        ring_hmac_sha256(key.as_slice(), handshake_hash)
    }

    /// Opens client record `seq` (its body in `ciphertext`, its header in
    /// `header`); on success `ciphertext` holds the inner plaintext and the
    /// content type and content length are returned.
    pub fn decrypt_client_record(&self, seq: u64, header: &[u8; 5], ciphertext: &mut Vec<u8>) -> (r: Result<(u8, usize), TlsKeyError>)
        ensures
            ({
                let opened = gcm128_open_of(self.client_write_key@, record_nonce(self.client_iv@, seq), header@, old(ciphertext)@);
                &&& opened is None ==> r == Err::<(u8, usize), TlsKeyError>(TlsKeyError::DecryptFailed) && final(ciphertext)@ == old(ciphertext)@
                &&& opened is Some && opened.unwrap().len() == 0 ==> r == Err::<(u8, usize), TlsKeyError>(TlsKeyError::EmptyPlaintext)
                &&& opened is Some && opened.unwrap().len() > 0 ==> ({
                    let p = opened.unwrap();
                    let at = strip_padding(p, p.len() - 1);
                    &&& final(ciphertext)@ == p
                    &&& r == Ok::<(u8, usize), TlsKeyError>((p[at], at as usize))
                })
            }),
    {
        let nonce = Self::nonce(&self.client_iv, seq);
        let plain = match aes128gcm_open(&self.client_write_key, nonce, header.as_slice(), ciphertext.as_slice()) {
            Some(p) => p,
            None => return Err(TlsKeyError::DecryptFailed),
        };
        if plain.len() == 0 {
            return Err(TlsKeyError::EmptyPlaintext);
        }
        let mut i: usize = plain.len() - 1;
        while i > 0 && plain[i] == 0
            invariant
                i < plain@.len(),
                strip_padding(plain@, plain@.len() - 1) == strip_padding(plain@, i as int),
            decreases i,
        {
            i = i - 1;
        }
        let content_type = plain[i];
        proof {
            lemma_strip_padding_bounds(plain@, plain@.len() - 1);
        }
        *ciphertext = plain;
        Ok((content_type, i))
    }
}

/// SHA-256 as ring's `digest` computes it.
pub uninterp spec fn ring_sha256_of(data: Seq<u8>) -> Seq<u8>;

/// Relies on ring's `digest::digest` with `SHA256`: a 32-byte digest.
#[verifier::external_body]
pub(crate) fn ring_sha256(data: &[u8]) -> (r: Vec<u8>)
    ensures
        r@ == ring_sha256_of(data@),
        r@.len() == 32,
{
    ring::digest::digest(&ring::digest::SHA256, data).as_ref().to_vec()
}

/// The messages joined in order.
pub open spec fn joined(messages: Seq<Vec<u8>>) -> Seq<u8>
    decreases messages.len(),
{
    if messages.len() == 0 {
        Seq::empty()
    } else {
        joined(messages.drop_last()) + messages.last()@
    }
}

/// The transcript hash: SHA-256 over the messages in order.
pub fn hash_transcript(messages: &[Vec<u8>]) -> (r: Vec<u8>)
    ensures
        r@ == ring_sha256_of(joined(messages@)),
{
    let mut all: Vec<u8> = Vec::new();
    let mut i: usize = 0;
    assert(messages@.subrange(0, 0) =~= Seq::<Vec<u8>>::empty());
    while i < messages.len()
        invariant
            i <= messages@.len(),
            all@ == joined(messages@.subrange(0, i as int)),
        decreases messages@.len() - i,
    {
        push_all(&mut all, messages[i].as_slice());
        assert(messages@.subrange(0, i + 1).drop_last() =~= messages@.subrange(0, i as int));
        i = i + 1;
    }
    assert(messages@.subrange(0, i as int) =~= messages@);
    ring_sha256(all.as_slice())
}

/// The server's ephemeral X25519 key of a hand-written handshake.
pub struct RealityCrypto {
    my_secret: [u8; 32],
}

/// Why a peer key was refused.
#[derive(Debug, Clone, Copy, PartialEq, Eq, Structural)]
pub enum KeyShareError {
    /// The public key is not 32 bytes.
    BadLength,
}

impl RealityCrypto {
    pub closed spec fn secret(&self) -> Seq<u8> {
        self.my_secret@
    }

    /// A fresh random secret.
    pub fn new() -> (r: RealityCrypto) {
        RealityCrypto { my_secret: random_scalar() }
    }

    pub fn get_public_key(&self) -> (r: Vec<u8>)
        ensures
            r@ == x25519_base_of(self.secret()),
            r@.len() == 32,
    {
        let pk = x25519_public(self.my_secret);
        copy_range(pk.as_slice(), 0, 32)
    }

    /// The ECDHE shared secret with a 32-byte peer key.
    pub fn derive_shared_secret(&self, peer_public_bytes: &[u8]) -> (r: Result<Vec<u8>, KeyShareError>)
        ensures
            peer_public_bytes@.len() != 32 ==> r == Err::<Vec<u8>, KeyShareError>(KeyShareError::BadLength),
            peer_public_bytes@.len() == 32 ==> r is Ok && r.unwrap()@ == x25519_of(self.secret(), peer_public_bytes@),
    {
        if peer_public_bytes.len() != 32 {
            return Err(KeyShareError::BadLength);
        }
        let mut point: [u8; 32] = [0u8; 32];
        let mut i: usize = 0;
        while i < 32
            invariant
                i <= 32,
                peer_public_bytes@.len() == 32,
                forall|t: int| 0 <= t < i ==> point@[t] == peer_public_bytes@[t],
            decreases 32 - i,
        {
            point[i] = peer_public_bytes[i];
            i = i + 1;
        }
        assert(point@ =~= peer_public_bytes@);
        let shared = x25519(self.my_secret, point);
        Ok(copy_range(shared.as_slice(), 0, 32))
    }
}

/// The most plaintext bytes gathered into one outgoing record.
pub const MAX_WRITE_BUFFER: usize = 14336;

/// The record layer of a connection after the handshake: incoming records
/// are opened in order and their application data queued for reading;
/// written data is gathered and sealed into records.
pub struct TlsStream<S> {
    stream: S,
    keys: TlsKeys,
    input_buffer: Vec<u8>,
    decrypted_buffer: Vec<u8>,
    write_buffer: Vec<u8>,
    read_seq: u64,
    write_seq: u64,
}

impl<S> TlsStream<S> {
    pub closed spec fn input(&self) -> Seq<u8> {
        self.input_buffer@
    }

    pub closed spec fn readable(&self) -> Seq<u8> {
        self.decrypted_buffer@
    }

    pub closed spec fn pending_write(&self) -> Seq<u8> {
        self.write_buffer@
    }

    pub closed spec fn read_seq(&self) -> u64 {
        self.read_seq
    }

    pub closed spec fn write_seq(&self) -> u64 {
        self.write_seq
    }

    pub closed spec fn keys(&self) -> TlsKeys {
        self.keys
    }

    pub closed spec fn inner(&self) -> S {
        self.stream
    }

    pub fn new(stream: S, keys: TlsKeys) -> (r: TlsStream<S>)
        ensures
            r.input().len() == 0,
            r.readable().len() == 0,
            r.pending_write().len() == 0,
            r.read_seq() == 0,
            r.write_seq() == 0,
            r.keys() == keys,
    {
        TlsStream::new_with_buffer(stream, keys, Vec::new())
    }

    /// Starts with bytes already read from the peer.
    pub fn new_with_buffer(stream: S, keys: TlsKeys, initial_data: Vec<u8>) -> (r: TlsStream<S>)
        ensures
            r.input() == initial_data@,
            r.readable().len() == 0,
            r.pending_write().len() == 0,
            r.read_seq() == 0,
            r.write_seq() == 0,
            r.keys() == keys,
    {
        TlsStream {
            stream,
            keys,
            input_buffer: initial_data,
            decrypted_buffer: Vec::new(),
            write_buffer: Vec::new(),
            read_seq: 0,
            write_seq: 0,
        }
    }

    /// Appends bytes read from the peer.
    pub fn feed(&mut self, data: &[u8])
        ensures
            final(self).input() == old(self).input() + data@,
            final(self).readable() == old(self).readable(),
            final(self).pending_write() == old(self).pending_write(),
            final(self).read_seq() == old(self).read_seq(),
            final(self).write_seq() == old(self).write_seq(),
            final(self).keys() == old(self).keys(),
    {
        push_all(&mut self.input_buffer, data);
    }

    /// Opens the next complete record of the input, if there is one:
    /// `Ok(false)` while it is incomplete. Application data (type 23) is
    /// queued for reading; other types are dropped.
    pub fn process_record(&mut self) -> (r: Result<bool, TlsKeyError>)
        ensures
            final(self).keys() == old(self).keys(),
            final(self).write_seq() == old(self).write_seq(),
            final(self).pending_write() == old(self).pending_write(),
            (old(self).input().len() < 5 || old(self).input().len() - 5 < crate::wire::be16(old(self).input(), 3))
                ==> r == Ok::<bool, TlsKeyError>(false) && final(self).input() == old(self).input()
                && final(self).readable() == old(self).readable() && final(self).read_seq() == old(self).read_seq(),
            !(old(self).input().len() < 5 || old(self).input().len() - 5 < crate::wire::be16(old(self).input(), 3)) ==> ({
                let n = crate::wire::be16(old(self).input(), 3);
                let body = old(self).input().subrange(5, 5 + n);
                let opened = gcm128_open_of(
                    old(self).keys().client_write_key@,
                    record_nonce(old(self).keys().client_iv@, old(self).read_seq()),
                    old(self).input().subrange(0, 5),
                    body,
                );
                let p = opened.unwrap();
                let at = strip_padding(p, p.len() - 1);
                &&& old(self).read_seq() == u64::MAX ==> r == Err::<bool, TlsKeyError>(TlsKeyError::SequenceExhausted)
                &&& old(self).read_seq() < u64::MAX && opened is None ==> r == Err::<bool, TlsKeyError>(TlsKeyError::DecryptFailed)
                &&& old(self).read_seq() < u64::MAX && opened is Some && p.len() == 0 ==> r == Err::<bool, TlsKeyError>(
                    TlsKeyError::EmptyPlaintext,
                )
                &&& old(self).read_seq() < u64::MAX && opened is Some && p.len() > 0 ==> {
                    &&& r == Ok::<bool, TlsKeyError>(true)
                    &&& 0 <= at < p.len()
                    &&& final(self).input() == old(self).input().subrange(5 + n, old(self).input().len() as int)
                    &&& final(self).read_seq() == old(self).read_seq() + 1
                    &&& final(self).readable() == if p[at] == 23 {
                        old(self).readable() + p.subrange(0, at)
                    } else {
                        old(self).readable()
                    }
                }
            }),
    {
        let len = self.input_buffer.len();
        if len < 5 {
            return Ok(false);
        }
        let n = crate::wire::read_u16(self.input_buffer.as_slice(), 3) as usize;
        if len - 5 < n {
            return Ok(false);
        }
        if self.read_seq == u64::MAX {
            return Err(TlsKeyError::SequenceExhausted);
        }
        let header: [u8; 5] = [self.input_buffer[0], self.input_buffer[1], self.input_buffer[2], self.input_buffer[3],
            self.input_buffer[4]];
        assert(header@ =~= self.input_buffer@.subrange(0, 5));
        let mut body = copy_range(self.input_buffer.as_slice(), 5, 5 + n);
        let (content_type, content_len) = match self.keys.decrypt_client_record(self.read_seq, &header, &mut body) {
            Ok(x) => x,
            Err(e) => return Err(e),
        };
        proof {
            lemma_strip_padding_bounds(body@, body@.len() - 1);
        }
        let rest = self.input_buffer.split_off(5 + n);
        self.input_buffer = rest;
        self.read_seq = self.read_seq + 1;
        if content_type == 23 {
            let content = copy_range(body.as_slice(), 0, content_len);
            push_all(&mut self.decrypted_buffer, content.as_slice());
        }
        Ok(true)
    }

    /// Takes at most `max` bytes of application data, oldest first.
    pub fn take_plaintext(&mut self, max: usize) -> (r: Vec<u8>)
        ensures
            old(self).readable() == r@ + final(self).readable(),
            r@.len() == if old(self).readable().len() < max { old(self).readable().len() } else { max as nat },
            final(self).input() == old(self).input(),
            final(self).pending_write() == old(self).pending_write(),
            final(self).read_seq() == old(self).read_seq(),
            final(self).write_seq() == old(self).write_seq(),
            final(self).keys() == old(self).keys(),
    {
        let avail = self.decrypted_buffer.len();
        let n = if avail < max { avail } else { max };
        let mut out = self.decrypted_buffer.split_off(n);
        std::mem::swap(&mut out, &mut self.decrypted_buffer);
        assert(old(self).readable() =~= out@ + self.decrypted_buffer@);
        out
    }

    /// Whether `data` fits in the gathered plaintext without a flush first.
    pub fn fits(&self, data: &[u8]) -> (r: bool)
        ensures
            r == (self.pending_write().len() + data@.len() <= MAX_WRITE_BUFFER),
    {
        self.write_buffer.len() <= MAX_WRITE_BUFFER && data.len() <= MAX_WRITE_BUFFER - self.write_buffer.len()
    }

    /// Gathers written bytes for the next record.
    pub fn buffer_write(&mut self, data: &[u8])
        ensures
            final(self).pending_write() == old(self).pending_write() + data@,
            final(self).input() == old(self).input(),
            final(self).readable() == old(self).readable(),
            final(self).read_seq() == old(self).read_seq(),
            final(self).write_seq() == old(self).write_seq(),
            final(self).keys() == old(self).keys(),
    {
        push_all(&mut self.write_buffer, data);
    }

    /// Seals the gathered bytes into one application-data record, if any.
    pub fn seal_pending(&mut self) -> (r: Result<Option<Vec<u8>>, TlsKeyError>)
        ensures
            final(self).input() == old(self).input(),
            final(self).readable() == old(self).readable(),
            final(self).read_seq() == old(self).read_seq(),
            final(self).keys() == old(self).keys(),
            old(self).pending_write().len() == 0 ==> r == Ok::<Option<Vec<u8>>, TlsKeyError>(None)
                && final(self).write_seq() == old(self).write_seq(),
            r is Ok && r.unwrap() is Some ==> ({
                let p = old(self).pending_write();
                let header = app_header((p.len() + 17) as u16);
                &&& r.unwrap().unwrap()@ == header + gcm128_seal_of(
                    old(self).keys().server_write_key@,
                    record_nonce(old(self).keys().server_iv@, old(self).write_seq()),
                    header,
                    p.push(23),
                )
                &&& final(self).pending_write().len() == 0
                &&& final(self).write_seq() == old(self).write_seq() + 1
            }),
            r is Err ==> final(self).pending_write() == old(self).pending_write() && final(self).write_seq() == old(self).write_seq(),
            old(self).pending_write().len() > 0 && old(self).write_seq() == u64::MAX ==> r == Err::<Option<Vec<u8>>, TlsKeyError>(
                TlsKeyError::SequenceExhausted,
            ),
            old(self).pending_write().len() > 0 && old(self).write_seq() < u64::MAX ==> r != Ok::<Option<Vec<u8>>, TlsKeyError>(None),
            0 < old(self).pending_write().len() <= 65518 && old(self).write_seq() < u64::MAX ==> r is Ok && r.unwrap() is Some,
    {
        if self.write_buffer.len() == 0 {
            return Ok(None);
        }
        if self.write_seq == u64::MAX {
            return Err(TlsKeyError::SequenceExhausted);
        }
        let record = match self.keys.encrypt_server_record(self.write_seq, self.write_buffer.as_slice(), 23) {
            Ok(r) => r,
            Err(e) => return Err(e),
        };
        self.write_seq = self.write_seq + 1;
        self.write_buffer.clear();
        Ok(Some(record))
    }

    pub fn get_mut(&mut self) -> (r: &mut S)
        ensures
            *r == old(self).inner(),
            final(self).inner() == *final(r),
            final(self).input() == old(self).input(),
            final(self).readable() == old(self).readable(),
            final(self).pending_write() == old(self).pending_write(),
            final(self).read_seq() == old(self).read_seq(),
            final(self).write_seq() == old(self).write_seq(),
            final(self).keys() == old(self).keys(),
    {
        &mut self.stream
    }
}

} // verus!
