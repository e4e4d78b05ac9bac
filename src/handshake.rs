//! The server side of a Reality TLS 1.3 handshake as a sequence of steps:
//! `begin` builds the signed ServerHello, the handshake keys and the bytes
//! the certificate key must sign; `server_flight` seals the server's flight;
//! `on_client_record` follows the client's records up to its Finished. The
//! reads, writes and the signature itself are the caller's.
use vstd::prelude::*;
use crate::auth::{signed_server_hello, RealityAuth, ServerHelloModifier};
use crate::crypto::{x25519_base_of, x25519_of};
use crate::hello::{parse_client_hello, parse_hello, ClientHelloInfo, HelloModel, HelloParse, HelloParseModel};
use crate::reality::{
    certificate_message, certificate_verify_input, certificate_verify_message, empty_encrypted_extensions,
    finished_message, handshake_message, record_end, RealityHandshake,
};
use crate::tls::{record_bytes, server_hello_message, ContentType, ServerHello};
use crate::tls13::{
    app_header, derived_from, early_derived, expand_label, expand_label_prk, gcm128_open_of, gcm128_seal_of, keys_match,
    label_c_ap, label_c_hs, label_finished, label_s_ap, label_s_hs, lemma_strip_padding_bounds, record_nonce,
    ring_hmac_of, ring_sha256, ring_sha256_of, strip_padding, RealityCrypto, SecretPrk, TlsKeys,
};
use crate::wire::{copy_range, push_all};

verus! {

/// Why a handshake step failed.
#[derive(Debug, Clone, Copy, PartialEq, Eq, Structural)]
pub enum HandshakeError {
    /// The buffer does not hold a complete ClientHello with an X25519 key share.
    NoClientHello,
    /// The certificate is too long for its message.
    CertificateTooLong,
    /// A message is too long for its record.
    RecordTooLong,
}

/// The ClientHello fields of a buffer, when it holds a complete ClientHello
/// with a 32-byte X25519 key share.
pub open spec fn hello_of(s: Seq<u8>) -> Option<HelloModel> {
    match parse_hello(s) {
        Ok(HelloParseModel::Hello(h)) => if h.public_key is Some { Some(h) } else { None },
        _ => None,
    }
}

/// The ServerHello of the handshake: it echoes the session id, carries the
/// server's key share, and its random is signed with the session auth key.
pub open spec fn signed_hello(auth_key: Seq<u8>, h: HelloModel, server_random: Seq<u8>, eph_secret: Seq<u8>) -> Seq<u8> {
    signed_server_hello(
        auth_key,
        h.client_random,
        server_hello_message(h.session_id, server_random, x25519_base_of(eph_secret)),
    )
}

/// What the server has built before its certificate key signs.
pub struct HandshakePlan {
    /// The ClientHello handshake message.
    pub client_hello: Vec<u8>,
    /// The signed ServerHello handshake message.
    pub server_hello: Vec<u8>,
    pub encrypted_extensions: Vec<u8>,
    pub certificate: Vec<u8>,
    /// Handshake traffic keys.
    pub keys: TlsKeys,
    pub handshake_secret: SecretPrk,
}

impl RealityHandshake {
    /// Builds what precedes the CertificateVerify: for the ClientHello record
    /// in `record`, the ServerHello signed with `auth_key`, the handshake keys
    /// from the ephemeral key `eph`, the Certificate message of `cert_der`,
    /// and the bytes the certificate key must sign.
    pub fn begin(&self, record: &[u8], auth_key: [u8; 32], eph: &RealityCrypto, server_random: [u8; 32], cert_der: &[u8]) -> (r: Result<(HandshakePlan, Vec<u8>), HandshakeError>)
        ensures
            hello_of(record@) is None ==> r == Err::<(HandshakePlan, Vec<u8>), HandshakeError>(HandshakeError::NoClientHello),
            hello_of(record@) is Some && cert_der@.len() + 9 >= 16777216 ==> r == Err::<(HandshakePlan, Vec<u8>), HandshakeError>(
                HandshakeError::CertificateTooLong,
            ),
            hello_of(record@) is Some && cert_der@.len() + 9 < 16777216 ==> r is Ok && ({
                let (plan, to_sign) = r.unwrap();
                let h = hello_of(record@).unwrap();
                let ch = handshake_message(record@);
                let sh = signed_hello(auth_key@, h, server_random@, eph.secret());
                let shared = x25519_of(eph.secret(), h.public_key.unwrap());
                let th = ring_sha256_of(ch + sh);
                &&& plan.client_hello@ == ch
                &&& plan.server_hello@ == sh
                &&& plan.encrypted_extensions@ == empty_encrypted_extensions()
                &&& plan.certificate@ == certificate_message(cert_der@)
                &&& plan.handshake_secret.salt@ == early_derived()
                &&& plan.handshake_secret.ikm@ == shared
                &&& keys_match(
                    plan.keys,
                    expand_label(early_derived(), shared, label_c_hs(), th, 32),
                    expand_label(early_derived(), shared, label_s_hs(), th, 32),
                )
                &&& to_sign@ == certificate_verify_input(ring_sha256_of(ch + sh + empty_encrypted_extensions() + certificate_message(cert_der@)))
            }),
    {
        let info: ClientHelloInfo = match parse_client_hello(record) {
            Ok(HelloParse::Hello(i)) => i,
            _ => return Err(HandshakeError::NoClientHello),
        };
        let client_key: Vec<u8> = match info.public_key {
            Some(k) => k,
            None => return Err(HandshakeError::NoClientHello),
        };
        if cert_der.len() >= 16777216 - 9 {
            return Err(HandshakeError::CertificateTooLong);
        }
        let ghost h = hello_of(record@).unwrap();
        let len = record.len();
        let n = crate::wire::read_u16(record, 3) as usize;
        let end = if len - 5 < n { len } else { 5 + n };
        let ch = copy_range(record, 5, end);
        let eph_public = eph.get_public_key();
        let hello = match ServerHello::new_reality(info.session_id.as_slice(), server_random, eph_public.as_slice()) {
            Ok(s) => s,
            Err(_) => return Err(HandshakeError::NoClientHello),
        };
        let mut sh = hello.raw_data;
        let modifier = ServerHelloModifier::from_auth(RealityAuth::from_auth_key(auth_key));
        assert(sh@[0] == 2);
        match modifier.modify_server_hello(&mut sh, &info.client_random) {
            Ok(()) => {},
            Err(_) => return Err(HandshakeError::NoClientHello),
        }
        let shared = match eph.derive_shared_secret(client_key.as_slice()) {
            Ok(s) => s,
            Err(_) => return Err(HandshakeError::NoClientHello),
        };
        let mut both: Vec<u8> = Vec::new();
        push_all(&mut both, ch.as_slice());
        push_all(&mut both, sh.as_slice());
        assert(both@ =~= ch@ + sh@);
        let th = ring_sha256(both.as_slice());
        let (keys, secret) = match TlsKeys::derive_handshake_keys(shared.as_slice(), th.as_slice()) {
            Ok(k) => k,
            Err(_) => return Err(HandshakeError::NoClientHello),
        };
        let ee = self.build_encrypted_extensions();
        let cert = match self.build_certificate_message(cert_der) {
            Ok(c) => c,
            Err(_) => return Err(HandshakeError::CertificateTooLong),
        };
        let mut upto_cert = both;
        push_all(&mut upto_cert, ee.as_slice());
        push_all(&mut upto_cert, cert.as_slice());
        let hash_cv = ring_sha256(upto_cert.as_slice());
        let to_sign = self.certificate_verify_input(hash_cv.as_slice());
        let plan = HandshakePlan {
            client_hello: ch,
            server_hello: sh,
            encrypted_extensions: ee,
            certificate: cert,
            keys,
            handshake_secret: secret,
        };
        Ok((plan, to_sign))
    }
}

/// A server record under the handshake keys: handshake content (type 22)
/// sealed as record `seq`.
pub open spec fn server_record(k: TlsKeys, seq: u64, m: Seq<u8>) -> Seq<u8> {
    app_header((m.len() + 17) as u16) + gcm128_seal_of(
        k.server_write_key@,
        record_nonce(k.server_iv@, seq),
        app_header((m.len() + 17) as u16),
        m.push(22),
    )
}

/// The ChangeCipherSpec record sent for middlebox compatibility.
pub open spec fn ccs_record() -> Seq<u8> {
    seq![20u8, 3, 3, 0, 1, 1]
}

/// The Finished message of the holder of `secret` over `transcript`.
pub open spec fn finished_for(secret: Seq<u8>, transcript: Seq<u8>) -> Seq<u8> {
    finished_message(ring_hmac_of(expand_label_prk(secret, label_finished(), Seq::empty(), 32), ring_sha256_of(transcript)))
}

/// Where the server waits for the client's Finished.
pub struct HandshakeState {
    pub keys: TlsKeys,
    pub handshake_secret: SecretPrk,
    /// The transcript hash through the server Finished.
    pub transcript_hash: Vec<u8>,
    /// The client Finished the server expects.
    pub expected_finished: Vec<u8>,
    /// The sequence number of the next protected client record.
    pub read_seq: u64,
}

/// What a client record means for the handshake.
pub enum HandshakeStep {
    /// Keep reading.
    Continue,
    /// The client's Finished is correct: the application traffic keys.
    Done(TlsKeys),
    /// The client sent an alert.
    Alert { level: u8, description: u8 },
    /// The handshake fails.
    Failed,
}

fn same_bytes(a: &[u8], b: &[u8]) -> (r: bool)
    ensures
        r == (a@ == b@),
{
    if a.len() != b.len() {
        return false;
    }
    let r = crate::wire::range_eq(a, 0, b, 0, a.len());
    assert(a@.subrange(0, a@.len() as int) =~= a@);
    assert(b@.subrange(0, b@.len() as int) =~= b@);
    r
}

impl RealityHandshake {
    /// Seals the server flight once the certificate key has signed the
    /// bytes from `begin`: the ServerHello record, a ChangeCipherSpec, then
    /// EncryptedExtensions, Certificate, CertificateVerify and Finished as
    /// protected records 0 to 3. Returns the flight and the state in which
    /// the server waits for the client's Finished.
    pub fn server_flight(&self, plan: HandshakePlan, signature: &[u8]) -> (r: Result<(Vec<u8>, HandshakeState), HandshakeError>)
        ensures
            ({
                let k = plan.keys;
                let cv = certificate_verify_message(signature@);
                let t1 = plan.client_hello@ + plan.server_hello@ + plan.encrypted_extensions@ + plan.certificate@ + cv;
                let fin = finished_for(k.server_traffic_secret@, t1);
                let fits = signature@.len() + 25 <= 65535 && plan.server_hello@.len() <= 65535
                    && plan.encrypted_extensions@.len() + 17 <= 65535 && plan.certificate@.len() + 17 <= 65535;
                &&& fits ==> r is Ok
                &&& r is Ok ==> ({
                    let (flight, st) = r.unwrap();
                    &&& flight@ == record_bytes(ContentType::Handshake, 0x0303, plan.server_hello@) + ccs_record()
                        + server_record(k, 0, plan.encrypted_extensions@) + server_record(k, 1, plan.certificate@)
                        + server_record(k, 2, cv) + server_record(k, 3, fin)
                    &&& st.keys == k
                    &&& st.handshake_secret == plan.handshake_secret
                    &&& st.transcript_hash@ == ring_sha256_of(t1 + fin)
                    &&& st.expected_finished@ == ring_hmac_of(
                        expand_label_prk(k.client_traffic_secret@, label_finished(), Seq::empty(), 32),
                        ring_sha256_of(t1 + fin),
                    )
                    &&& st.read_seq == 0
                })
            }),
    {
        let cv = match self.build_certificate_verify(signature) {
            Ok(m) => m,
            Err(_) => return Err(HandshakeError::RecordTooLong),
        };
        let mut t1: Vec<u8> = Vec::new();
        push_all(&mut t1, plan.client_hello.as_slice());
        push_all(&mut t1, plan.server_hello.as_slice());
        push_all(&mut t1, plan.encrypted_extensions.as_slice());
        push_all(&mut t1, plan.certificate.as_slice());
        push_all(&mut t1, cv.as_slice());
        assert(t1@ =~= plan.client_hello@ + plan.server_hello@ + plan.encrypted_extensions@ + plan.certificate@ + cv@);
        let h1 = ring_sha256(t1.as_slice());
        let vd = TlsKeys::calculate_verify_data(plan.keys.server_traffic_secret.as_slice(), h1.as_slice());
        let fin = match self.build_finished(vd.as_slice()) {
            Ok(m) => m,
            Err(_) => return Err(HandshakeError::RecordTooLong),
        };
        let mut t2 = t1;
        push_all(&mut t2, fin.as_slice());
        let h2 = ring_sha256(t2.as_slice());
        let expected = TlsKeys::calculate_verify_data(plan.keys.client_traffic_secret.as_slice(), h2.as_slice());
        let k = &plan.keys;
        let r0 = match k.encrypt_server_record(0, plan.encrypted_extensions.as_slice(), 22) {
            Ok(x) => x,
            Err(_) => return Err(HandshakeError::RecordTooLong),
        };
        let r1 = match k.encrypt_server_record(1, plan.certificate.as_slice(), 22) {
            Ok(x) => x,
            Err(_) => return Err(HandshakeError::RecordTooLong),
        };
        let r2 = match k.encrypt_server_record(2, cv.as_slice(), 22) {
            Ok(x) => x,
            Err(_) => return Err(HandshakeError::RecordTooLong),
        };
        let r3 = match k.encrypt_server_record(3, fin.as_slice(), 22) {
            Ok(x) => x,
            Err(_) => return Err(HandshakeError::RecordTooLong),
        };
        let hello = ServerHello::from_raw(plan.server_hello);
        let mut flight = match hello.encode() {
            Ok(x) => x,
            Err(_) => return Err(HandshakeError::RecordTooLong),
        };
        let ccs: [u8; 6] = [20, 3, 3, 0, 1, 1];
        assert(ccs@ =~= ccs_record());
        push_all(&mut flight, ccs.as_slice());
        push_all(&mut flight, r0.as_slice());
        push_all(&mut flight, r1.as_slice());
        push_all(&mut flight, r2.as_slice());
        push_all(&mut flight, r3.as_slice());
        assert(flight@ =~= record_bytes(ContentType::Handshake, 0x0303, hello.raw_data@) + ccs_record() + r0@ + r1@ + r2@ + r3@);
        let st = HandshakeState {
            keys: plan.keys,
            handshake_secret: plan.handshake_secret,
            transcript_hash: h2,
            expected_finished: expected,
            read_seq: 0,
        };
        Ok((flight, st))
    }
}

/// The inner plaintext of a protected client record under the handshake
/// keys of `st`, if it opens.
pub open spec fn client_opened(st: HandshakeState, record: Seq<u8>) -> Option<Seq<u8>> {
    gcm128_open_of(
        st.keys.client_write_key@,
        record_nonce(st.keys.client_iv@, st.read_seq),
        record.subrange(0, 5),
        record.subrange(5, record.len() as int),
    )
}

/// The application traffic secrets that follow a handshake secret and the
/// transcript hash through the server Finished.
pub open spec fn app_secrets(hs: SecretPrk, transcript_hash: Seq<u8>) -> (Seq<u8>, Seq<u8>) {
    let master_salt = derived_from(hs.salt@, hs.ikm@);
    let zeros = Seq::new(32, |i: int| 0u8);
    (
        expand_label(master_salt, zeros, label_c_ap(), transcript_hash, 32),
        expand_label(master_salt, zeros, label_s_ap(), transcript_hash, 32),
    )
}

impl RealityHandshake {
    /// Follows one whole client record (header and body) while the server
    /// waits for the client's Finished. A ChangeCipherSpec or an unprotected
    /// record is passed over; a protected record is opened with the client
    /// handshake key: an alert ends the handshake, the expected Finished
    /// completes it with the application keys, a wrong Finished or a record
    /// that does not open fails it, anything else is passed over.
    pub fn on_client_record(&self, st: &mut HandshakeState, record: &[u8]) -> (r: HandshakeStep)
        ensures
            final(st).keys == old(st).keys,
            final(st).handshake_secret == old(st).handshake_secret,
            final(st).transcript_hash == old(st).transcript_hash,
            final(st).expected_finished == old(st).expected_finished,
            record@.len() < 5 ==> r is Failed && final(st).read_seq == old(st).read_seq,
            record@.len() >= 5 && record@[0] != 23 ==> r is Continue && final(st).read_seq == old(st).read_seq,
            record@.len() >= 5 && record@[0] == 23 && old(st).read_seq == u64::MAX ==> r is Failed,
            record@.len() >= 5 && record@[0] == 23 && old(st).read_seq < u64::MAX ==> ({
                let opened = client_opened(*old(st), record@);
                let p = opened.unwrap();
                let at = strip_padding(p, p.len() - 1);
                let inner = p[at];
                let content = p.subrange(0, at);
                &&& (opened is None || p.len() == 0) ==> r is Failed && final(st).read_seq == old(st).read_seq
                &&& (opened is Some && p.len() > 0) ==> {
                    &&& final(st).read_seq == old(st).read_seq + 1
                    &&& inner == 21 ==> r == (HandshakeStep::Alert {
                        level: if content.len() > 0 { content[0] } else { 0 },
                        description: if content.len() > 1 { content[1] } else { 0 },
                    })
                    &&& inner == 22 && content == finished_message(old(st).expected_finished@)
                        && old(st).expected_finished@.len() < 16777216
                        && old(st).transcript_hash@.len() <= 255 ==> r is Done && keys_match(
                        r->Done_0,
                        app_secrets(old(st).handshake_secret, old(st).transcript_hash@).0,
                        app_secrets(old(st).handshake_secret, old(st).transcript_hash@).1,
                    )
                    &&& inner == 22 && content.len() > 0 && content[0] == 20 && (content != finished_message(
                        old(st).expected_finished@,
                    ) || old(st).expected_finished@.len() >= 16777216) ==> r is Failed
                    &&& inner != 21 && !(inner == 22 && content.len() > 0 && content[0] == 20) ==> r is Continue
                }
            }),
    {
        let len = record.len();
        if len < 5 {
            return HandshakeStep::Failed;
        }
        if record[0] != 23 {
            return HandshakeStep::Continue;
        }
        if st.read_seq == u64::MAX {
            return HandshakeStep::Failed;
        }
        let header: [u8; 5] = [record[0], record[1], record[2], record[3], record[4]];
        assert(header@ =~= record@.subrange(0, 5));
        let mut body = copy_range(record, 5, len);
        let (inner, at) = match st.keys.decrypt_client_record(st.read_seq, &header, &mut body) {
            Ok(x) => x,
            Err(_) => return HandshakeStep::Failed,
        };
        proof {
            lemma_strip_padding_bounds(body@, body@.len() - 1);
        }
        st.read_seq = st.read_seq + 1;
        let content = copy_range(body.as_slice(), 0, at);
        if inner == 21 {
            let level = if content.len() > 0 { content[0] } else { 0 };
            let description = if content.len() > 1 { content[1] } else { 0 };
            return HandshakeStep::Alert { level, description };
        }
        if inner == 22 && content.len() > 0 && content[0] == 20 {
            let expected = match self.build_finished(st.expected_finished.as_slice()) {
                Ok(m) => m,
                Err(_) => return HandshakeStep::Failed,
            };
            if !same_bytes(content.as_slice(), expected.as_slice()) {
                return HandshakeStep::Failed;
            }
            return match TlsKeys::derive_application_keys(&st.handshake_secret, st.transcript_hash.as_slice()) {
                Ok(k) => HandshakeStep::Done(k),
                Err(_) => HandshakeStep::Failed,
            };
        }
        HandshakeStep::Continue
    }
}

} // verus!
