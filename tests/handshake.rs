use aes_gcm::aead::{Aead, KeyInit, Payload};
use hkdf::hmac::Mac;
use sha2::Digest;
use xray_lite::handshake::{HandshakeError, HandshakeStep};
use xray_lite::reality::{Admission, RealityConfig, RealityHandshake, RealityVerifier};
use xray_lite::tls13::RealityCrypto;

const SERVER_KEY: [u8; 32] = [0x42; 32];
const SHORT_ID: [u8; 8] = [0x01, 0x23, 0x45, 0x67, 0x89, 0xab, 0xcd, 0xef];
const CLIENT_SECRET: [u8; 32] = [7u8; 32];

/// A TLS record holding a ClientHello whose session id carries a Reality
/// token with `plain` as plaintext; returns the record and the auth key.
fn reality_hello(plain: [u8; 16]) -> (Vec<u8>, [u8; 32]) {
    let client_secret = x25519_dalek::StaticSecret::from(CLIENT_SECRET);
    let client_public = x25519_dalek::PublicKey::from(&client_secret);
    let server_public = x25519_dalek::PublicKey::from(&x25519_dalek::StaticSecret::from(SERVER_KEY));
    let shared = client_secret.diffie_hellman(&server_public);
    let random: Vec<u8> = (100u8..132).collect();

    let mut body = vec![0x03, 0x03];
    body.extend_from_slice(&random);
    body.push(32);
    body.extend_from_slice(&[0u8; 32]);
    body.extend_from_slice(&[0x00, 0x02, 0x13, 0x01, 0x01, 0x00]);
    let mut ext = Vec::new();
    let name = b"www.example.com";
    ext.extend_from_slice(&[0x00, 0x00]);
    ext.extend_from_slice(&((name.len() + 5) as u16).to_be_bytes());
    ext.extend_from_slice(&((name.len() + 3) as u16).to_be_bytes());
    ext.push(0);
    ext.extend_from_slice(&(name.len() as u16).to_be_bytes());
    ext.extend_from_slice(name);
    ext.extend_from_slice(&[0x00, 0x33, 0x00, 38, 0x00, 36, 0x00, 0x1d, 0x00, 32]);
    ext.extend_from_slice(client_public.as_bytes());
    body.extend_from_slice(&(ext.len() as u16).to_be_bytes());
    body.extend_from_slice(&ext);
    let mut msg = vec![0x01, 0, (body.len() >> 8) as u8, body.len() as u8];
    msg.extend_from_slice(&body);

    let hk = hkdf::Hkdf::<sha2::Sha256>::new(Some(&random[..20]), shared.as_bytes());
    let mut auth_key = [0u8; 32];
    hk.expand(b"REALITY", &mut auth_key).unwrap();
    let cipher = aes_gcm::Aes256Gcm::new_from_slice(&auth_key).unwrap();
    let sealed = cipher
        .encrypt(aes_gcm::Nonce::from_slice(&random[20..]), Payload { msg: &plain, aad: &msg })
        .unwrap();
    assert_eq!(sealed.len(), 32);
    msg[39..71].copy_from_slice(&sealed);

    let mut record = vec![0x16, 0x03, 0x01, (msg.len() >> 8) as u8, msg.len() as u8];
    record.extend_from_slice(&msg);
    (record, auth_key)
}

fn label(prk: &hkdf::Hkdf<sha2::Sha256>, label: &[u8], ctx: &[u8], len: usize) -> Vec<u8> {
    let mut info = (len as u16).to_be_bytes().to_vec();
    info.push(6 + label.len() as u8);
    info.extend_from_slice(b"tls13 ");
    info.extend_from_slice(label);
    info.push(ctx.len() as u8);
    info.extend_from_slice(ctx);
    let mut out = vec![0u8; len];
    prk.expand(&info, &mut out).unwrap();
    out
}

fn from_secret(secret: &[u8]) -> hkdf::Hkdf<sha2::Sha256> {
    hkdf::Hkdf::<sha2::Sha256>::from_prk(secret).unwrap()
}

fn hmac(key: &[u8], msg: &[u8]) -> Vec<u8> {
    let mut m = <hkdf::hmac::Hmac<sha2::Sha256> as Mac>::new_from_slice(key).unwrap();
    m.update(msg);
    m.finalize().into_bytes().to_vec()
}

fn nonce(iv: &[u8], seq: u64) -> Vec<u8> {
    let mut n = iv.to_vec();
    for (i, b) in seq.to_be_bytes().iter().enumerate() {
        n[4 + i] ^= b;
    }
    n
}

fn open(key: &[u8], iv: &[u8], seq: u64, record: &[u8]) -> Vec<u8> {
    let cipher = aes_gcm::Aes128Gcm::new_from_slice(key).unwrap();
    cipher.decrypt(aes_gcm::Nonce::from_slice(&nonce(iv, seq)), Payload { msg: &record[5..], aad: &record[..5] }).unwrap()
}

fn seal(key: &[u8], iv: &[u8], seq: u64, inner: &[u8]) -> Vec<u8> {
    let len = (inner.len() + 16) as u16;
    let mut header = vec![23u8, 3, 3];
    header.extend_from_slice(&len.to_be_bytes());
    let cipher = aes_gcm::Aes128Gcm::new_from_slice(key).unwrap();
    let body = cipher.encrypt(aes_gcm::Nonce::from_slice(&nonce(iv, seq)), Payload { msg: inner, aad: &header }).unwrap();
    header.extend_from_slice(&body);
    header
}

fn config() -> RealityConfig {
    RealityConfig {
        dest: "www.example.com:443".to_string(),
        server_names: vec![],
        private_key: String::new(),
        public_key: None,
        short_ids: vec![],
        fingerprint: "chrome".to_string(),
    }
}

/// Splits a buffer into whole records.
fn records(mut b: &[u8]) -> Vec<Vec<u8>> {
    let mut out = Vec::new();
    while b.len() >= 5 {
        let n = 5 + u16::from_be_bytes([b[3], b[4]]) as usize;
        out.push(b[..n].to_vec());
        b = &b[n..];
    }
    out
}

#[test]
fn reality_handshake_interoperates() {
    let mut plain = [0u8; 16];
    plain[4..12].copy_from_slice(&SHORT_ID);
    let (mut record, auth_key_expected) = reality_hello(plain);
    // Bytes after the ClientHello record in the same read do not disturb it.
    record.extend_from_slice(&[23, 3, 3, 0, 1, 0xEE]);
    let verifier = RealityVerifier::new(SERVER_KEY, vec![SHORT_ID.to_vec()]);
    let auth_key = match verifier.decide(&record, false) {
        Admission::Accept { auth_key, .. } => auth_key,
        other => panic!("unexpected {:?}", other),
    };
    assert_eq!(auth_key, auth_key_expected);

    let cert = rcgen::generate_simple_self_signed(vec!["www.example.com".to_string()]).unwrap();
    let cert_der = cert.serialize_der().unwrap();
    let rng = ring::rand::SystemRandom::new();
    let signer = ring::signature::EcdsaKeyPair::from_pkcs8(
        &ring::signature::ECDSA_P256_SHA256_ASN1_SIGNING,
        &cert.serialize_private_key_der(),
        &rng,
    )
    .unwrap();

    let hs = RealityHandshake::new(config());
    let eph = RealityCrypto::new();
    let server_random = [0x33u8; 32];
    let (plan, to_sign) = hs.begin(&record, auth_key, &eph, server_random, &cert_der).unwrap();
    let signature = signer.sign(&rng, &to_sign).unwrap();
    let (flight, mut st) = hs.server_flight(plan, signature.as_ref()).unwrap();

    // Client side, from RFC 8446 and the outside crates alone.
    let recs = records(&flight);
    assert_eq!(recs.len(), 6);
    assert_eq!(recs[1], vec![20, 3, 3, 0, 1, 1]);
    let ch = record[5..record.len() - 6].to_vec();
    let sh = recs[0][5..].to_vec();
    assert_eq!(sh[0], 2);
    let client_random = &ch[6..38];
    let sr = &sh[6..38];
    let mut signed = client_random.to_vec();
    signed.extend_from_slice(&sr[..20]);
    assert_eq!(&sr[20..32], &hmac(&auth_key, &signed)[..12]);
    assert_eq!(&sr[..20], &server_random[..20]);
    let server_pub: [u8; 32] = sh[sh.len() - 32..].try_into().unwrap();
    let shared = x25519_dalek::StaticSecret::from(CLIENT_SECRET).diffie_hellman(&x25519_dalek::PublicKey::from(server_pub));

    let empty_hash = sha2::Sha256::digest(b"");
    let early = hkdf::Hkdf::<sha2::Sha256>::new(Some(&[0u8; 32]), &[0u8; 32]);
    let derived = label(&early, b"derived", &empty_hash, 32);
    let hs_secret = hkdf::Hkdf::<sha2::Sha256>::new(Some(&derived), shared.as_bytes());
    let mut t = ch.clone();
    t.extend_from_slice(&sh);
    let c_hs = label(&hs_secret, b"c hs traffic", &sha2::Sha256::digest(&t), 32);
    let s_hs = label(&hs_secret, b"s hs traffic", &sha2::Sha256::digest(&t), 32);
    let s_key = label(&from_secret(&s_hs), b"key", &[], 16);
    let s_iv = label(&from_secret(&s_hs), b"iv", &[], 12);

    let mut msgs = Vec::new();
    for (seq, rec) in recs[2..].iter().enumerate() {
        let inner = open(&s_key, &s_iv, seq as u64, rec);
        assert_eq!(*inner.last().unwrap(), 22);
        msgs.push(inner[..inner.len() - 1].to_vec());
    }
    assert_eq!(msgs[0], vec![8, 0, 0, 2, 0, 0]);
    assert_eq!(msgs[1][0], 11);
    assert_eq!(msgs[2][0], 15);
    let sig_len = u16::from_be_bytes([msgs[2][6], msgs[2][7]]) as usize;
    let public = ring::signature::UnparsedPublicKey::new(&ring::signature::ECDSA_P256_SHA256_ASN1, ring::signature::KeyPair::public_key(&signer).as_ref().to_vec());
    for m in &msgs[..2] {
        t.extend_from_slice(m);
    }
    let mut cv_input = vec![0x20u8; 64];
    cv_input.extend_from_slice(b"TLS 1.3, server CertificateVerify");
    cv_input.push(0);
    cv_input.extend_from_slice(&sha2::Sha256::digest(&t));
    public.verify(&cv_input, &msgs[2][8..8 + sig_len]).unwrap();
    t.extend_from_slice(&msgs[2]);
    let s_finished = hmac(&label(&from_secret(&s_hs), b"finished", &[], 32), &sha2::Sha256::digest(&t));
    assert_eq!(&msgs[3][4..], &s_finished[..]);
    t.extend_from_slice(&msgs[3]);

    // The client's CCS, then its Finished.
    assert!(matches!(hs.on_client_record(&mut st, &[20, 3, 3, 0, 1, 1]), HandshakeStep::Continue));
    let c_key = label(&from_secret(&c_hs), b"key", &[], 16);
    let c_iv = label(&from_secret(&c_hs), b"iv", &[], 12);
    let mut fin = vec![20, 0, 0, 32];
    fin.extend_from_slice(&hmac(&label(&from_secret(&c_hs), b"finished", &[], 32), &sha2::Sha256::digest(&t)));
    let mut bad = fin.clone();
    bad[10] ^= 1;
    bad.push(22);
    assert_eq!(st.read_seq, 0);
    fin.push(22);
    let record_fin = seal(&c_key, &c_iv, 0, &fin);
    let app = match hs.on_client_record(&mut st, &record_fin) {
        HandshakeStep::Done(k) => k,
        _ => panic!("client Finished refused"),
    };
    let derived2 = label(&hs_secret, b"derived", &empty_hash, 32);
    let master = hkdf::Hkdf::<sha2::Sha256>::new(Some(&derived2), &[0u8; 32]);
    let c_ap = label(&master, b"c ap traffic", &sha2::Sha256::digest(&t), 32);
    let s_ap = label(&master, b"s ap traffic", &sha2::Sha256::digest(&t), 32);
    assert_eq!(app.client_traffic_secret, c_ap);
    assert_eq!(app.server_traffic_secret, s_ap);
    assert_eq!(app.server_write_key.to_vec(), label(&from_secret(&s_ap), b"key", &[], 16));

    // A wrong Finished fails the handshake; an alert is reported.
    let record_bad = seal(&c_key, &c_iv, 1, &bad);
    assert!(matches!(hs.on_client_record(&mut st, &record_bad), HandshakeStep::Failed));
    let record_alert = seal(&c_key, &c_iv, 2, &[2, 51, 21]);
    assert!(matches!(hs.on_client_record(&mut st, &record_alert), HandshakeStep::Alert { level: 2, description: 51 }));
    assert!(matches!(hs.on_client_record(&mut st, &[23, 3]), HandshakeStep::Failed));
}

#[test]
fn handshake_needs_a_client_hello() {
    let hs = RealityHandshake::new(config());
    let eph = RealityCrypto::new();
    assert_eq!(
        hs.begin(b"GET / HTTP/1.1\r\n", [0u8; 32], &eph, [0u8; 32], &[1, 2, 3]).err(),
        Some(HandshakeError::NoClientHello)
    );
}
