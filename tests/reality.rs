use aes_gcm::aead::{Aead, KeyInit, Payload};
use hkdf::hmac::Mac;
use xray_lite::auth::{RealityAuth, ServerHelloModifier};
use xray_lite::hello::{parse_client_hello, ClientHelloInfo, HelloParse};
use xray_lite::reality::{Admission, RealityConfig, RealityError, RealityVerifier};

const SERVER_KEY: [u8; 32] = [0x42; 32];
const SHORT_ID: [u8; 8] = [0x01, 0x23, 0x45, 0x67, 0x89, 0xab, 0xcd, 0xef];

fn hmac(key: &[u8], msg: &[u8]) -> [u8; 32] {
    let mut m = <hkdf::hmac::Hmac<sha2::Sha256> as Mac>::new_from_slice(key).unwrap();
    m.update(msg);
    m.finalize().into_bytes().into()
}

/// A TLS record holding a ClientHello whose session id carries a Reality
/// token with `plain` as plaintext; returns the record and the auth key.
fn reality_hello(plain: [u8; 16]) -> (Vec<u8>, [u8; 32]) {
    let client_secret = x25519_dalek::StaticSecret::from([7u8; 32]);
    let client_public = x25519_dalek::PublicKey::from(&client_secret);
    let server_public = x25519_dalek::PublicKey::from(&x25519_dalek::StaticSecret::from(SERVER_KEY));
    let shared = client_secret.diffie_hellman(&server_public);
    let random: Vec<u8> = (100u8..132).collect();

    let mut body = vec![0x03, 0x03];
    body.extend_from_slice(&random);
    body.push(32);
    body.extend_from_slice(&[0u8; 32]);
    body.extend_from_slice(&[0x00, 0x02, 0x13, 0x01, 0x01, 0x00]);
    let mut ext = Vec::new();
    let name = b"www.example.com";
    ext.extend_from_slice(&[0x00, 0x00]);
    ext.extend_from_slice(&((name.len() + 5) as u16).to_be_bytes());
    ext.extend_from_slice(&((name.len() + 3) as u16).to_be_bytes());
    ext.push(0);
    ext.extend_from_slice(&(name.len() as u16).to_be_bytes());
    ext.extend_from_slice(name);
    ext.extend_from_slice(&[0x00, 0x33, 0x00, 38, 0x00, 36, 0x00, 0x1d, 0x00, 32]);
    ext.extend_from_slice(client_public.as_bytes());
    body.extend_from_slice(&(ext.len() as u16).to_be_bytes());
    body.extend_from_slice(&ext);
    let mut msg = vec![0x01, 0, (body.len() >> 8) as u8, body.len() as u8];
    msg.extend_from_slice(&body);

    let hk = hkdf::Hkdf::<sha2::Sha256>::new(Some(&random[..20]), shared.as_bytes());
    let mut auth_key = [0u8; 32];
    hk.expand(b"REALITY", &mut auth_key).unwrap();
    let cipher = aes_gcm::Aes256Gcm::new_from_slice(&auth_key).unwrap();
    let sealed = cipher
        .encrypt(aes_gcm::Nonce::from_slice(&random[20..]), Payload { msg: &plain, aad: &msg })
        .unwrap();
    assert_eq!(sealed.len(), 32);
    msg[39..71].copy_from_slice(&sealed);

    let mut record = vec![0x16, 0x03, 0x01, (msg.len() >> 8) as u8, msg.len() as u8];
    record.extend_from_slice(&msg);
    (record, auth_key)
}

fn hello_info(record: &[u8]) -> ClientHelloInfo {
    match parse_client_hello(record).unwrap() {
        HelloParse::Hello(info) => info,
        other => panic!("unexpected {:?}", other),
    }
}

#[test]
fn hello_parse_outcomes() {
    assert!(matches!(parse_client_hello(b"Hello"), Ok(HelloParse::NotClientHello)));
    assert!(matches!(parse_client_hello(&[0x16, 0x03]), Ok(HelloParse::Incomplete)));
    assert!(matches!(parse_client_hello(&[0x16, 0x03, 0x01, 0x00, 0x10, 1]), Ok(HelloParse::Incomplete)));
    assert!(matches!(parse_client_hello(&[0x16, 0x03, 0x01, 0x00, 0x04, 2, 0, 0, 0]), Ok(HelloParse::NotClientHello)));
    assert!(parse_client_hello(&[0x16, 0x03, 0x01, 0x00, 0x04, 1, 0, 0, 0]).is_err());
}

fn server_side() -> RealityVerifier {
    RealityVerifier::new(SERVER_KEY, vec![SHORT_ID.to_vec()])
}

#[test]
fn fallback_on_garbage() {
    let input = b"Hello non-TLS world".to_vec();
    match server_side().decide(&input, false) {
        Admission::Fallback { prefix } => assert_eq!(prefix, input),
        other => panic!("unexpected {:?}", other),
    }
}

#[test]
fn admission_waits_for_header_and_record() {
    let v = server_side();
    assert!(matches!(v.decide(&[0x16, 0x03], false), Admission::ReadMore));
    assert!(matches!(v.decide(&[0x16, 0x03, 0x01, 0x00, 0x10, 1, 2], false), Admission::ReadMore));
    assert!(matches!(v.decide(&[], true), Admission::Close));
    match v.decide(&[0x16, 0x03, 0x01, 0x00, 0x10, 1, 2], true) {
        Admission::Fallback { prefix } => assert_eq!(prefix, vec![0x16, 0x03, 0x01, 0x00, 0x10, 1, 2]),
        other => panic!("unexpected {:?}", other),
    }
    match v.decide(b"Hi", true) {
        Admission::Fallback { prefix } => assert_eq!(prefix, b"Hi".to_vec()),
        other => panic!("unexpected {:?}", other),
    }
}

#[test]
fn accepts_token_at_offset_four() {
    let mut plain = [0u8; 16];
    plain[0..4].copy_from_slice(&[1, 2, 3, 4]);
    plain[4..12].copy_from_slice(&SHORT_ID);
    let (record, auth_key) = reality_hello(plain);
    let info = hello_info(&record);
    assert_eq!(info.server_name.as_deref(), Some("www.example.com"));
    assert_eq!(info.session_id.len(), 32);
    assert_eq!(server_side().verify(&info, &record), Some((auth_key, 4)));
    match server_side().decide(&record, false) {
        Admission::Accept { prefix, auth_key: k, short_id_offset } => {
            assert_eq!(prefix, record);
            assert_eq!(k, auth_key);
            assert_eq!(short_id_offset, 4);
        }
        other => panic!("unexpected {:?}", other),
    }
}

#[test]
fn accepts_token_at_offset_eight() {
    let mut plain = [0u8; 16];
    plain[0..4].copy_from_slice(&[9, 9, 9, 9]);
    plain[8..16].copy_from_slice(&SHORT_ID);
    let (record, auth_key) = reality_hello(plain);
    let info = hello_info(&record);
    assert_eq!(server_side().verify(&info, &record), Some((auth_key, 8)));
}

#[test]
fn short_id_prefix_of_declared_length() {
    let mut plain = [0u8; 16];
    plain[4..8].copy_from_slice(&[0xde, 0xad, 0xbe, 0xef]);
    let (record, auth_key) = reality_hello(plain);
    let info = hello_info(&record);
    let v = RealityVerifier::new(SERVER_KEY, vec![vec![0x11], vec![0xde, 0xad, 0xbe, 0xef]]);
    assert_eq!(v.verify(&info, &record), Some((auth_key, 4)));
}

#[test]
fn rejects_unknown_short_id_and_wrong_key() {
    let mut plain = [0u8; 16];
    plain[4..12].copy_from_slice(&[0xff; 8]);
    let (record, _) = reality_hello(plain);
    match server_side().decide(&record, false) {
        Admission::Fallback { prefix } => assert_eq!(prefix, record),
        other => panic!("unexpected {:?}", other),
    }
    let empty = RealityVerifier::new(SERVER_KEY, vec![]);
    assert!(matches!(empty.decide(&record, false), Admission::Fallback { .. }));

    let mut good = [0u8; 16];
    good[4..12].copy_from_slice(&SHORT_ID);
    let (record, _) = reality_hello(good);
    let other_key = RealityVerifier::new([0x43; 32], vec![SHORT_ID.to_vec()]);
    match other_key.decide(&record, false) {
        Admission::Fallback { prefix } => assert_eq!(prefix, record),
        other => panic!("unexpected {:?}", other),
    }
}

#[test]
fn verifier_from_config() {
    let cfg = RealityConfig {
        dest: "www.apple.com:443".to_string(),
        server_names: vec!["www.apple.com".to_string()],
        private_key: "QkJCQkJCQkJCQkJCQkJCQkJCQkJCQkJCQkJCQkJCQkI".to_string(),
        public_key: None,
        short_ids: vec!["0123456789abcdef".to_string()],
        fingerprint: "chrome".to_string(),
    };
    let v = RealityVerifier::from_config(&cfg).unwrap();
    let mut plain = [0u8; 16];
    plain[4..12].copy_from_slice(&SHORT_ID);
    let (record, auth_key) = reality_hello(plain);
    let info = hello_info(&record);
    assert_eq!(v.verify(&info, &record), Some((auth_key, 4)));

    let mut bad_hex = cfg.clone();
    bad_hex.short_ids = vec!["zz".to_string()];
    assert_eq!(RealityVerifier::from_config(&bad_hex).err(), Some(RealityError::InvalidShortId));
    let mut bad_key = cfg.clone();
    bad_key.private_key = "QkJC".to_string();
    assert_eq!(RealityVerifier::from_config(&bad_key).err(), Some(RealityError::InvalidPrivateKey));
}

#[test]
fn test_auth_tag_generation() {
    let auth = RealityAuth::new("test_private_key_32_bytes_long!").unwrap();

    let client_random = [1u8; 32];
    let server_random = [2u8; 32];

    let tag1 = auth.generate_auth_tag(&client_random, &server_random);
    let tag2 = auth.generate_auth_tag(&client_random, &server_random);

    assert_eq!(tag1, tag2);
}

#[test]
fn test_auth_injection() {
    let auth = RealityAuth::new("test_private_key_32_bytes_long!").unwrap();

    let client_random = [1u8; 32];
    let original_random = [2u8; 32];

    let modified = auth.inject_auth_into_random(&original_random, &client_random);

    assert_eq!(&modified[..20], &original_random[..20]);

    assert_ne!(&modified[20..], &original_random[20..]);
}

#[test]
fn test_server_hello_modification() {
    let modifier = ServerHelloModifier::new("test_private_key_32_bytes_long!").unwrap();

    let mut server_hello = vec![
        0x02, // Handshake Type: ServerHello
        0x00, 0x00, 0x46, // Length: 70 bytes
        0x03, 0x03, // Version: TLS 1.2
    ];

    server_hello.extend_from_slice(&[0x42u8; 32]);

    server_hello.extend_from_slice(&[
        0x00, // Session ID Length: 0
        0x13, 0x01, // Cipher Suite: TLS_AES_128_GCM_SHA256
        0x00, // Compression Method: null
        0x00, 0x00, // Extensions Length: 0
    ]);

    let client_random = [0x11u8; 32];
    let original_random = server_hello[6..38].to_vec();

    modifier
        .modify_server_hello(&mut server_hello, &client_random)
        .unwrap();

    assert_eq!(&server_hello[6..26], &original_random[..20]);

    assert_ne!(&server_hello[26..38], &original_random[20..32]);
}

#[test]
fn server_hello_injection_determinism() {
    let client_random = [0x99u8; 32];
    let mut initial = [0u8; 32];
    for (i, b) in initial.iter_mut().enumerate() {
        *b = i as u8;
    }
    let first = RealityAuth::from_auth_key([0x42; 32]).inject_auth_into_random(&initial, &client_random);
    let second = RealityAuth::from_auth_key([0x42; 32]).inject_auth_into_random(&initial, &client_random);
    assert_eq!(first[20..32], second[20..32]);
    assert_eq!(first[..20], initial[..20]);
    let mut msg = client_random.to_vec();
    msg.extend_from_slice(&initial[..20]);
    assert_eq!(first[20..32], hmac(&[0x42; 32], &msg)[..12]);
}

#[test]
fn signature_verifies_and_detects_tampering() {
    let auth = RealityAuth::from_auth_key([5u8; 32]);
    let client_random = [3u8; 32];
    let server_random = [4u8; 32];
    let signed = auth.inject_auth_into_random(&server_random, &client_random);
    assert!(auth.verify_auth_tag(&client_random, &signed, &signed[20..32]));
    let mut tampered = signed;
    tampered[31] ^= 1;
    assert!(!auth.verify_auth_tag(&client_random, &signed, &tampered[20..32]));
    assert!(!auth.verify_auth_tag(&client_random, &signed, &signed[20..25]));
}

#[test]
fn key_text_forms() {
    // Standard Base64 of 32 bytes of 'A'.
    let a = RealityAuth::new("QUFBQUFBQUFBQUFBQUFBQUFBQUFBQUFBQUFBQUFBQUE=").unwrap();
    let b = RealityAuth::from_auth_key([b'A'; 32]);
    let cr = [1u8; 32];
    let sr = [2u8; 32];
    assert_eq!(a.generate_auth_tag(&cr, &sr), b.generate_auth_tag(&cr, &sr));
    assert!(RealityAuth::new("QUFB").is_err());
    let raw = RealityAuth::new("this key text is longer than thirty-two bytes!").unwrap();
    let raw32 = RealityAuth::from_auth_key(*b"this key text is longer than thi");
    assert_eq!(raw.generate_auth_tag(&cr, &sr), raw32.generate_auth_tag(&cr, &sr));
}

#[test]
fn modifier_refuses_other_messages() {
    let modifier = ServerHelloModifier::new("test_private_key_32_bytes_long!").unwrap();
    let mut short = vec![0x02; 10];
    assert!(modifier.modify_server_hello(&mut short, &[0u8; 32]).is_err());
    assert_eq!(short, vec![0x02; 10]);
    let mut not_hello = vec![0x01; 40];
    assert!(modifier.modify_server_hello(&mut not_hello, &[0u8; 32]).is_err());
    assert_eq!(not_hello, vec![0x01; 40]);
}

#[test]
fn reality_server_creation() {
    let cfg = RealityConfig {
        dest: "www.apple.com:443".to_string(),
        server_names: vec!["www.apple.com".to_string()],
        // 32 bytes of 'A' in standard Base64
        private_key: "QUFBQUFBQUFBQUFBQUFBQUFBQUFBQUFBQUFBQUFBQUE=".to_string(),
        public_key: None,
        short_ids: vec!["0123456789abcdef".to_string()],
        fingerprint: "chrome".to_string(),
    };
    assert!(RealityVerifier::from_config(&cfg).is_ok());
    let mut no_dest = cfg.clone();
    no_dest.dest = String::new();
    assert_eq!(RealityVerifier::from_config(&no_dest).err(), Some(RealityError::EmptyDest));
    let mut no_key = cfg.clone();
    no_key.private_key = String::new();
    assert_eq!(RealityVerifier::from_config(&no_key).err(), Some(RealityError::EmptyPrivateKey));
}
