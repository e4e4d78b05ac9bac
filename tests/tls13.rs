use hkdf::hmac::Mac;
use sha2::Digest;
use xray_lite::crypto::hash_empty;
use xray_lite::reality::{classify_client_record, ClientFlight, RealityHandshake};
use xray_lite::reality::RealityConfig;
use xray_lite::tls13::{hash_transcript, KeyShareError, RealityCrypto, TlsKeyError, TlsKeys, TlsStream};

fn expand_label(salt: &[u8], ikm: &[u8], label: &[u8], ctx: &[u8], len: usize) -> Vec<u8> {
    let hk = hkdf::Hkdf::<sha2::Sha256>::new(Some(salt), ikm);
    let mut info = (len as u16).to_be_bytes().to_vec();
    info.push(6 + label.len() as u8);
    info.extend_from_slice(b"tls13 ");
    info.extend_from_slice(label);
    info.push(ctx.len() as u8);
    info.extend_from_slice(ctx);
    let mut out = vec![0u8; len];
    hk.expand(&info, &mut out).unwrap();
    out
}

/// HKDF-Expand-Label with the secret itself as the PRK, as RFC 8446 derives
/// traffic keys and the finished key.
fn expand_label_from_secret(secret: &[u8], label: &[u8], ctx: &[u8], len: usize) -> Vec<u8> {
    let hk = hkdf::Hkdf::<sha2::Sha256>::from_prk(secret).unwrap();
    let mut info = (len as u16).to_be_bytes().to_vec();
    info.push(6 + label.len() as u8);
    info.extend_from_slice(b"tls13 ");
    info.extend_from_slice(label);
    info.push(ctx.len() as u8);
    info.extend_from_slice(ctx);
    let mut out = vec![0u8; len];
    hk.expand(&info, &mut out).unwrap();
    out
}

#[test]
fn handshake_keys_follow_the_schedule() {
    let shared = [0x11u8; 32];
    let hello_hash = [0x22u8; 32];
    let (keys, hs) = TlsKeys::derive_handshake_keys(&shared, &hello_hash).unwrap();
    let derived = expand_label(&[], &[0u8; 32], b"derived", &sha2::Sha256::digest(b""), 32);
    assert_eq!(hs.salt, derived);
    assert_eq!(hs.ikm, shared.to_vec());
    let c_hs = expand_label(&derived, &shared, b"c hs traffic", &hello_hash, 32);
    let s_hs = expand_label(&derived, &shared, b"s hs traffic", &hello_hash, 32);
    assert_eq!(keys.client_traffic_secret, c_hs);
    assert_eq!(keys.server_traffic_secret, s_hs);
    assert_eq!(keys.client_write_key.to_vec(), expand_label_from_secret(&c_hs, b"key", &[], 16));
    assert_eq!(keys.server_iv.to_vec(), expand_label_from_secret(&s_hs, b"iv", &[], 12));

    let app = TlsKeys::derive_application_keys(&hs, &[0x33u8; 32]).unwrap();
    let master_salt = expand_label(&derived, &shared, b"derived", &sha2::Sha256::digest(b""), 32);
    assert_eq!(app.client_traffic_secret, expand_label(&master_salt, &[0u8; 32], b"c ap traffic", &[0x33u8; 32], 32));
    assert_eq!(TlsKeys::derive_handshake_keys(&shared, &[0u8; 300]).err(), Some(TlsKeyError::LabelTooLong));
}

#[test]
fn verify_data_is_hmac_under_finished_key() {
    let secret = [0x44u8; 32];
    let hash = [0x55u8; 32];
    let key = expand_label_from_secret(&secret, b"finished", &[], 32);
    let mut mac = <hkdf::hmac::Hmac<sha2::Sha256> as Mac>::new_from_slice(&key).unwrap();
    mac.update(&hash);
    let expected = mac.finalize().into_bytes().to_vec();
    assert_eq!(TlsKeys::calculate_verify_data(&secret, &hash), expected);
}

#[test]
fn records_round_trip() {
    let (k, _) = TlsKeys::derive_handshake_keys(&[1u8; 32], &[2u8; 32]).unwrap();
    let mirrored = TlsKeys {
        client_write_key: k.server_write_key,
        server_write_key: k.server_write_key,
        client_iv: k.server_iv,
        server_iv: k.server_iv,
        client_traffic_secret: k.server_traffic_secret.clone(),
        server_traffic_secret: k.server_traffic_secret.clone(),
    };
    let record = mirrored.encrypt_server_record(7, b"hello", 23).unwrap();
    assert_eq!(&record[..5], &[23, 3, 3, 0, 22]);
    assert_ne!(&record[5..10], b"hello");
    let other = mirrored.encrypt_server_record(8, b"hello", 23).unwrap();
    assert_ne!(record, other);
    let header: [u8; 5] = record[..5].try_into().unwrap();
    let mut body = record[5..].to_vec();
    assert_eq!(mirrored.decrypt_client_record(7, &header, &mut body), Ok((23, 5)));
    assert_eq!(&body[..5], b"hello");
    let mut wrong_seq = record[5..].to_vec();
    assert_eq!(mirrored.decrypt_client_record(8, &header, &mut wrong_seq), Err(TlsKeyError::DecryptFailed));
    assert!(mirrored.encrypt_server_record(0, &vec![0u8; 70000], 23).is_err());
}

#[test]
fn transcript_and_key_share() {
    let msgs = vec![b"abc".to_vec(), b"def".to_vec()];
    assert_eq!(hash_transcript(&msgs), sha2::Sha256::digest(b"abcdef").to_vec());
    assert_eq!(hash_empty().to_vec(), sha2::Sha256::digest(b"").to_vec());

    let ours = RealityCrypto::new();
    let peer = x25519_dalek::StaticSecret::from([9u8; 32]);
    let peer_pub = x25519_dalek::PublicKey::from(&peer);
    let shared = ours.derive_shared_secret(peer_pub.as_bytes()).unwrap();
    let our_pub: [u8; 32] = ours.get_public_key().try_into().unwrap();
    let expected = peer.diffie_hellman(&x25519_dalek::PublicKey::from(our_pub));
    assert_eq!(shared, expected.as_bytes().to_vec());
    assert_eq!(ours.derive_shared_secret(&[1, 2, 3]), Err(KeyShareError::BadLength));
}

#[test]
fn encrypted_extensions_message() {
    let cfg = RealityConfig {
        dest: "www.apple.com:443".to_string(),
        server_names: vec![],
        private_key: String::new(),
        public_key: None,
        short_ids: vec![],
        fingerprint: "chrome".to_string(),
    };
    assert_eq!(RealityHandshake::new(cfg).build_encrypted_extensions(), vec![8, 0, 0, 2, 0, 0]);
}

#[test]
fn record_layer_round_trip() {
    let (k, _) = TlsKeys::derive_handshake_keys(&[3u8; 32], &[4u8; 32]).unwrap();
    let mirrored = TlsKeys {
        client_write_key: k.server_write_key,
        server_write_key: k.server_write_key,
        client_iv: k.server_iv,
        server_iv: k.server_iv,
        client_traffic_secret: k.server_traffic_secret.clone(),
        server_traffic_secret: k.server_traffic_secret.clone(),
    };
    let mut writer = TlsStream::new((), mirrored.clone());
    assert_eq!(writer.seal_pending(), Ok(None));
    assert!(writer.fits(b"first "));
    writer.buffer_write(b"first ");
    let r1 = writer.seal_pending().unwrap().unwrap();
    writer.buffer_write(b"second");
    let r2 = writer.seal_pending().unwrap().unwrap();
    assert!(!writer.fits(&vec![0u8; 20000]));

    let mut reader = TlsStream::new_with_buffer((), mirrored, r1[..3].to_vec());
    assert_eq!(reader.process_record(), Ok(false));
    reader.feed(&r1[3..]);
    reader.feed(&r2);
    assert_eq!(reader.process_record(), Ok(true));
    assert_eq!(reader.process_record(), Ok(true));
    assert_eq!(reader.process_record(), Ok(false));
    assert_eq!(reader.take_plaintext(4), b"firs".to_vec());
    assert_eq!(reader.take_plaintext(100), b"t second".to_vec());
    assert!(reader.take_plaintext(10).is_empty());
}

#[test]
fn handshake_message_framing() {

    let cfg = RealityConfig {
        dest: "www.apple.com:443".to_string(),
        server_names: vec![],
        private_key: String::new(),
        public_key: None,
        short_ids: vec![],
        fingerprint: "chrome".to_string(),
    };
    let hs = RealityHandshake::new(cfg);
    let cert = hs.build_certificate_message(&[0xAA, 0xBB]).unwrap();
    assert_eq!(cert, vec![11, 0, 0, 11, 0, 0, 0, 7, 0, 0, 2, 0xAA, 0xBB, 0, 0]);
    let cv = hs.build_certificate_verify(&[1, 2, 3]).unwrap();
    assert_eq!(cv, vec![15, 0, 0, 7, 4, 3, 0, 3, 1, 2, 3]);
    let fin = hs.build_finished(&[9; 4]).unwrap();
    assert_eq!(fin, vec![20, 0, 0, 4, 9, 9, 9, 9]);
    let input = hs.certificate_verify_input(&[7, 7]);
    assert_eq!(input.len(), 64 + 33 + 1 + 2);
    assert_eq!(&input[..64], &[0x20; 64][..]);
    assert_eq!(&input[64..97], b"TLS 1.3, server CertificateVerify");
    assert_eq!(&input[97..], &[0, 7, 7]);
    assert_eq!(classify_client_record(22, &[20, 0, 0, 32]), ClientFlight::Finished);
    assert_eq!(classify_client_record(21, &[2, 40]), ClientFlight::Alert { level: 2, description: 40 });
    assert_eq!(classify_client_record(21, &[]), ClientFlight::Alert { level: 0, description: 0 });
    assert_eq!(classify_client_record(23, &[20]), ClientFlight::Continue);
}
