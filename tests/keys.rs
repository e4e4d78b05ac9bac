use xray_lite::keys::{generate_x25519_keypair, private_key_to_base64, public_key_from_base64, public_key_to_base64, KeyTextError};

#[test]
fn test_keypair_generation() {
    let keypair = generate_x25519_keypair();

    assert_eq!(keypair.public_key.len(), 32);
    let expected = x25519_dalek::PublicKey::from(&x25519_dalek::StaticSecret::from(keypair.private_key));
    assert_eq!(&keypair.public_key, expected.as_bytes());
}

#[test]
fn test_public_key_base64() {
    let keypair = generate_x25519_keypair();

    let pub_b64 = public_key_to_base64(&keypair.public_key);
    let decoded_pub = public_key_from_base64(&pub_b64).unwrap();
    assert_eq!(keypair.public_key, decoded_pub);
}

#[test]
fn key_text_values() {
    assert_eq!(private_key_to_base64(&[b'A'; 32]), "QUFBQUFBQUFBQUFBQUFBQUFBQUFBQUFBQUFBQUFBQUE=");
    assert_eq!(public_key_from_base64("QUFB"), Err(KeyTextError::TooShort));
    assert_eq!(public_key_from_base64("not base64!"), Err(KeyTextError::NotBase64));
}
