use xray_lite::tls::{ClientHello, ContentType, Extension, HandshakeType, ServerHello, TlsError, TlsRecord};

#[test]
fn test_tls_record_parse() {
    let mut buf = Vec::new();
    buf.push(22);
    buf.extend_from_slice(&0x0303u16.to_be_bytes());
    buf.extend_from_slice(&5u16.to_be_bytes());
    buf.extend_from_slice(&[1, 2, 3, 4, 5]);

    let record = TlsRecord::parse(&mut buf).unwrap().unwrap();
    assert_eq!(record.content_type, ContentType::Handshake);
    assert_eq!(record.version, 0x0303);
    assert_eq!(record.payload.len(), 5);
}

#[test]
fn test_extension_parse_sni() {
    let mut data = Vec::new();
    data.extend_from_slice(&[0, 14]);
    data.push(0);
    data.extend_from_slice(&[0, 11]);
    data.extend_from_slice(b"example.com");

    let sni = Extension::parse_sni(&data).unwrap();
    assert_eq!(sni, "example.com");
}

#[test]
fn record_parse_incomplete_and_unknown() {
    let mut partial = vec![22, 3, 3, 0, 10, 1, 2];
    assert!(TlsRecord::parse(&mut partial).unwrap().is_none());
    assert_eq!(partial, vec![22, 3, 3, 0, 10, 1, 2]);
    let mut unknown = vec![99, 3, 3, 0, 0];
    assert_eq!(TlsRecord::parse(&mut unknown).unwrap_err(), TlsError::UnknownContentType(99));
    let mut two = vec![23, 3, 3, 0, 1, 7, 21, 3, 3, 0, 0];
    let first = TlsRecord::parse(&mut two).unwrap().unwrap();
    assert_eq!(first.content_type, ContentType::ApplicationData);
    assert_eq!(first.payload, vec![7]);
    assert_eq!(two, vec![21, 3, 3, 0, 0]);
    assert_eq!(first.encode().unwrap(), vec![23, 3, 3, 0, 1, 7]);
}

#[test]
fn sni_takes_first_host_name_entry() {
    let mut data = vec![0, 15, 1, 0, 2, b'x', b'y', 0, 0, 7];
    data.extend_from_slice(b"a.b.com");
    assert_eq!(Extension::parse_sni(&data), Some("a.b.com".to_string()));
    assert_eq!(Extension::parse_sni(&[0, 9, 0, 0, 5, b'a']), None);
}

#[test]
fn type_bytes() {
    assert_eq!(ContentType::from_u8(20), Ok(ContentType::ChangeCipherSpec));
    assert_eq!(ContentType::from_u8(24), Err(TlsError::UnknownContentType(24)));
    assert_eq!(HandshakeType::from_u8(2), Ok(HandshakeType::ServerHello));
    assert_eq!(HandshakeType::from_u8(20), Ok(HandshakeType::Finished));
    assert_eq!(HandshakeType::from_u8(3), Err(TlsError::UnknownHandshakeType(3)));
    assert_eq!(HandshakeType::CertificateVerify.as_u8(), 15);
}

fn sample_client_hello() -> Vec<u8> {
    let mut body = vec![0x03, 0x03];
    body.extend_from_slice(&[0xAB; 32]);
    body.push(8);
    body.extend_from_slice(&[1, 2, 3, 4, 5, 6, 7, 8, ]);
    body.extend_from_slice(&[0x00, 0x04, 0x13, 0x01, 0x13, 0x02]);
    body.extend_from_slice(&[0x01, 0x00]);
    let mut ext = Vec::new();
    ext.extend_from_slice(&[0x00, 0x00, 0x00, 0x0e, 0x00, 0x0c, 0x00, 0x00, 0x09]);
    ext.extend_from_slice(b"a.example");
    ext.extend_from_slice(&[0x00, 0x33, 0x00, 0x2a, 0x00, 0x28, 0x00, 0x17, 0x00, 0x00, 0x00, 0x1d, 0x00, 0x20]);
    ext.extend_from_slice(&[0x5A; 32]);
    body.extend_from_slice(&(ext.len() as u16).to_be_bytes());
    body.extend_from_slice(&ext);
    let mut msg = vec![0x01, 0, 0, body.len() as u8];
    msg.extend_from_slice(&body);
    msg
}

#[test]
fn client_hello_fields() {
    let msg = sample_client_hello();
    let hello = ClientHello::parse(&msg).unwrap();
    assert_eq!(hello.version, 0x0303);
    assert_eq!(hello.get_random(), &[0xAB; 32]);
    assert_eq!(hello.session_id, vec![1, 2, 3, 4, 5, 6, 7, 8]);
    assert_eq!(hello.cipher_suites, vec![0x1301, 0x1302]);
    assert_eq!(hello.compression_methods, vec![0]);
    assert_eq!(hello.extensions.len(), 2);
    assert_eq!(hello.get_sni(), Some("a.example".to_string()));
    assert_eq!(hello.get_key_share(), Some(vec![0x5A; 32]));
    assert_eq!(hello.get_reality_short_id(), Some(vec![1, 2, 3, 4, 5, 6, 7, 8]));
    assert_eq!(hello.raw_data, msg);
    assert_eq!(ClientHello::parse(&[0x02, 0, 0, 0]).unwrap_err(), TlsError::NotClientHello);
    assert_eq!(ClientHello::parse(&msg[..30]).unwrap_err(), TlsError::Truncated);
}

#[test]
fn extension_lists() {
    let exts = Extension::parse_all(&[0, 1, 0, 2, 9, 9, 0, 2, 0, 0]).unwrap();
    assert_eq!(exts.len(), 2);
    assert_eq!(exts[0].extension_type, 1);
    assert_eq!(exts[0].data, vec![9, 9]);
    assert_eq!(exts[1].extension_type, 2);
    assert!(exts[1].data.is_empty());
    assert_eq!(Extension::parse_all(&[0, 1, 0, 5, 1]).unwrap_err(), TlsError::Truncated);
    let short = [0, 9, 0, 0x17, 0, 1, 5, 0, 0x1d, 0, 2, 7, 8];
    assert_eq!(Extension::parse_client_key_share(&short), None);
    let mut share = vec![0, 46, 0, 0x1d, 0, 2, 7, 8, 0, 0x1d, 0, 32];
    share.extend_from_slice(&[3u8; 32]);
    assert_eq!(Extension::parse_client_key_share(&share), Some(vec![3u8; 32]));
    assert_eq!(Extension::parse_client_key_share(&[0, 4, 0, 0x17, 0, 0]), None);
}

#[test]
fn reality_server_hello_layout() {
    let hello = ServerHello::new_reality(&[5u8; 32], [7u8; 32], &[9u8; 32]).unwrap();
    let raw = hello.handshake_payload();
    assert_eq!(raw[0], 2);
    let body_len = ((raw[1] as usize) << 16) | ((raw[2] as usize) << 8) | raw[3] as usize;
    assert_eq!(body_len, raw.len() - 4);
    assert_eq!(&raw[4..6], &[3, 3]);
    assert_eq!(&raw[6..38], &[7u8; 32]);
    assert_eq!(raw[38], 32);
    assert_eq!(&raw[71..74], &[0x13, 0x01, 0x00]);
    assert_eq!(&raw[76..82], &[0x00, 0x2b, 0x00, 0x02, 0x03, 0x04]);
    assert_eq!(&raw[82..90], &[0x00, 0x33, 0x00, 36, 0x00, 0x1d, 0x00, 32]);
    assert_eq!(&raw[90..], &[9u8; 32]);
    let record = hello.encode().unwrap();
    assert_eq!(&record[..5], &[22, 3, 3, (raw.len() >> 8) as u8, raw.len() as u8]);
    assert_eq!(&record[5..], raw);

    let mut signed = ServerHello::from_raw(raw.to_vec());
    signed.modify_for_reality("test_private_key_32_bytes_long!", &[1u8; 32]).unwrap();
    assert_eq!(&signed.raw_data[6..26], &[7u8; 20]);
    assert_ne!(&signed.raw_data[26..38], &[7u8; 12]);
    assert_eq!(&signed.raw_data[38..], &raw[38..]);
}
