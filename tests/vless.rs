use uuid::Uuid;
use xray_lite::address::Address;
use xray_lite::codec::VlessCodec;
use xray_lite::error::VlessError;
use xray_lite::request::{Command, VlessRequest, VLESS_VERSION};
use xray_lite::response::VlessResponse;

fn uuid_bytes(s: &str) -> [u8; 16] {
    *Uuid::parse_str(s).unwrap().as_bytes()
}

#[test]
fn test_ipv4_encode_decode() {
    let addr = Address::Ipv4([192, 168, 1, 1], 443);
    let mut buf = Vec::new();
    addr.encode(&mut buf).unwrap();

    let decoded = Address::decode(&mut buf).unwrap();
    assert_eq!(addr, decoded);
}

#[test]
fn test_domain_encode_decode() {
    let addr = Address::Domain("example.com".to_string(), 443);
    let mut buf = Vec::new();
    addr.encode(&mut buf).unwrap();

    let decoded = Address::decode(&mut buf).unwrap();
    assert_eq!(addr, decoded);
}

#[test]
fn test_ipv6_encode_decode() {
    let addr = Address::Ipv6([0x20, 0x01, 0x0d, 0xb8, 0, 0, 0, 0, 0, 0, 0, 0, 0, 0, 0, 1], 443);
    let mut buf = Vec::new();
    addr.encode(&mut buf).unwrap();

    let decoded = Address::decode(&mut buf).unwrap();
    assert_eq!(addr, decoded);
}

#[test]
fn domain_wire_bytes() {
    let addr = Address::Domain("example.com".to_string(), 443);
    let mut buf = Vec::new();
    addr.encode(&mut buf).unwrap();
    assert_eq!(
        buf,
        vec![0x02, 0x0B, 0x65, 0x78, 0x61, 0x6D, 0x70, 0x6C, 0x65, 0x2E, 0x63, 0x6F, 0x6D, 0x01, 0xBB]
    );
    let decoded = Address::decode(&mut buf).unwrap();
    assert_eq!(decoded, Address::Domain("example.com".to_string(), 443));
    assert!(buf.is_empty());
}

#[test]
fn address_decode_leaves_following_bytes() {
    let mut buf = vec![0x01, 10, 0, 0, 1, 0x00, 0x50, 0xAA, 0xBB];
    let decoded = Address::decode(&mut buf).unwrap();
    assert_eq!(decoded, Address::Ipv4([10, 0, 0, 1], 80));
    assert_eq!(buf, vec![0xAA, 0xBB]);
    assert_eq!(decoded.port(), 80);
}

#[test]
fn address_errors() {
    let mut empty: Vec<u8> = Vec::new();
    assert_eq!(Address::decode(&mut empty), Err(VlessError::ShortBuffer));
    let mut short_v4 = vec![0x01, 1, 2, 3];
    assert_eq!(Address::decode(&mut short_v4), Err(VlessError::ShortBuffer));
    assert_eq!(short_v4, vec![0x01, 1, 2, 3]);
    let mut short_v6 = vec![0x03, 1, 2, 3];
    assert_eq!(Address::decode(&mut short_v6), Err(VlessError::ShortBuffer));
    let mut bad_type = vec![0x07, 1, 2, 3];
    assert_eq!(Address::decode(&mut bad_type), Err(VlessError::InvalidAddressType(7)));
    let mut bad_utf8 = vec![0x02, 2, 0xFF, 0xFE, 0, 80];
    assert_eq!(Address::decode(&mut bad_utf8), Err(VlessError::InvalidUtf8Domain));
    let mut short_domain = vec![0x02, 5, b'a', b'b'];
    assert_eq!(Address::decode(&mut short_domain), Err(VlessError::ShortBuffer));
    let long = Address::Domain("a".repeat(256), 80);
    let mut out = vec![9u8];
    assert_eq!(long.encode(&mut out), Err(VlessError::DomainTooLong));
    assert_eq!(out, vec![9u8]);
}

#[test]
fn zero_type_byte_read_as_domain() {
    let mut buf = vec![0x00, 3, b'a', b'b', b'c', 0x01, 0xBB];
    assert_eq!(Address::decode(&mut buf), Ok(Address::Domain("abc".to_string(), 443)));
    let mut empty_domain = vec![0x00, 0, 0x01, 0xBB];
    assert_eq!(Address::decode(&mut empty_domain), Err(VlessError::InvalidAddressType(0)));
}

#[test]
fn test_request_encode_decode() {
    let uuid = uuid_bytes("b831381d-6324-4d53-ad4f-8cda48b30811");
    let request = VlessRequest {
        version: VLESS_VERSION,
        uuid,
        command: Command::Tcp,
        address: Address::Ipv4([1, 1, 1, 1], 443),
        addon_length: 0,
    };

    let mut buf = request.encode().unwrap();
    let decoded = VlessRequest::decode(&mut buf, &[uuid]).unwrap();

    assert_eq!(request.version, decoded.version);
    assert_eq!(request.uuid, decoded.uuid);
    assert_eq!(request.command, decoded.command);
    assert_eq!(request.address, decoded.address);
}

#[test]
fn test_unauthorized_uuid() {
    let uuid1 = uuid_bytes("b831381d-6324-4d53-ad4f-8cda48b30811");
    let uuid2 = uuid_bytes("a831381d-6324-4d53-ad4f-8cda48b30812");

    let request = VlessRequest {
        version: VLESS_VERSION,
        uuid: uuid1,
        command: Command::Tcp,
        address: Address::Ipv4([1, 1, 1, 1], 443),
        addon_length: 0,
    };

    let mut buf = request.encode().unwrap();

    let result = VlessRequest::decode(&mut buf, &[uuid2]);
    assert!(result.is_err());
    assert_eq!(result.unwrap_err(), VlessError::UnauthorizedUuid);
}

#[test]
fn request_header_parse() {
    let uuid = uuid_bytes("b831381d-6324-4d53-ad4f-8cda48b30811");
    let mut buf = vec![0x00];
    buf.extend_from_slice(&uuid);
    buf.extend_from_slice(&[0x00, 0x01, 0x01, 0x01, 0x01, 0x01, 0x01, 0x00, 0x50]);
    let codec = VlessCodec::new(vec![uuid]);
    let req = codec.decode_request(&mut buf).unwrap();
    assert_eq!(req.version, 0);
    assert_eq!(req.command, Command::Tcp);
    assert_eq!(req.address, Address::Ipv4([1, 1, 1, 1], 80));
    assert!(buf.is_empty());
}

#[test]
fn request_errors_and_payload() {
    let uuid = uuid_bytes("b831381d-6324-4d53-ad4f-8cda48b30811");
    let mut header = vec![0x00];
    header.extend_from_slice(&uuid);
    header.extend_from_slice(&[0x02, 0xAA, 0xBB, 0x02, 0x01, 8, 8, 8, 8, 0x00, 0x35, b'h', b'i']);
    let mut buf = header.clone();
    let req = VlessRequest::decode(&mut buf, &[uuid]).unwrap();
    assert_eq!(req.command, Command::Udp);
    assert_eq!(req.addon_length, 2);
    assert_eq!(req.address, Address::Ipv4([8, 8, 8, 8], 53));
    assert_eq!(buf, b"hi".to_vec());

    let mut bad_version = header.clone();
    bad_version[0] = 1;
    assert_eq!(VlessRequest::decode(&mut bad_version, &[uuid]).unwrap_err(), VlessError::UnsupportedVersion(1));
    let mut bad_command = header.clone();
    bad_command[20] = 9;
    assert_eq!(VlessRequest::decode(&mut bad_command, &[uuid]).unwrap_err(), VlessError::UnknownCommand(9));
    let mut short = vec![0u8; 10];
    assert_eq!(VlessRequest::decode(&mut short, &[uuid]).unwrap_err(), VlessError::ShortBuffer);
    assert_eq!(Command::from_u8(3), Ok(Command::Mux));
    assert_eq!(Command::from_u8(0), Err(VlessError::UnknownCommand(0)));
}

#[test]
fn test_response_encode() {
    let response = VlessResponse::new();
    let buf = response.encode();

    assert_eq!(buf.len(), 2);
    assert_eq!(buf[0], VLESS_VERSION);
    assert_eq!(buf[1], 0);
}

#[test]
fn test_uuid_validation() {
    let uuid1 = uuid_bytes("b831381d-6324-4d53-ad4f-8cda48b30811");
    let uuid2 = uuid_bytes("a831381d-6324-4d53-ad4f-8cda48b30812");

    let codec = VlessCodec::new(vec![uuid1]);

    assert!(codec.validate_uuid(&uuid1));
    assert!(!codec.validate_uuid(&uuid2));
}

#[test]
fn test_add_remove_uuid() {
    let uuid1 = uuid_bytes("b831381d-6324-4d53-ad4f-8cda48b30811");
    let uuid2 = uuid_bytes("a831381d-6324-4d53-ad4f-8cda48b30812");

    let mut codec = VlessCodec::new(vec![uuid1]);

    codec.add_uuid(uuid2);
    assert!(codec.validate_uuid(&uuid2));

    assert!(codec.remove_uuid(&uuid2));
    assert!(!codec.validate_uuid(&uuid2));
    assert!(!codec.remove_uuid(&uuid2));
    assert!(codec.validate_uuid(&uuid1));
}

#[test]
fn address_text_forms() {
    assert_eq!(Address::Ipv4([1, 1, 1, 1], 443).to_string(), "1.1.1.1:443");
    assert_eq!(Address::Ipv4([192, 168, 0, 10], 8080).to_string(), "192.168.0.10:8080");
    assert_eq!(Address::Domain("example.com".to_string(), 80).to_string(), "example.com:80");
    assert_eq!(Address::Domain("bücher.de".to_string(), 443).to_string(), "bücher.de:443");
    assert_eq!(
        Address::Ipv6([0x20, 0x01, 0x0d, 0xb8, 0, 0, 0, 0, 0, 0, 0, 0, 0, 0, 0, 1], 443).to_string(),
        "[2001:db8:0:0:0:0:0:1]:443"
    );
}
