use xray_lite::proxy_protocol::{is_proxy_protocol, parse_proxy_protocol, HostIp, ProxyError, SockAddr};

#[test]
fn proxy_v1_tcp4() {
    let data = b"PROXY TCP4 192.168.1.1 10.0.0.1 56789 443\r\nrest";
    assert!(is_proxy_protocol(data));
    let (h, n) = parse_proxy_protocol(data).unwrap();
    assert_eq!(n, data.len() - 4);
    assert_eq!(h.source_addr, SockAddr { ip: HostIp::V4([192, 168, 1, 1]), port: 56789 });
    assert_eq!(h.dest_addr, SockAddr { ip: HostIp::V4([10, 0, 0, 1]), port: 443 });
}

#[test]
fn proxy_v1_errors() {
    assert_eq!(parse_proxy_protocol(b"PROXY TCP4 1.2.3.4 5.6.7.8 1 2"), Err(ProxyError::MissingCrlf));
    assert_eq!(parse_proxy_protocol(b"PROXY TCP4 1.2.3.4 5.6.7.8 1 2\rx"), Err(ProxyError::BadLineEnd));
    assert_eq!(parse_proxy_protocol(b"PROXY TCP4 1.2.3.4\r\n"), Err(ProxyError::TooFewFields));
    assert_eq!(parse_proxy_protocol(b"PROXY TCP4 1.2.3.4 5.6.7.8 70000 2\r\n"), Err(ProxyError::BadPort));
    assert_eq!(parse_proxy_protocol(b"PROXY TCP4 1.2.3.256 5.6.7.8 1 2\r\n"), Err(ProxyError::BadAddress));
    assert_eq!(parse_proxy_protocol(b"PROXY TCP4 1.2.3.04 5.6.7.8 1 2\r\n"), Err(ProxyError::BadAddress));
    assert_eq!(parse_proxy_protocol(b"PROXY SCTP 1.2.3.4 5.6.7.8 1 2\r\n"), Err(ProxyError::UnknownProtocol));
    let (h, n) = parse_proxy_protocol(b"PROXY UNKNOWN x y +0 0\r\n").unwrap();
    assert_eq!(n, 24);
    assert_eq!(h.source_addr.port, 0);
    assert_eq!(parse_proxy_protocol(b"HELLO"), Err(ProxyError::NoSignature));
}

#[test]
fn proxy_v2_ipv4_and_ipv6() {
    let mut v2 = vec![0x0D, 0x0A, 0x0D, 0x0A, 0x00, 0x0D, 0x0A, 0x51, 0x55, 0x49, 0x54, 0x0A, 0x21, 0x11, 0x00, 0x0C];
    v2.extend_from_slice(&[1, 2, 3, 4, 5, 6, 7, 8, 0x1F, 0x90, 0x01, 0xBB]);
    assert!(is_proxy_protocol(&v2));
    let (h, n) = parse_proxy_protocol(&v2).unwrap();
    assert_eq!(n, 28);
    assert_eq!(h.source_addr, SockAddr { ip: HostIp::V4([1, 2, 3, 4]), port: 8080 });
    assert_eq!(h.dest_addr, SockAddr { ip: HostIp::V4([5, 6, 7, 8]), port: 443 });

    let mut v6 = vec![0x0D, 0x0A, 0x0D, 0x0A, 0x00, 0x0D, 0x0A, 0x51, 0x55, 0x49, 0x54, 0x0A, 0x21, 0x21, 0x00, 0x24];
    v6.extend_from_slice(&[0xAA; 16]);
    v6.extend_from_slice(&[0xBB; 16]);
    v6.extend_from_slice(&[0, 1, 0, 2]);
    let (h, n) = parse_proxy_protocol(&v6).unwrap();
    assert_eq!(n, 52);
    assert_eq!(h.source_addr, SockAddr { ip: HostIp::V6([0xAA; 16]), port: 1 });
    assert_eq!(h.dest_addr, SockAddr { ip: HostIp::V6([0xBB; 16]), port: 2 });
    assert_eq!(parse_proxy_protocol(&v6[..40]), Err(ProxyError::Truncated));
    assert_eq!(parse_proxy_protocol(&v6[..14]), Err(ProxyError::V2TooShort));
}

#[test]
fn proxy_v1_tcp6() {
    let data = b"PROXY TCP6 2001:db8::1 ::ffff:a00:1 1000 443\r\n";
    let (h, n) = parse_proxy_protocol(data).unwrap();
    assert_eq!(n, data.len());
    assert_eq!(
        h.source_addr,
        SockAddr { ip: HostIp::V6([0x20, 0x01, 0x0d, 0xb8, 0, 0, 0, 0, 0, 0, 0, 0, 0, 0, 0, 1]), port: 1000 }
    );
    assert_eq!(
        h.dest_addr,
        SockAddr { ip: HostIp::V6([0, 0, 0, 0, 0, 0, 0, 0, 0, 0, 0xff, 0xff, 0x0a, 0x00, 0x00, 0x01]), port: 443 }
    );
    let full = b"PROXY UDP6 1:2:3:4:5:6:7:8 :: 1 2\r\n";
    let (h, _) = parse_proxy_protocol(full).unwrap();
    assert_eq!(h.source_addr.ip, HostIp::V6([0, 1, 0, 2, 0, 3, 0, 4, 0, 5, 0, 6, 0, 7, 0, 8]));
    assert_eq!(h.dest_addr.ip, HostIp::V6([0; 16]));
    assert_eq!(parse_proxy_protocol(b"PROXY TCP6 1::2::3 ::1 1 2\r\n"), Err(ProxyError::BadAddress));
    assert_eq!(parse_proxy_protocol(b"PROXY TCP6 1:2:3:4:5:6:7 ::1 1 2\r\n"), Err(ProxyError::BadAddress));
    assert_eq!(parse_proxy_protocol(b"PROXY TCP6 12345::1 ::1 1 2\r\n"), Err(ProxyError::BadAddress));
    assert_eq!(parse_proxy_protocol(b"PROXY TCP6 1:2:3:4::5:6:7:8 ::1 1 2\r\n"), Err(ProxyError::BadAddress));
}
