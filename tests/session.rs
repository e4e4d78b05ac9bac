use xray_lite::address::Address;
use xray_lite::connection::{ConnectionManager, ProxyConnection};
use xray_lite::session::{is_http_probe, probe_reply, tcp_destination, udp_frame, udp_unframe};
use xray_lite::sniffer::sniff_tls_sni;

#[test]
fn http_probe_gets_no_content() {
    let input = b"GET /anything HTTP/1.1\r\n\r\n";
    assert_eq!(probe_reply(input), Some(b"HTTP/1.1 204 No Content\r\n\r\n".to_vec()));
    assert!(is_http_probe(b"POST / HTTP/1.1"));
    assert!(is_http_probe(b"HEAD / HTTP/1.1"));
    assert!(!is_http_probe(b"GE"));
    assert_eq!(probe_reply(&[0x01, 0x02, 0x03, 0x04]), None);
}

#[test]
fn sniffed_name_overrides_host_keeps_port() {
    let requested = Address::Ipv4([1, 2, 3, 4], 8443);
    assert_eq!(
        tcp_destination(&requested, Some("www.example.com".to_string())),
        Address::Domain("www.example.com".to_string(), 8443)
    );
    assert_eq!(tcp_destination(&requested, None), requested);
}

#[test]
fn udp_framing() {
    let framed = udp_frame(b"abc").unwrap();
    assert_eq!(framed, vec![0, 3, b'a', b'b', b'c']);
    let mut more = framed.clone();
    more.extend_from_slice(&[0, 9]);
    assert_eq!(udp_unframe(&more), Some((b"abc".to_vec(), 5)));
    assert_eq!(udp_unframe(&[0, 9, 1]), None);
    assert!(udp_frame(&vec![0u8; 70000]).is_none());
}

fn client_hello_with_sni(name: &[u8]) -> Vec<u8> {
    let mut body = vec![0x03, 0x03];
    body.extend_from_slice(&[0u8; 32]);
    body.push(0);
    body.extend_from_slice(&[0x00, 0x02, 0x13, 0x01, 0x01, 0x00]);
    let mut ext = vec![0x00, 0x0b, 0x00, 0x02, 0x01, 0x00];
    ext.extend_from_slice(&[0x00, 0x00]);
    ext.extend_from_slice(&((name.len() + 5) as u16).to_be_bytes());
    ext.extend_from_slice(&((name.len() + 3) as u16).to_be_bytes());
    ext.push(0);
    ext.extend_from_slice(&(name.len() as u16).to_be_bytes());
    ext.extend_from_slice(name);
    body.extend_from_slice(&(ext.len() as u16).to_be_bytes());
    body.extend_from_slice(&ext);
    let mut msg = vec![0x01, 0, 0, body.len() as u8];
    msg.extend_from_slice(&body);
    let mut record = vec![0x16, 0x03, 0x01, 0, msg.len() as u8];
    record.extend_from_slice(&msg);
    record
}

#[test]
fn sniff_sni_from_client_hello() {
    let record = client_hello_with_sni(b"video.example.org");
    assert_eq!(sniff_tls_sni(&record), Some("video.example.org".to_string()));
    assert_eq!(sniff_tls_sni(&record[..record.len() - 1]), None);
    assert_eq!(sniff_tls_sni(b"GET / HTTP/1.1\r\nHost: x\r\n\r\n0123456789012345678901"), None);
    assert_eq!(sniff_tls_sni(&client_hello_with_sni(&[0xff, 0xfe])), None);
}

#[test]
fn test_connection_manager_creation() {
    let manager = ConnectionManager::new();
    assert_eq!(manager.active_count(), 0);
}

#[test]
fn connection_cap() {
    let mut manager = ConnectionManager::with_limit(2);
    assert!(manager.try_acquire());
    assert!(manager.try_acquire());
    assert!(!manager.try_acquire());
    assert_eq!(manager.active_count(), 2);
    manager.release();
    assert_eq!(manager.active_count(), 1);
    let pair = ProxyConnection::new(1u8, "remote");
    assert_eq!(pair.into_parts(), (1u8, "remote"));
}
