use xray_lite::xhttp::{take_grpc_payloads, H2Handler, SessionTable, XhttpConfig, XhttpError, XhttpMode, XhttpRoute, XhttpServer};

fn config(path: &str) -> XhttpConfig {
    XhttpConfig { mode: XhttpMode::StreamUp, path: path.to_string(), host: "www.example.com".to_string() }
}

#[test]
fn server_test_server_creation() {
    let config = XhttpConfig {
        mode: XhttpMode::StreamUp,
        path: "/".to_string(),
        host: "www.example.com".to_string(),
    };

    let server = XhttpServer::new(config);
    assert!(server.is_ok());

    let server = server.unwrap();
    assert_eq!(server.path(), "/");
    assert_eq!(server.host(), "www.example.com");
}

#[test]
fn test_invalid_config() {
    let config = XhttpConfig {
        mode: XhttpMode::StreamUp,
        path: "".to_string(),
        host: "www.example.com".to_string(),
    };
    let server = XhttpServer::new(config);
    assert!(server.is_err());
    assert_eq!(server.err(), Some(XhttpError::EmptyPath));
}

#[test]
fn mode_names() {
    assert_eq!(XhttpMode::StreamUp.as_str(), "stream-up");
    assert_eq!(XhttpMode::StreamDown.as_str(), "stream-down");
    assert_eq!(XhttpMode::StreamOne.as_str(), "stream-one");
    let server = XhttpServer::new(config("/proxy")).unwrap();
    assert_eq!(*server.mode(), XhttpMode::StreamUp);
}

#[test]
fn pairing_routes() {
    let h = H2Handler::new(config("/proxy"));
    let path = "/proxy/abc123";
    assert_eq!(h.route(path, "GET", false, ""), XhttpRoute::Download);
    assert_eq!(h.route(path, "POST", true, ""), XhttpRoute::Upload);
    assert_eq!(h.route(path, "POST", false, "application/grpc"), XhttpRoute::Standalone { grpc: true });
    assert_eq!(h.route(path, "POST", false, "application/grpc; charset=utf-8"), XhttpRoute::Standalone { grpc: true });
    assert_eq!(h.route(path, "POST", false, "application/octet-stream"), XhttpRoute::Standalone { grpc: false });
    assert_eq!(h.route(path, "PUT", false, ""), XhttpRoute::MethodNotAllowed);
    assert_eq!(h.route("/proxy", "GET", false, ""), XhttpRoute::Download);
    assert_eq!(h.route("/proxyabc", "GET", false, ""), XhttpRoute::NotFound);
    assert_eq!(h.route("/other/abc123", "GET", false, ""), XhttpRoute::NotFound);
    let root = H2Handler::new(config("/"));
    assert_eq!(root.route("/abc123", "GET", false, ""), XhttpRoute::Download);
}

#[test]
fn post_waits_for_its_session() {
    assert!(H2Handler::keep_waiting(0, false));
    assert!(H2Handler::keep_waiting(9, false));
    assert!(!H2Handler::keep_waiting(10, false));
    assert!(!H2Handler::keep_waiting(0, true));
}

#[test]
fn grpc_payloads_are_unwrapped() {
    let mut buf = vec![0, 0, 0, 0, 2, b'h', b'i', 0, 0, 0, 0, 1, b'!', 0, 0, 0, 0, 9, b'x'];
    let out = take_grpc_payloads(&mut buf);
    assert_eq!(out, b"hi!".to_vec());
    assert_eq!(buf, vec![0, 0, 0, 0, 9, b'x']);
    let mut short = vec![0, 0];
    assert!(take_grpc_payloads(&mut short).is_empty());
    assert_eq!(short, vec![0, 0]);
}

#[test]
fn padding_is_alphanumeric() {
    for _ in 0..20 {
        let p = H2Handler::gen_padding();
        assert!(p.len() >= 64 && p.len() < 512);
        assert!(p.chars().all(|c| c.is_ascii_alphanumeric()));
    }
}

#[test]
fn session_table_pairs_get_and_post() {
    let h = H2Handler::new(config("/proxy"));
    let mut table: SessionTable<Vec<u8>> = SessionTable::new();
    let path = "/proxy/abc123";
    assert_eq!(h.route(path, "GET", table.contains(path), ""), XhttpRoute::Download);
    table.insert(path.to_string(), Vec::new());
    assert_eq!(h.route(path, "POST", table.contains(path), ""), XhttpRoute::Upload);
    assert_eq!(table.get(path), Some(&Vec::new()));
    assert!(table.get("/proxy/other").is_none());
    table.insert("/proxy/other".to_string(), vec![1]);
    table.insert(path.to_string(), vec![2]);
    assert_eq!(table.get(path), Some(&vec![2]));
    assert!(table.remove(path));
    assert!(!table.contains(path));
    assert!(!table.remove(path));
    assert_eq!(table.get("/proxy/other"), Some(&vec![1]));
    assert_eq!(h.route(path, "POST", table.contains(path), ""), XhttpRoute::Standalone { grpc: false });
}
