use xray_lite::grpc::{GrpcHeaders, GrpcMessage, GrpcStatus, GrpcTrailer};

#[test]
fn test_grpc_message_encode_decode() {
    let data = b"Hello, gRPC!".to_vec();
    let msg = GrpcMessage::new(data.clone());

    let encoded = msg.encode();
    assert_eq!(encoded.len(), 5 + data.len());

    let decoded = GrpcMessage::decode(&encoded).unwrap();
    assert_eq!(decoded.data, data);
    assert!(!decoded.compressed);
}

#[test]
fn test_grpc_empty_message() {
    let empty = GrpcMessage::empty();
    assert_eq!(empty.len(), 5);
    assert_eq!(&empty[..], &[0, 0, 0, 0, 0]);
}

#[test]
fn test_grpc_headers() {
    let headers = GrpcHeaders::new().with_grpc_defaults().build();

    assert!(headers
        .iter()
        .any(|(k, v)| k == "content-type" && v == "application/grpc"));
    assert!(headers
        .iter()
        .any(|(k, v)| k == "grpc-encoding" && v == "identity"));
}

#[test]
fn test_grpc_status() {
    assert_eq!(GrpcStatus::OK.as_str(), "0");
    assert_eq!(GrpcStatus::NotFound.as_str(), "5");
    assert_eq!(GrpcStatus::Internal.message(), "Internal error");
}

#[test]
fn test_grpc_trailer() {
    let trailer = GrpcTrailer::ok();
    let headers = trailer.build();

    assert!(headers.iter().any(|(k, v)| k == "grpc-status" && v == "0"));
}

#[test]
fn grpc_frame_bytes_and_errors() {
    let msg = GrpcMessage { compressed: true, data: vec![0xAA; 300] };
    let encoded = msg.encode();
    assert_eq!(&encoded[..5], &[1, 0, 0, 1, 44]);
    assert!(GrpcMessage::decode(&encoded[..100]).is_none());
    assert!(GrpcMessage::decode(&[0, 0, 0]).is_none());
    let decoded = GrpcMessage::decode(&encoded).unwrap();
    assert!(decoded.compressed);
    assert_eq!(decoded.data.len(), 300);
}

#[test]
fn headers_and_error_trailer() {
    let headers = GrpcHeaders::new().add_header("x-a".to_string(), "1".to_string()).build();
    assert_eq!(headers, vec![("x-a".to_string(), "1".to_string())]);
    let trailer = GrpcTrailer::error(GrpcStatus::Unavailable, "gone".to_string()).build();
    assert_eq!(
        trailer,
        vec![("grpc-status".to_string(), "14".to_string()), ("grpc-message".to_string(), "gone".to_string())]
    );
    assert_eq!(GrpcStatus::Unauthenticated.as_str(), "16");
    assert_eq!(GrpcStatus::DeadlineExceeded.message(), "Deadline exceeded");
}
