//! A censorship-resistant proxy core: Reality admission (ClientHello
//! parsing, token verification, fallback decision, ServerHello signature),
//! the VLESS request codec and session decisions, the TLS 1.3 record layer
//! of the hand-written handshake, and the XHTTP/gRPC framing and session
//! table.
pub mod wire;
pub mod text;
pub mod error;
pub mod address;
pub mod request;
pub mod response;
pub mod codec;
pub mod hello;
pub mod crypto;
pub mod reality;
pub mod auth;
pub mod tls;
pub mod tls13;
pub mod grpc;
pub mod session;
pub mod sniffer;
pub mod xhttp;
pub mod connection;
pub mod config;
pub mod proxy_protocol;
pub mod keys;
pub mod handshake;
