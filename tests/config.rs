use xray_lite::config::{
    client_uuids, default_path, Client, Config, ConfigError, Inbound, InboundSettings, Network, Outbound, Protocol,
    RealitySettings, RoutingConfig, Security, SniffingConfig, SockOpt, StreamSettings, Validator,
};

fn inbound(id: &str, security: Security, reality: Option<RealitySettings>) -> Inbound {
    Inbound {
        protocol: Protocol::Vless,
        listen: "0.0.0.0".to_string(),
        port: 443,
        settings: InboundSettings {
            clients: vec![Client { id: id.to_string(), flow: "".to_string(), email: "".to_string() }],
            decryption: "none".to_string(),
            sniffing: SniffingConfig::default(),
        },
        stream_settings: StreamSettings {
            network: Network::Tcp,
            security,
            reality_settings: reality,
            xhttp_settings: None,
            sockopt: SockOpt::default(),
        },
    }
}

fn outbounds() -> Vec<Outbound> {
    vec![Outbound { protocol: "freedom".to_string(), tag: "direct".to_string(), settings: None }]
}

fn reality() -> RealitySettings {
    RealitySettings {
        dest: "www.apple.com:443".to_string(),
        server_names: vec!["www.apple.com".to_string()],
        private_key: "test_key".to_string(),
        public_key: None,
        short_ids: vec!["0123456789abcdef".to_string()],
        fingerprint: "chrome".to_string(),
    }
}

#[test]
fn test_valid_config() {
    let config = Config {
        inbounds: vec![inbound("b831381d-6324-4d53-ad4f-8cda48b30811", Security::Reality, Some(reality()))],
        outbounds: outbounds(),
        routing: RoutingConfig::default(),
    };

    assert!(Validator::validate(&config).is_ok());
}

#[test]
fn test_invalid_uuid() {
    let config = Config {
        inbounds: vec![inbound("invalid-uuid", Security::Plain, None)],
        outbounds: outbounds(),
        routing: RoutingConfig::default(),
    };

    assert!(Validator::validate(&config).is_err());
    assert_eq!(Validator::validate(&config), Err(ConfigError::InvalidClientId(0, 0)));
}

#[test]
fn config_errors() {
    let empty = Config { inbounds: vec![], outbounds: outbounds(), routing: RoutingConfig::default() };
    assert_eq!(Validator::validate(&empty), Err(ConfigError::NoInbounds));
    let ok_id = "b831381d-6324-4d53-ad4f-8cda48b30811";
    let no_out = Config { inbounds: vec![inbound(ok_id, Security::Plain, None)], outbounds: vec![], routing: RoutingConfig::default() };
    assert_eq!(Validator::validate(&no_out), Err(ConfigError::NoOutbounds));
    let mut zero = inbound(ok_id, Security::Plain, None);
    zero.port = 0;
    let c = Config { inbounds: vec![inbound(ok_id, Security::Plain, None), zero], outbounds: outbounds(), routing: RoutingConfig::default() };
    assert_eq!(Validator::validate(&c), Err(ConfigError::ZeroPort(1)));
    let mut r = reality();
    r.server_names.clear();
    let c = Config { inbounds: vec![inbound(ok_id, Security::Reality, Some(r))], outbounds: outbounds(), routing: RoutingConfig::default() };
    assert_eq!(Validator::validate(&c), Err(ConfigError::EmptyServerNames(0)));
}

#[test]
fn allow_list_from_clients() {
    let clients = vec![
        Client { id: "b831381d-6324-4d53-ad4f-8cda48b30811".to_string(), flow: "".to_string(), email: "".to_string() },
        Client { id: "nope".to_string(), flow: "".to_string(), email: "".to_string() },
    ];
    let ids = client_uuids(&clients);
    assert_eq!(ids.len(), 1);
    assert_eq!(ids[0][0], 0xb8);
    assert_eq!(ids[0][15], 0x11);
    assert_eq!(default_path(), "/");
}
