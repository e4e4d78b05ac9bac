//! The server configuration and its validation.
use vstd::prelude::*;
use crate::xhttp::XhttpMode;

verus! {

/// serde_json's `Value`, carried through unread as the settings of an outbound.
#[verifier::external_type_specification]
#[verifier::external_body]
pub struct ExJsonValue(serde_json::Value);

/// The 16 bytes of a UUID written in one of the textual forms the uuid
/// crate reads, if `s` is one.
pub uninterp spec fn uuid_text_of(s: Seq<char>) -> Option<Seq<u8>>;

/// Relies on uuid's `Uuid::parse_str`, which reads the hyphenated, simple,
/// braced and URN forms.
#[verifier::external_body]
pub(crate) fn parse_uuid(s: &str) -> (r: Option<[u8; 16]>)
    ensures
        r is Some == uuid_text_of(s@) is Some,
        r is Some ==> r.unwrap()@ == uuid_text_of(s@).unwrap(),
{
    uuid::Uuid::parse_str(s).ok().map(|u| *u.as_bytes())
}

pub struct Config {
    pub inbounds: Vec<Inbound>,
    pub outbounds: Vec<Outbound>,
    pub routing: RoutingConfig,
}

pub struct Inbound {
    pub protocol: Protocol,
    pub listen: String,
    pub port: u16,
    pub settings: InboundSettings,
    pub stream_settings: StreamSettings,
}

#[derive(Debug, Clone, Copy, PartialEq, Eq, Structural)]
pub enum Protocol {
    Vless,
    Vmess,
    Trojan,
    Shadowsocks,
}

pub struct InboundSettings {
    pub clients: Vec<Client>,
    pub decryption: String,
    pub sniffing: SniffingConfig,
}

pub struct SniffingConfig {
    pub enabled: bool,
    pub dest_override: Vec<String>,
}

pub struct Client {
    /// The client UUID, as text.
    pub id: String,
    pub flow: String,
    pub email: String,
}

pub struct StreamSettings {
    pub network: Network,
    pub security: Security,
    pub reality_settings: Option<RealitySettings>,
    pub xhttp_settings: Option<XhttpSettings>,
    pub sockopt: SockOpt,
}

#[derive(Debug, Clone, Copy, PartialEq, Eq, Structural)]
pub struct SockOpt {
    pub tcp_fast_open: bool,
    pub tcp_no_delay: bool,
    pub accept_proxy_protocol: bool,
}

#[derive(Debug, Clone, Copy, PartialEq, Eq, Structural)]
pub enum Network {
    Tcp,
    Http,
    Ws,
    Grpc,
}

#[derive(Debug, Clone, Copy, PartialEq, Eq, Structural)]
pub enum Security {
    /// Plain TCP, no transport security.
    Plain,
    Tls,
    Reality,
}

pub struct RealitySettings {
    pub dest: String,
    pub server_names: Vec<String>,
    pub private_key: String,
    pub public_key: Option<String>,
    pub short_ids: Vec<String>,
    pub fingerprint: String,
}

pub struct XhttpSettings {
    pub mode: XhttpMode,
    pub path: String,
    pub host: String,
}

pub struct Outbound {
    pub protocol: String,
    pub tag: String,
    pub settings: Option<serde_json::Value>,
}

pub struct RoutingConfig {
    pub rules: Vec<RoutingRule>,
}

pub struct RoutingRule {
    pub rule_type: String,
    pub domain: Option<Vec<String>>,
    pub ip: Option<Vec<String>>,
    pub outbound_tag: String,
}

pub fn default_true() -> (r: bool)
    ensures
        r,
{
    true
}

pub fn default_dest_override() -> (r: Vec<String>)
    ensures
        r@.len() == 2,
        r@[0]@ == "tls"@,
        r@[1]@ == "http"@,
{
    let mut v: Vec<String> = Vec::new();
    v.push("tls".to_owned());
    v.push("http".to_owned());
    v
}

pub fn default_decryption() -> (r: String)
    ensures
        r@ == "none"@,
{
    "none".to_owned()
}

pub fn default_fingerprint() -> (r: String)
    ensures
        r@ == "chrome"@,
{
    "chrome".to_owned()
}

pub fn default_xhttp_mode() -> (r: XhttpMode)
    ensures
        r == XhttpMode::StreamUp,
{
    XhttpMode::StreamUp
}

pub fn default_path() -> (r: String)
    ensures
        r@ == "/"@,
{
    "/".to_owned()
}

impl Default for SniffingConfig {
    fn default() -> (r: SniffingConfig)
        ensures
            !r.enabled,
            r.dest_override@.len() == 2,
            r.dest_override@[0]@ == "tls"@,
            r.dest_override@[1]@ == "http"@,
    {
        SniffingConfig { enabled: false, dest_override: default_dest_override() }
    }
}

impl Default for SockOpt {
    fn default() -> (r: SockOpt)
        ensures
            r.tcp_fast_open,
            r.tcp_no_delay,
            !r.accept_proxy_protocol,
    {
        SockOpt { tcp_fast_open: true, tcp_no_delay: true, accept_proxy_protocol: false }
    }
}

impl Default for RoutingConfig {
    fn default() -> (r: RoutingConfig)
        ensures
            r.rules@.len() == 0,
    {
        RoutingConfig { rules: Vec::new() }
    }
}

/// Why a configuration was refused.
#[derive(Debug, Clone, Copy, PartialEq, Eq, Structural)]
pub enum ConfigError {
    NoInbounds,
    NoOutbounds,
    /// Inbound at this index listens on port 0.
    ZeroPort(usize),
    /// Inbound and client index of a client id that is not a UUID.
    InvalidClientId(usize, usize),
    EmptyRealityDest(usize),
    EmptyServerNames(usize),
    EmptyPrivateKey(usize),
    EmptyXhttpPath(usize),
}

/// The index of the first client, from `from` on, whose id is not a UUID.
pub open spec fn bad_client_from(clients: Seq<Client>, from: int) -> Option<int>
    decreases clients.len() - from,
{
    if from < 0 || from >= clients.len() {
        None
    } else if uuid_text_of(clients[from].id@) is None {
        Some(from)
    } else {
        bad_client_from(clients, from + 1)
    }
}

/// The first problem of inbound `ib` at index `idx`, if any.
pub open spec fn inbound_error(ib: Inbound, idx: usize) -> Option<ConfigError> {
    if ib.port == 0 {
        Some(ConfigError::ZeroPort(idx))
    } else if bad_client_from(ib.settings.clients@, 0) is Some {
        Some(ConfigError::InvalidClientId(idx, bad_client_from(ib.settings.clients@, 0).unwrap() as usize))
    } else if ib.stream_settings.reality_settings is Some && ib.stream_settings.reality_settings.unwrap().dest@.len() == 0 {
        Some(ConfigError::EmptyRealityDest(idx))
    } else if ib.stream_settings.reality_settings is Some
        && ib.stream_settings.reality_settings.unwrap().server_names@.len() == 0 {
        Some(ConfigError::EmptyServerNames(idx))
    } else if ib.stream_settings.reality_settings is Some
        && ib.stream_settings.reality_settings.unwrap().private_key@.len() == 0 {
        Some(ConfigError::EmptyPrivateKey(idx))
    } else if ib.stream_settings.xhttp_settings is Some && ib.stream_settings.xhttp_settings.unwrap().path@.len() == 0 {
        Some(ConfigError::EmptyXhttpPath(idx))
    } else {
        None
    }
}

/// The first problem among the inbounds from index `from` on.
pub open spec fn inbounds_error_from(ibs: Seq<Inbound>, from: int) -> Option<ConfigError>
    decreases ibs.len() - from,
{
    if from < 0 || from >= ibs.len() {
        None
    } else if inbound_error(ibs[from], from as usize) is Some {
        inbound_error(ibs[from], from as usize)
    } else {
        inbounds_error_from(ibs, from + 1)
    }
}

/// The first problem of a configuration, if any.
pub open spec fn config_error(c: Config) -> Option<ConfigError> {
    if c.inbounds@.len() == 0 {
        Some(ConfigError::NoInbounds)
    } else if inbounds_error_from(c.inbounds@, 0) is Some {
        inbounds_error_from(c.inbounds@, 0)
    } else if c.outbounds@.len() == 0 {
        Some(ConfigError::NoOutbounds)
    } else {
        None
    }
}

pub struct Validator;

impl Validator {
    /// Accepts a configuration exactly when `config_error` finds nothing.
    pub fn validate(config: &Config) -> (r: Result<(), ConfigError>)
        ensures
            match config_error(*config) {
                Some(e) => r == Err::<(), ConfigError>(e),
                None => r is Ok,
            },
    {
        if config.inbounds.len() == 0 {
            return Err(ConfigError::NoInbounds);
        }
        let mut i: usize = 0;
        while i < config.inbounds.len()
            invariant
                i <= config.inbounds@.len(),
                inbounds_error_from(config.inbounds@, 0) == inbounds_error_from(config.inbounds@, i as int),
            decreases config.inbounds@.len() - i,
        {
            match Self::validate_inbound(&config.inbounds[i], i) {
                Some(e) => { return Err(e); },
                None => {},
            }
            i = i + 1;
        }
        if config.outbounds.len() == 0 {
            return Err(ConfigError::NoOutbounds);
        }
        Ok(())
    }

    fn validate_inbound(inbound: &Inbound, idx: usize) -> (r: Option<ConfigError>)
        ensures
            r == inbound_error(*inbound, idx),
    {
        if inbound.port == 0 {
            return Some(ConfigError::ZeroPort(idx));
        }
        let mut c: usize = 0;
        let clients = &inbound.settings.clients;
        while c < clients.len()
            invariant
                c <= clients@.len(),
                inbound.port != 0,
                clients@ == inbound.settings.clients@,
                bad_client_from(clients@, 0) == bad_client_from(clients@, c as int),
            decreases clients@.len() - c,
        {
            if parse_uuid(clients[c].id.as_str()).is_none() {
                assert(bad_client_from(clients@, c as int) == Some(c as int));
                return Some(ConfigError::InvalidClientId(idx, c));
            }
            c = c + 1;
        }
        match &inbound.stream_settings.reality_settings {
            Some(reality) => match Self::validate_reality_settings(reality, idx) {
                Some(e) => { return Some(e); },
                None => {},
            },
            None => {},
        }
        match &inbound.stream_settings.xhttp_settings {
            Some(xhttp) => Self::validate_xhttp_settings(xhttp, idx),
            None => None,
        }
    }

    fn validate_reality_settings(reality: &RealitySettings, inbound_idx: usize) -> (r: Option<ConfigError>)
        ensures
            reality.dest@.len() == 0 ==> r == Some(ConfigError::EmptyRealityDest(inbound_idx)),
            reality.dest@.len() != 0 && reality.server_names@.len() == 0 ==> r == Some(
                ConfigError::EmptyServerNames(inbound_idx),
            ),
            reality.dest@.len() != 0 && reality.server_names@.len() != 0 && reality.private_key@.len() == 0 ==> r
                == Some(ConfigError::EmptyPrivateKey(inbound_idx)),
            reality.dest@.len() != 0 && reality.server_names@.len() != 0 && reality.private_key@.len() != 0 ==> r
                is None,
    {
        if reality.dest.as_str().is_empty() {
            return Some(ConfigError::EmptyRealityDest(inbound_idx));
        }
        if reality.server_names.len() == 0 {
            return Some(ConfigError::EmptyServerNames(inbound_idx));
        }
        if reality.private_key.as_str().is_empty() {
            return Some(ConfigError::EmptyPrivateKey(inbound_idx));
        }
        None
    }

    fn validate_xhttp_settings(xhttp: &XhttpSettings, inbound_idx: usize) -> (r: Option<ConfigError>)
        ensures
            xhttp.path@.len() == 0 ==> r == Some(ConfigError::EmptyXhttpPath(inbound_idx)),
            xhttp.path@.len() != 0 ==> r is None,
    {
        if xhttp.path.as_str().is_empty() {
            Some(ConfigError::EmptyXhttpPath(inbound_idx))
        } else {
            None
        }
    }
}

/// The UUIDs of the clients whose id is one, in order.
pub open spec fn valid_uuids(cs: Seq<Client>) -> Seq<Seq<u8>>
    decreases cs.len(),
{
    if cs.len() == 0 {
        Seq::empty()
    } else {
        let rest = valid_uuids(cs.drop_last());
        match uuid_text_of(cs.last().id@) {
            Some(u) => rest.push(u),
            None => rest,
        }
    }
}

pub open spec fn uuid_views(v: Seq<[u8; 16]>) -> Seq<Seq<u8>> {
    Seq::new(v.len(), |i: int| v[i]@)
}

/// The allow-list of an inbound: the clients whose id is a UUID, in order.
pub fn client_uuids(clients: &Vec<Client>) -> (r: Vec<[u8; 16]>)
    ensures
        uuid_views(r@) == valid_uuids(clients@),
{
    let mut out: Vec<[u8; 16]> = Vec::new();
    let mut c: usize = 0;
    assert(uuid_views(out@) =~= valid_uuids(clients@.subrange(0, 0)));
    while c < clients.len()
        invariant
            c <= clients@.len(),
            uuid_views(out@) == valid_uuids(clients@.subrange(0, c as int)),
        decreases clients@.len() - c,
    {
        let ghost before = out@;
        assert(clients@.subrange(0, c + 1).drop_last() =~= clients@.subrange(0, c as int));
        assert(clients@.subrange(0, c + 1).last() == clients@[c as int]);
        match parse_uuid(clients[c].id.as_str()) {
            Some(u) => {
                out.push(u);
                assert(uuid_views(out@) =~= uuid_views(before).push(u@));
            },
            None => {},
        }
        c = c + 1;
    }
    assert(clients@.subrange(0, c as int) =~= clients@);
    out
}

} // verus!
