//! TLS record and handshake message structures.
use vstd::prelude::*;
use vstd::utf8::*;
use crate::auth::{signed_server_hello, key_from_text, AuthError, ServerHelloModifier};
use crate::hello::{sni_from_ext, sni_of_ext};
use crate::wire::{be16, copy_range, push_all, push_u16, read_u16, u16_bytes};

verus! {

/// Why a TLS structure could not be read or written.
#[derive(Debug, Clone, Copy, PartialEq, Eq, Structural)]
pub enum TlsError {
    UnknownContentType(u8),
    UnknownHandshakeType(u8),
    /// The message is not a ClientHello.
    NotClientHello,
    /// A length field runs past the end of the data.
    Truncated,
    /// A length does not fit its field.
    TooLong,
}

#[derive(Debug, Clone, Copy, PartialEq, Eq, Structural)]
pub enum ContentType {
    ChangeCipherSpec,
    Alert,
    Handshake,
    ApplicationData,
}

pub open spec fn content_type_of(b: u8) -> Option<ContentType> {
    if b == 20 {
        Some(ContentType::ChangeCipherSpec)
    } else if b == 21 {
        Some(ContentType::Alert)
    } else if b == 22 {
        Some(ContentType::Handshake)
    } else if b == 23 {
        Some(ContentType::ApplicationData)
    } else {
        None
    }
}

pub open spec fn content_type_byte(c: ContentType) -> u8 {
    match c {
        ContentType::ChangeCipherSpec => 20,
        ContentType::Alert => 21,
        ContentType::Handshake => 22,
        ContentType::ApplicationData => 23,
    }
}

impl ContentType {
    pub fn from_u8(value: u8) -> (r: Result<ContentType, TlsError>)
        ensures
            match content_type_of(value) {
                Some(c) => r == Ok::<ContentType, TlsError>(c),
                None => r == Err::<ContentType, TlsError>(TlsError::UnknownContentType(value)),
            },
    {
        if value == 20 {
            Ok(ContentType::ChangeCipherSpec)
        } else if value == 21 {
            Ok(ContentType::Alert)
        } else if value == 22 {
            Ok(ContentType::Handshake)
        } else if value == 23 {
            Ok(ContentType::ApplicationData)
        } else {
            Err(TlsError::UnknownContentType(value))
        }
    }

    pub fn as_u8(&self) -> (r: u8)
        ensures
            r == content_type_byte(*self),
    {
        match self {
            ContentType::ChangeCipherSpec => 20,
            ContentType::Alert => 21,
            ContentType::Handshake => 22,
            ContentType::ApplicationData => 23,
        }
    }
}

#[derive(Debug, Clone, Copy, PartialEq, Eq, Structural)]
pub enum HandshakeType {
    ClientHello,
    ServerHello,
    NewSessionTicket,
    Certificate,
    ServerKeyExchange,
    CertificateRequest,
    ServerHelloDone,
    CertificateVerify,
    ClientKeyExchange,
    Finished,
}

pub open spec fn handshake_type_byte(h: HandshakeType) -> u8 {
    match h {
        HandshakeType::ClientHello => 1,
        HandshakeType::ServerHello => 2,
        HandshakeType::NewSessionTicket => 4,
        HandshakeType::Certificate => 11,
        HandshakeType::ServerKeyExchange => 12,
        HandshakeType::CertificateRequest => 13,
        HandshakeType::ServerHelloDone => 14,
        HandshakeType::CertificateVerify => 15,
        HandshakeType::ClientKeyExchange => 16,
        HandshakeType::Finished => 20,
    }
}

impl HandshakeType {
    pub fn from_u8(value: u8) -> (r: Result<HandshakeType, TlsError>)
        ensures
            r is Ok ==> handshake_type_byte(r.unwrap()) == value,
            r is Err ==> r == Err::<HandshakeType, TlsError>(TlsError::UnknownHandshakeType(value))
                && (forall|h: HandshakeType| handshake_type_byte(h) != value),
    {
        if value == 1 {
            Ok(HandshakeType::ClientHello)
        } else if value == 2 {
            Ok(HandshakeType::ServerHello)
        } else if value == 4 {
            Ok(HandshakeType::NewSessionTicket)
        } else if value == 11 {
            Ok(HandshakeType::Certificate)
        } else if value == 12 {
            Ok(HandshakeType::ServerKeyExchange)
        } else if value == 13 {
            Ok(HandshakeType::CertificateRequest)
        } else if value == 14 {
            Ok(HandshakeType::ServerHelloDone)
        } else if value == 15 {
            Ok(HandshakeType::CertificateVerify)
        } else if value == 16 {
            Ok(HandshakeType::ClientKeyExchange)
        } else if value == 20 {
            Ok(HandshakeType::Finished)
        } else {
            Err(TlsError::UnknownHandshakeType(value))
        }
    }

    pub fn as_u8(&self) -> (r: u8)
        ensures
            r == handshake_type_byte(*self),
    {
        match self {
            HandshakeType::ClientHello => 1,
            HandshakeType::ServerHello => 2,
            HandshakeType::NewSessionTicket => 4,
            HandshakeType::Certificate => 11,
            HandshakeType::ServerKeyExchange => 12,
            HandshakeType::CertificateRequest => 13,
            HandshakeType::ServerHelloDone => 14,
            HandshakeType::CertificateVerify => 15,
            HandshakeType::ClientKeyExchange => 16,
            HandshakeType::Finished => 20,
        }
    }
}

/// One TLS record: content type, legacy version, payload.
#[derive(Debug, Clone)]
pub struct TlsRecord {
    pub content_type: ContentType,
    pub version: u16,
    pub payload: Vec<u8>,
}

/// The wire form of a record.
pub open spec fn record_bytes(c: ContentType, version: u16, payload: Seq<u8>) -> Seq<u8> {
    seq![content_type_byte(c)] + u16_bytes(version) + u16_bytes(payload.len() as u16) + payload
}

impl TlsRecord {
    /// Takes one complete record off the front of `buf`: `Ok(None)` (and
    /// `buf` untouched) while the header or the payload is incomplete.
    pub fn parse(buf: &mut Vec<u8>) -> (r: Result<Option<TlsRecord>, TlsError>)
        ensures
            old(buf)@.len() < 5 ==> r == Ok::<Option<TlsRecord>, TlsError>(None) && final(buf)@ == old(buf)@,
            old(buf)@.len() >= 5 && content_type_of(old(buf)@[0]).is_none() ==> r == Err::<Option<TlsRecord>, TlsError>(
                TlsError::UnknownContentType(old(buf)@[0]),
            ) && final(buf)@ == old(buf)@,
            old(buf)@.len() >= 5 && content_type_of(old(buf)@[0]).is_some() && old(buf)@.len() < 5 + be16(old(buf)@, 3)
                ==> r == Ok::<Option<TlsRecord>, TlsError>(None) && final(buf)@ == old(buf)@,
            old(buf)@.len() >= 5 && content_type_of(old(buf)@[0]).is_some() && old(buf)@.len() >= 5 + be16(old(buf)@, 3)
                ==> r is Ok && r.unwrap() is Some && ({
                let t = r.unwrap().unwrap();
                &&& Some(t.content_type) == content_type_of(old(buf)@[0])
                &&& t.version as int == be16(old(buf)@, 1)
                &&& t.payload@ == old(buf)@.subrange(5, 5 + be16(old(buf)@, 3))
                &&& final(buf)@ == old(buf)@.subrange(5 + be16(old(buf)@, 3), old(buf)@.len() as int)
            }),
    {
        if buf.len() < 5 {
            return Ok(None);
        }
        let content_type = match ContentType::from_u8(buf[0]) {
            Ok(c) => c,
            Err(e) => return Err(e),
        };
        let version = read_u16(buf.as_slice(), 1);
        let length = read_u16(buf.as_slice(), 3) as usize;
        if buf.len() < 5 + length {
            return Ok(None);
        }
        let payload = copy_range(buf.as_slice(), 5, 5 + length);
        let rest = buf.split_off(5 + length);
        *buf = rest;
        Ok(Some(TlsRecord { content_type, version, payload }))
    }

    /// The wire form; a payload over 65535 bytes does not fit the length field.
    pub fn encode(&self) -> (r: Result<Vec<u8>, TlsError>)
        ensures
            self.payload@.len() > 65535 ==> r == Err::<Vec<u8>, TlsError>(TlsError::TooLong),
            self.payload@.len() <= 65535 ==> r is Ok && r.unwrap()@ == record_bytes(self.content_type, self.version, self.payload@),
    {
        if self.payload.len() > 65535 {
            return Err(TlsError::TooLong);
        }
        let mut out: Vec<u8> = Vec::new();
        out.push(self.content_type.as_u8());
        push_u16(&mut out, self.version);
        push_u16(&mut out, self.payload.len() as u16);
        push_all(&mut out, self.payload.as_slice());
        assert(out@ =~= record_bytes(self.content_type, self.version, self.payload@));
        Ok(out)
    }
}

/// One extension: type and opaque data.
#[derive(Debug, Clone)]
pub struct Extension {
    pub extension_type: u16,
    pub data: Vec<u8>,
}

/// The extensions of a block, each a 2-byte type, a 2-byte length and that
/// many bytes; `None` when an entry runs past the end.
pub open spec fn extension_list(d: Seq<u8>) -> Option<Seq<(u16, Seq<u8>)>>
    decreases d.len(),
{
    if d.len() == 0 {
        Some(Seq::empty())
    } else if d.len() < 4 || d.len() - 4 < be16(d, 2) {
        None
    } else {
        match extension_list(d.subrange(4 + be16(d, 2), d.len() as int)) {
            Some(rest) => Some(seq![(be16(d, 0) as u16, d.subrange(4, 4 + be16(d, 2)))] + rest),
            None => None,
        }
    }
}

/// The key of the first X25519 entry with a 32-byte key in a run of key
/// share entries, stopping at a truncated one.
pub open spec fn x25519_entry(l: Seq<u8>) -> Option<Seq<u8>>
    decreases l.len(),
{
    if l.len() < 4 || l.len() - 4 < be16(l, 2) {
        None
    } else if be16(l, 0) == 0x001d && be16(l, 2) == 32 {
        Some(l.subrange(4, 36))
    } else {
        x25519_entry(l.subrange(4 + be16(l, 2), l.len() as int))
    }
}

/// The X25519 key of a key_share extension: entries after the 2-byte list length.
pub open spec fn key_share_key(d: Seq<u8>) -> Option<Seq<u8>> {
    if d.len() < 2 {
        None
    } else {
        x25519_entry(d.subrange(2, d.len() as int))
    }
}

/// The (type, data) pairs of a list of extensions.
pub open spec fn ext_model(v: Seq<Extension>) -> Seq<(u16, Seq<u8>)> {
    Seq::new(v.len(), |i: int| (v[i].extension_type, v[i].data@))
}

pub open spec fn prepend_exts(a: Seq<(u16, Seq<u8>)>, o: Option<Seq<(u16, Seq<u8>)>>) -> Option<Seq<(u16, Seq<u8>)>> {
    match o {
        Some(t) => Some(a + t),
        None => None,
    }
}

impl Extension {
    /// Splits an extension block into its extensions.
    pub fn parse_all(data: &[u8]) -> (r: Result<Vec<Extension>, TlsError>)
        ensures
            match extension_list(data@) {
                Some(l) => r is Ok && ext_model(r.unwrap()@) == l,
                None => r == Err::<Vec<Extension>, TlsError>(TlsError::Truncated),
            },
    {
        let mut out: Vec<Extension> = Vec::new();
        let mut p: usize = 0;
        let len = data.len();
        assert(data@.subrange(0, len as int) =~= data@);
        assert(ext_model(out@) + Seq::<(u16, Seq<u8>)>::empty() =~= Seq::<(u16, Seq<u8>)>::empty());
        assert(prepend_exts(ext_model(out@), extension_list(data@)) =~= extension_list(data@));
        while p < len
            invariant
                p <= len,
                len == data@.len(),
                extension_list(data@) == prepend_exts(ext_model(out@), extension_list(data@.subrange(p as int, len as int))),
            decreases len - p,
        {
            let ghost d = data@.subrange(p as int, len as int);
            if len - p < 4 {
                return Err(TlsError::Truncated);
            }
            let extension_type = read_u16(data, p);
            let n = read_u16(data, p + 2) as usize;
            assert(extension_type == be16(d, 0) && n == be16(d, 2));
            if len - p - 4 < n {
                return Err(TlsError::Truncated);
            }
            let ext_data = copy_range(data, p + 4, p + 4 + n);
            assert(ext_data@ =~= d.subrange(4, 4 + be16(d, 2)));
            assert(d.subrange(4 + be16(d, 2), d.len() as int) =~= data@.subrange(p + 4 + n, len as int));
            let ghost before = ext_model(out@);
            out.push(Extension { extension_type, data: ext_data });
            p = p + 4 + n;
            proof {
                assert(ext_model(out@) =~= before.push((extension_type, ext_data@)));
                match extension_list(data@.subrange(p as int, len as int)) {
                    Some(t) => {
                        assert(before + (seq![(extension_type, ext_data@)] + t) =~= ext_model(out@) + t);
                    },
                    None => {},
                }
            }
        }
        assert(data@.subrange(p as int, len as int).len() == 0);
        assert(ext_model(out@) + Seq::<(u16, Seq<u8>)>::empty() =~= ext_model(out@));
        Ok(out)
    }

    /// The name of the first host_name entry of the server name list in the
    /// data of a server_name extension (see `sni_of_ext`).
    pub fn parse_sni(data: &[u8]) -> (r: Option<String>)
        ensures
            r.is_some() == sni_of_ext(data@).is_some(),
            r.is_some() ==> r.unwrap()@ == sni_of_ext(data@).unwrap(),
    {
        assert(data@.subrange(0, data@.len() as int) =~= data@);
        sni_from_ext(data, 0, data.len())
    }

    /// The key of the first X25519 entry of a key_share extension.
    pub fn parse_client_key_share(data: &[u8]) -> (r: Option<Vec<u8>>)
        ensures
            r.is_some() == key_share_key(data@).is_some(),
            r.is_some() ==> r.unwrap()@ == key_share_key(data@).unwrap(),
    {
        let len = data.len();
        if len < 2 {
            return None;
        }
        let mut p: usize = 2;
        while p < len
            invariant
                2 <= p <= len,
                len == data@.len(),
                key_share_key(data@) == x25519_entry(data@.subrange(p as int, len as int)),
            decreases len - p,
        {
            let ghost l = data@.subrange(p as int, len as int);
            if len - p < 4 {
                return None;
            }
            let group = read_u16(data, p);
            let n = read_u16(data, p + 2) as usize;
            assert(group == be16(l, 0) && n == be16(l, 2));
            if len - p - 4 < n {
                return None;
            }
            if group == 0x001d && n == 32 {
                let key = copy_range(data, p + 4, p + 36);
                assert(key@ =~= l.subrange(4, 36));
                return Some(key);
            }
            assert(l.subrange(4 + be16(l, 2), l.len() as int) =~= data@.subrange(p + 4 + n, len as int));
            p = p + 4 + n;
        }
        None
    }
}

/// A ClientHello handshake message and its fields.
#[derive(Debug, Clone)]
pub struct ClientHello {
    pub version: u16,
    pub random: [u8; 32],
    pub session_id: Vec<u8>,
    pub cipher_suites: Vec<u16>,
    pub compression_methods: Vec<u8>,
    pub extensions: Vec<Extension>,
    /// The message as received, kept for forwarding.
    pub raw_data: Vec<u8>,
}

pub open spec fn ch_sid_end(d: Seq<u8>) -> int {
    39 + d[38] as int
}

/// End of the cipher suites: a whole number of 2-byte suites.
pub open spec fn ch_cs_end(d: Seq<u8>) -> int {
    ch_sid_end(d) + 2 + 2 * (be16(d, ch_sid_end(d)) / 2)
}

pub open spec fn ch_ext_at(d: Seq<u8>) -> int {
    ch_cs_end(d) + 1 + d[ch_cs_end(d)] as int
}

/// Whether the fields of a ClientHello message up to its extensions fit.
pub open spec fn ch_head_fits(d: Seq<u8>) -> bool {
    d.len() >= 39 && d.len() >= ch_sid_end(d) + 2 && d.len() >= ch_cs_end(d) + 1 && d.len() >= ch_ext_at(d)
}

/// The extensions of a ClientHello message: none when the message ends
/// right after the compression methods.
pub open spec fn ch_extensions(d: Seq<u8>) -> Option<Seq<(u16, Seq<u8>)>> {
    let p = ch_ext_at(d);
    if p >= d.len() {
        Some(Seq::empty())
    } else if d.len() - p < 2 || d.len() - (p + 2) < be16(d, p) {
        None
    } else {
        extension_list(d.subrange(p + 2, p + 2 + be16(d, p)))
    }
}

impl ClientHello {
    /// Reads a ClientHello handshake message (handshake header included).
    pub fn parse(data: &[u8]) -> (r: Result<ClientHello, TlsError>)
        ensures
            (data@.len() < 1 || data@[0] != 1) ==> r == Err::<ClientHello, TlsError>(TlsError::NotClientHello),
            data@.len() >= 1 && data@[0] == 1 && (!ch_head_fits(data@) || ch_extensions(data@).is_none())
                ==> r == Err::<ClientHello, TlsError>(TlsError::Truncated),
            data@.len() >= 1 && data@[0] == 1 && ch_head_fits(data@) && ch_extensions(data@) is Some ==> r is Ok,
            r is Ok ==> ({
                let c = r.unwrap();
                let d = data@;
                &&& d[0] == 1 && ch_head_fits(d) && ch_extensions(d).is_some()
                &&& c.version as int == be16(d, 4)
                &&& c.random@ == d.subrange(6, 38)
                &&& c.session_id@ == d.subrange(39, ch_sid_end(d))
                &&& c.cipher_suites@.len() == be16(d, ch_sid_end(d)) / 2
                &&& forall|i: int| 0 <= i < c.cipher_suites@.len() ==> #[trigger] c.cipher_suites@[i] as int
                    == be16(d, ch_sid_end(d) + 2 + 2 * i)
                &&& c.compression_methods@ == d.subrange(ch_cs_end(d) + 1, ch_ext_at(d))
                &&& ext_model(c.extensions@) == ch_extensions(d).unwrap()
                &&& c.raw_data@ == d
            }),
    {
        let len = data.len();
        if len < 1 || data[0] != 1 {
            return Err(TlsError::NotClientHello);
        }
        if len < 39 {
            return Err(TlsError::Truncated);
        }
        let version = read_u16(data, 4);
        let mut random: [u8; 32] = [0u8; 32];
        let mut i: usize = 0;
        while i < 32
            invariant
                i <= 32,
                len == data@.len(),
                len >= 39,
                forall|k: int| 0 <= k < i ==> random@[k] == data@[6 + k],
            decreases 32 - i,
        {
            random[i] = data[6 + i];
            i = i + 1;
        }
        assert(random@ =~= data@.subrange(6, 38));
        let sid_end: usize = 39 + data[38] as usize;
        if len < sid_end + 2 {
            return Err(TlsError::Truncated);
        }
        let session_id = copy_range(data, 39, sid_end);
        let pairs: usize = read_u16(data, sid_end) as usize / 2;
        let cs_end: usize = sid_end + 2 + 2 * pairs;
        if len < cs_end + 1 {
            return Err(TlsError::Truncated);
        }
        let mut cipher_suites: Vec<u16> = Vec::new();
        let mut j: usize = 0;
        while j < pairs
            invariant
                j <= pairs,
                len == data@.len(),
                sid_end + 2 + 2 * pairs + 1 <= len,
                cipher_suites@.len() == j,
                forall|k: int| 0 <= k < j ==> #[trigger] cipher_suites@[k] as int == be16(data@, sid_end + 2 + 2 * k),
            decreases pairs - j,
        {
            cipher_suites.push(read_u16(data, sid_end + 2 + 2 * j));
            j = j + 1;
        }
        let cm_len = data[cs_end] as usize;
        let ext_at: usize = cs_end + 1 + cm_len;
        if len < ext_at {
            return Err(TlsError::Truncated);
        }
        let compression_methods = copy_range(data, cs_end + 1, ext_at);
        let extensions: Vec<Extension> = if ext_at < len {
            if len - ext_at < 2 {
                return Err(TlsError::Truncated);
            }
            let ext_len = read_u16(data, ext_at) as usize;
            if len - (ext_at + 2) < ext_len {
                return Err(TlsError::Truncated);
            }
            let block = copy_range(data, ext_at + 2, ext_at + 2 + ext_len);
            match Extension::parse_all(block.as_slice()) {
                Ok(v) => v,
                Err(e) => return Err(e),
            }
        } else {
            let v: Vec<Extension> = Vec::new();
            assert(ext_model(v@) =~= Seq::<(u16, Seq<u8>)>::empty());
            v
        };
        let raw_data = copy_range(data, 0, len);
        assert(data@.subrange(0, len as int) =~= data@);
        Ok(ClientHello { version, random, session_id, cipher_suites, compression_methods, extensions, raw_data })
    }

    /// The host name of the first server_name extension.
    pub fn get_sni(&self) -> (r: Option<String>)
        ensures
            match first_ext_of(ext_model(self.extensions@), 0) {
                Some(d) => r.is_some() == sni_of_ext(d).is_some() && (r.is_some() ==> r.unwrap()@ == sni_of_ext(d).unwrap()),
                None => r.is_none(),
            },
    {
        match self.first_extension(0) {
            Some(i) => Extension::parse_sni(self.extensions[i].data.as_slice()),
            None => None,
        }
    }

    /// The X25519 key of the first key_share extension.
    pub fn get_key_share(&self) -> (r: Option<Vec<u8>>)
        ensures
            match first_ext_of(ext_model(self.extensions@), 0x0033) {
                Some(d) => r.is_some() == key_share_key(d).is_some() && (r.is_some() ==> r.unwrap()@ == key_share_key(d).unwrap()),
                None => r.is_none(),
            },
    {
        match self.first_extension(0x0033) {
            Some(i) => Extension::parse_client_key_share(self.extensions[i].data.as_slice()),
            None => None,
        }
    }

    fn first_extension(&self, t: u16) -> (r: Option<usize>)
        ensures
            match first_ext_of(ext_model(self.extensions@), t) {
                Some(d) => r.is_some() && r.unwrap() < self.extensions@.len() && self.extensions@[r.unwrap() as int].data@ == d,
                None => r.is_none(),
            },
    {
        let mut i: usize = 0;
        let ghost m = ext_model(self.extensions@);
        assert(m.subrange(0, m.len() as int) =~= m);
        while i < self.extensions.len()
            invariant
                i <= self.extensions@.len(),
                m == ext_model(self.extensions@),
                first_ext_of(m, t) == first_ext_of(m.subrange(i as int, m.len() as int), t),
            decreases self.extensions@.len() - i,
        {
            let ghost rest = m.subrange(i as int, m.len() as int);
            assert(rest[0] == m[i as int]);
            if self.extensions[i].extension_type == t {
                return Some(i);
            }
            assert(rest.subrange(1, rest.len() as int) =~= m.subrange(i + 1, m.len() as int));
            i = i + 1;
        }
        None
    }

    /// The first 8 bytes of the session id, when it has that many.
    pub fn get_reality_short_id(&self) -> (r: Option<Vec<u8>>)
        ensures
            self.session_id@.len() >= 8 ==> r is Some && r.unwrap()@ == self.session_id@.subrange(0, 8),
            self.session_id@.len() < 8 ==> r is None,
    {
        if self.session_id.len() >= 8 {
            Some(copy_range(self.session_id.as_slice(), 0, 8))
        } else {
            None
        }
    }

    pub fn get_random(&self) -> (r: &[u8; 32])
        ensures
            r@ == self.random@,
    {
        &self.random
    }
}

/// The data of the first extension of type `t`.
pub open spec fn first_ext_of(m: Seq<(u16, Seq<u8>)>, t: u16) -> Option<Seq<u8>>
    decreases m.len(),
{
    if m.len() == 0 {
        None
    } else if m[0].0 == t {
        Some(m[0].1)
    } else {
        first_ext_of(m.subrange(1, m.len() as int), t)
    }
}

/// A ServerHello handshake message, as bytes.
#[derive(Debug, Clone)]
pub struct ServerHello {
    pub raw_data: Vec<u8>,
}

/// The extensions a Reality ServerHello carries: supported_versions (TLS 1.3)
/// and an X25519 key share.
pub open spec fn server_hello_extensions(key: Seq<u8>) -> Seq<u8> {
    seq![0x00u8, 0x2b, 0x00, 0x02, 0x03, 0x04, 0x00, 0x33] + u16_bytes((4 + key.len()) as u16) + seq![0x00u8, 0x1d]
        + u16_bytes(key.len() as u16) + key
}

/// The body of a Reality ServerHello after its 4-byte handshake header.
pub open spec fn server_hello_body(sid: Seq<u8>, random: Seq<u8>, key: Seq<u8>) -> Seq<u8> {
    seq![0x03u8, 0x03] + random + seq![sid.len() as u8] + sid + seq![0x13u8, 0x01, 0x00]
        + u16_bytes(server_hello_extensions(key).len() as u16) + server_hello_extensions(key)
}

/// A Reality ServerHello message: type 2, 24-bit body length, body.
pub open spec fn server_hello_message(sid: Seq<u8>, random: Seq<u8>, key: Seq<u8>) -> Seq<u8> {
    let n = server_hello_body(sid, random, key).len();
    seq![2u8, (n / 65536) as u8, ((n / 256) % 256) as u8, (n % 256) as u8] + server_hello_body(sid, random, key)
}

impl ServerHello {
    pub fn from_raw(data: Vec<u8>) -> (r: ServerHello)
        ensures
            r.raw_data@ == data@,
    {
        ServerHello { raw_data: data }
    }

    /// Signs the random with the key that `private_key` stands for.
    pub fn modify_for_reality(&mut self, private_key: &str, client_random: &[u8; 32]) -> (r: Result<(), AuthError>)
        ensures
            key_from_text(private_key@) is Err ==> r is Err && final(self).raw_data@ == old(self).raw_data@
                && key_from_text(private_key@) == Err::<Seq<u8>, AuthError>(r->Err_0),
            key_from_text(private_key@) is Ok ==> ({
                let m = old(self).raw_data@;
                &&& m.len() < 38 ==> r == Err::<(), AuthError>(AuthError::ServerHelloTooShort)
                &&& m.len() >= 38 && m[0] != 2 ==> r == Err::<(), AuthError>(AuthError::NotServerHello)
                &&& m.len() >= 38 && m[0] == 2 ==> r is Ok
                &&& r is Err ==> final(self).raw_data@ == m
                &&& r is Ok ==> final(self).raw_data@ == signed_server_hello(key_from_text(private_key@).unwrap(), client_random@, m)
            }),
    {
        let modifier = match ServerHelloModifier::new(private_key) {
            Ok(m) => m,
            Err(e) => return Err(e),
        };
        modifier.modify_server_hello(&mut self.raw_data, client_random)
    }

    /// Builds the ServerHello of a Reality handshake: it echoes the client's
    /// session id, selects TLS_AES_128_GCM_SHA256 and carries the key share.
    pub fn new_reality(client_session_id: &[u8], random: [u8; 32], key_share_data: &[u8]) -> (r: Result<ServerHello, TlsError>)
        ensures
            client_session_id@.len() > 255 || key_share_data@.len() > 65000 ==> r == Err::<ServerHello, TlsError>(TlsError::TooLong),
            client_session_id@.len() <= 255 && key_share_data@.len() <= 65000 ==> r is Ok
                && r.unwrap().raw_data@ == server_hello_message(client_session_id@, random@, key_share_data@),
    {
        if client_session_id.len() > 255 || key_share_data.len() > 65000 {
            return Err(TlsError::TooLong);
        }
        let k = key_share_data.len();
        let mut ext: Vec<u8> = Vec::new();
        push_u16(&mut ext, 0x002b);
        push_u16(&mut ext, 2);
        push_u16(&mut ext, 0x0304);
        push_u16(&mut ext, 0x0033);
        push_u16(&mut ext, (4 + k) as u16);
        push_u16(&mut ext, 0x001d);
        push_u16(&mut ext, k as u16);
        push_all(&mut ext, key_share_data);
        assert(ext@ =~= server_hello_extensions(key_share_data@));
        let mut body: Vec<u8> = Vec::new();
        push_u16(&mut body, 0x0303);
        push_all(&mut body, random.as_slice());
        body.push(client_session_id.len() as u8);
        push_all(&mut body, client_session_id);
        push_u16(&mut body, 0x1301);
        body.push(0);
        push_u16(&mut body, ext.len() as u16);
        push_all(&mut body, ext.as_slice());
        assert(body@ =~= server_hello_body(client_session_id@, random@, key_share_data@));
        let n = body.len();
        let mut out: Vec<u8> = Vec::new();
        out.push(2);
        out.push((n / 65536) as u8);
        out.push(((n / 256) % 256) as u8);
        out.push((n % 256) as u8);
        push_all(&mut out, body.as_slice());
        assert(out@ =~= server_hello_message(client_session_id@, random@, key_share_data@));
        Ok(ServerHello { raw_data: out })
    }

    /// The message inside a handshake record (legacy version 0x0303).
    pub fn encode(&self) -> (r: Result<Vec<u8>, TlsError>)
        ensures
            self.raw_data@.len() > 65535 ==> r == Err::<Vec<u8>, TlsError>(TlsError::TooLong),
            self.raw_data@.len() <= 65535 ==> r is Ok && r.unwrap()@ == record_bytes(ContentType::Handshake, 0x0303, self.raw_data@),
    {
        if self.raw_data.len() > 65535 {
            return Err(TlsError::TooLong);
        }
        let mut out: Vec<u8> = Vec::new();
        out.push(22);
        push_u16(&mut out, 0x0303);
        push_u16(&mut out, self.raw_data.len() as u16);
        push_all(&mut out, self.raw_data.as_slice());
        assert(out@ =~= record_bytes(ContentType::Handshake, 0x0303, self.raw_data@));
        Ok(out)
    }

    pub fn handshake_payload(&self) -> (r: &[u8])
        ensures
            r@ == self.raw_data@,
    {
        self.raw_data.as_slice()
    }
}

} // verus!
