//! A bounded walk over a TLS ClientHello record that copies out the fields
//! Reality admission needs.
use vstd::prelude::*;
use vstd::utf8::*;
use crate::text::utf8_string;
use crate::wire::{be16, copy_range, read_u16};

verus! {

/// Fields of a ClientHello that admission looks at.
#[derive(Debug, Clone)]
pub struct ClientHelloInfo {
    pub session_id: Vec<u8>,
    pub client_random: [u8; 32],
    pub public_key: Option<Vec<u8>>,
    pub server_name: Option<String>,
}

/// Why a record that looked like a ClientHello could not be walked.
#[derive(Debug, Clone, Copy, PartialEq, Eq, Structural)]
pub enum HelloError {
    /// A length field points past the end of the buffer.
    ShortBuffer,
}

/// What the walk extracts: session id, random, X25519 share, server name.
pub struct HelloModel {
    pub session_id: Seq<u8>,
    pub client_random: Seq<u8>,
    pub public_key: Option<Seq<u8>>,
    pub server_name: Option<Seq<char>>,
}

impl View for ClientHelloInfo {
    type V = HelloModel;

    open spec fn view(&self) -> HelloModel {
        HelloModel {
            session_id: self.session_id@,
            client_random: self.client_random@,
            public_key: match self.public_key {
                Some(k) => Some(k@),
                None => None,
            },
            server_name: match self.server_name {
                Some(n) => Some(n@),
                None => None,
            },
        }
    }
}

/// The first host_name entry of a server_name list: it ends the walk, and
/// yields the name when its bytes are valid UTF-8.
pub open spec fn sni_in_list(l: Seq<u8>) -> Option<Seq<char>>
    decreases l.len(),
{
    if l.len() < 3 {
        None
    } else if l.len() - 3 < be16(l, 1) {
        None
    } else if l[0] == 0 {
        let name = l.subrange(3, 3 + be16(l, 1));
        if valid_utf8(name) {
            Some(decode_utf8(name))
        } else {
            None
        }
    } else {
        sni_in_list(l.subrange(3 + be16(l, 1), l.len() as int))
    }
}

/// The host name carried by the data of a server_name extension.
pub open spec fn sni_of_ext(d: Seq<u8>) -> Option<Seq<char>> {
    if d.len() < 2 || d.len() - 2 < be16(d, 0) {
        None
    } else {
        sni_in_list(d.subrange(2, 2 + be16(d, 0)))
    }
}

/// The first 32-byte X25519 (group 0x001d) entry of a client_shares list.
pub open spec fn x25519_in_shares(l: Seq<u8>) -> Option<Seq<u8>>
    decreases l.len(),
{
    if l.len() < 4 {
        None
    } else if l.len() - 4 < be16(l, 2) {
        None
    } else if be16(l, 0) == 0x001d && be16(l, 2) == 32 {
        Some(l.subrange(4, 36))
    } else {
        x25519_in_shares(l.subrange(4 + be16(l, 2), l.len() as int))
    }
}

/// The X25519 key carried by the data of a key_share extension.
pub open spec fn key_of_ext(d: Seq<u8>) -> Option<Seq<u8>> {
    if d.len() < 2 || d.len() - 2 < be16(d, 0) {
        None
    } else {
        x25519_in_shares(d.subrange(2, 2 + be16(d, 0)))
    }
}

/// The walk over the extension block: each server_name extension that
/// yields a name and each key_share extension that yields a key replaces
/// what was found before; the walk stops once both are found, or at a
/// truncated entry.
pub open spec fn walk_extensions(e: Seq<u8>, pk: Option<Seq<u8>>, sn: Option<Seq<char>>) -> (Option<Seq<u8>>, Option<Seq<char>>)
    decreases e.len(),
{
    if e.len() < 4 || (pk.is_some() && sn.is_some()) {
        (pk, sn)
    } else if e.len() - 4 < be16(e, 2) {
        (pk, sn)
    } else {
        let d = e.subrange(4, 4 + be16(e, 2));
        let sn2 = if be16(e, 0) == 0 && sni_of_ext(d).is_some() { sni_of_ext(d) } else { sn };
        let pk2 = if be16(e, 0) == 0x0033 && key_of_ext(d).is_some() { key_of_ext(d) } else { pk };
        walk_extensions(e.subrange(4 + be16(e, 2), e.len() as int), pk2, sn2)
    }
}

/// Offset of the cipher suites length: after record header (5), handshake
/// header (4), version (2), random (32), session id length and session id.
pub open spec fn cs_at(s: Seq<u8>) -> int {
    44 + s[43] as int
}

pub open spec fn cm_at(s: Seq<u8>) -> int {
    cs_at(s) + 2 + be16(s, cs_at(s))
}

pub open spec fn ext_at(s: Seq<u8>) -> int {
    cm_at(s) + 1 + s[cm_at(s)] as int
}

/// What the walk of a buffer found.
#[derive(Debug, Clone)]
pub enum HelloParse {
    /// Not a TLS handshake record, or a handshake message other than a ClientHello.
    NotClientHello,
    /// The record header or the record is not complete yet.
    Incomplete,
    /// A ClientHello and the fields taken from it.
    Hello(ClientHelloInfo),
}

pub enum HelloParseModel {
    NotClientHello,
    Incomplete,
    Hello(HelloModel),
}

impl View for HelloParse {
    type V = HelloParseModel;

    open spec fn view(&self) -> HelloParseModel {
        match self {
            HelloParse::NotClientHello => HelloParseModel::NotClientHello,
            HelloParse::Incomplete => HelloParseModel::Incomplete,
            HelloParse::Hello(i) => HelloParseModel::Hello(i@),
        }
    }
}

/// The walk of a buffer that holds a TLS record: not a ClientHello when the
/// first byte is not 0x16 or the message type is not 1, incomplete while the
/// record header or the record is cut short, an error when a length field
/// inside the record runs past the buffer, else the extracted fields.
pub open spec fn parse_hello(s: Seq<u8>) -> Result<HelloParseModel, HelloError> {
    if s.len() >= 1 && s[0] != 0x16 {
        Ok(HelloParseModel::NotClientHello)
    } else if s.len() < 5 || s.len() < 5 + be16(s, 3) {
        Ok(HelloParseModel::Incomplete)
    } else if s.len() < 9 {
        Err(HelloError::ShortBuffer)
    } else if s[5] != 1 {
        Ok(HelloParseModel::NotClientHello)
    } else if s.len() < 44 {
        Err(HelloError::ShortBuffer)
    } else if s.len() < cs_at(s) + 2 || s.len() - (cs_at(s) + 2) < be16(s, cs_at(s)) {
        Err(HelloError::ShortBuffer)
    } else if s.len() < cm_at(s) + 1 || s.len() - (cm_at(s) + 1) < s[cm_at(s)] as int {
        Err(HelloError::ShortBuffer)
    } else if s.len() - ext_at(s) < 2 {
        Ok(HelloParseModel::Hello(HelloModel {
            session_id: s.subrange(44, cs_at(s)),
            client_random: s.subrange(11, 43),
            public_key: None,
            server_name: None,
        }))
    } else if s.len() - (ext_at(s) + 2) < be16(s, ext_at(s)) {
        Err(HelloError::ShortBuffer)
    } else {
        let found = walk_extensions(s.subrange(ext_at(s) + 2, ext_at(s) + 2 + be16(s, ext_at(s))), None, None);
        Ok(HelloParseModel::Hello(HelloModel {
            session_id: s.subrange(44, cs_at(s)),
            client_random: s.subrange(11, 43),
            public_key: found.0,
            server_name: found.1,
        }))
    }
}

pub(crate) fn sni_from_ext(b: &[u8], start: usize, end: usize) -> (r: Option<String>)
    requires
        start <= end <= b@.len(),
    ensures
        r.is_some() == sni_of_ext(b@.subrange(start as int, end as int)).is_some(),
        r.is_some() ==> r.unwrap()@ == sni_of_ext(b@.subrange(start as int, end as int)).unwrap(),
{
    let ghost d = b@.subrange(start as int, end as int);
    if end - start < 2 {
        return None;
    }
    let list_len = read_u16(b, start) as usize;
    assert(list_len == be16(d, 0));
    if end - start - 2 < list_len {
        return None;
    }
    let mut p: usize = start + 2;
    let lend: usize = start + 2 + list_len;
    assert(d.subrange(2, 2 + be16(d, 0)) =~= b@.subrange(p as int, lend as int));
    while p < lend
        invariant
            start + 2 <= p <= lend <= end <= b@.len(),
            sni_of_ext(d) == sni_in_list(b@.subrange(p as int, lend as int)),
            d == b@.subrange(start as int, end as int),
        decreases lend - p,
    {
        let ghost l = b@.subrange(p as int, lend as int);
        if lend - p < 3 {
            return None;
        }
        let name_type = b[p];
        let name_len = read_u16(b, p + 1) as usize;
        assert(name_type == l[0] && name_len == be16(l, 1));
        if lend - p - 3 < name_len {
            return None;
        }
        if name_type == 0 {
            let name = copy_range(b, p + 3, p + 3 + name_len);
            assert(name@ =~= l.subrange(3, 3 + be16(l, 1)));
            return utf8_string(name);
        }
        assert(l.subrange(3 + be16(l, 1), l.len() as int) =~= b@.subrange(p + 3 + name_len, lend as int));
        p = p + 3 + name_len;
    }
    assert(b@.subrange(p as int, lend as int).len() == 0);
    None
}

fn key_from_ext(b: &[u8], start: usize, end: usize) -> (r: Option<Vec<u8>>)
    requires
        start <= end <= b@.len(),
    ensures
        r.is_some() == key_of_ext(b@.subrange(start as int, end as int)).is_some(),
        r.is_some() ==> r.unwrap()@ == key_of_ext(b@.subrange(start as int, end as int)).unwrap(),
        r.is_some() ==> r.unwrap()@.len() == 32,
{
    let ghost d = b@.subrange(start as int, end as int);
    if end - start < 2 {
        return None;
    }
    let shares_len = read_u16(b, start) as usize;
    assert(shares_len == be16(d, 0));
    if end - start - 2 < shares_len {
        return None;
    }
    let mut p: usize = start + 2;
    let lend: usize = start + 2 + shares_len;
    assert(d.subrange(2, 2 + be16(d, 0)) =~= b@.subrange(p as int, lend as int));
    while p < lend
        invariant
            start + 2 <= p <= lend <= end <= b@.len(),
            key_of_ext(d) == x25519_in_shares(b@.subrange(p as int, lend as int)),
            d == b@.subrange(start as int, end as int),
        decreases lend - p,
    {
        let ghost l = b@.subrange(p as int, lend as int);
        if lend - p < 4 {
            return None;
        }
        let group = read_u16(b, p);
        let key_len = read_u16(b, p + 2) as usize;
        assert(group == be16(l, 0) && key_len == be16(l, 2));
        if lend - p - 4 < key_len {
            return None;
        }
        if group == 0x001d && key_len == 32 {
            let key = copy_range(b, p + 4, p + 36);
            assert(key@ =~= l.subrange(4, 36));
            return Some(key);
        }
        assert(l.subrange(4 + be16(l, 2), l.len() as int) =~= b@.subrange(p + 4 + key_len, lend as int));
        p = p + 4 + key_len;
    }
    assert(b@.subrange(p as int, lend as int).len() == 0);
    None
}

/// Walks a buffer holding a TLS record (record header included) and copies
/// out the session id, client random, X25519 key share and server name.
pub fn parse_client_hello(buf: &[u8]) -> (r: Result<HelloParse, HelloError>)
    ensures
        r matches Ok(HelloParse::Hello(i)) ==> (i.public_key is Some ==> i.public_key.unwrap()@.len() == 32)
            && i.session_id@.len() <= 255,
        match (r, parse_hello(buf@)) {
            (Ok(p), Ok(m)) => p@ == m,
            (Err(e), Err(f)) => e == f,
            _ => false,
        },
{
    let len = buf.len();
    if len >= 1 && buf[0] != 0x16 {
        return Ok(HelloParse::NotClientHello);
    }
    if len < 5 {
        return Ok(HelloParse::Incomplete);
    }
    let record_len = read_u16(buf, 3) as usize;
    if len < 5 + record_len {
        return Ok(HelloParse::Incomplete);
    }
    if len < 9 {
        return Err(HelloError::ShortBuffer);
    }
    if buf[5] != 1 {
        return Ok(HelloParse::NotClientHello);
    }
    if len < 44 {
        return Err(HelloError::ShortBuffer);
    }
    let client_random: [u8; 32] = [buf[11], buf[12], buf[13], buf[14], buf[15], buf[16], buf[17], buf[18],
        buf[19], buf[20], buf[21], buf[22], buf[23], buf[24], buf[25], buf[26], buf[27], buf[28], buf[29],
        buf[30], buf[31], buf[32], buf[33], buf[34], buf[35], buf[36], buf[37], buf[38], buf[39], buf[40],
        buf[41], buf[42]];
    assert(client_random@ =~= buf@.subrange(11, 43));
    let cs: usize = 44 + buf[43] as usize;
    if len < cs + 2 {
        return Err(HelloError::ShortBuffer);
    }
    let cs_len = read_u16(buf, cs) as usize;
    if len - (cs + 2) < cs_len {
        return Err(HelloError::ShortBuffer);
    }
    let session_id = copy_range(buf, 44, cs);
    let cm: usize = cs + 2 + cs_len;
    if len < cm + 1 {
        return Err(HelloError::ShortBuffer);
    }
    let cm_len = buf[cm] as usize;
    if len - (cm + 1) < cm_len {
        return Err(HelloError::ShortBuffer);
    }
    let ext: usize = cm + 1 + cm_len;
    if len - ext < 2 {
        return Ok(HelloParse::Hello(ClientHelloInfo { session_id, client_random, public_key: None, server_name: None }));
    }
    let ext_len = read_u16(buf, ext) as usize;
    if len - (ext + 2) < ext_len {
        return Err(HelloError::ShortBuffer);
    }
    let mut p: usize = ext + 2;
    let eend: usize = ext + 2 + ext_len;
    let mut public_key: Option<Vec<u8>> = None;
    let mut server_name: Option<String> = None;
    let ghost target = walk_extensions(buf@.subrange(p as int, eend as int), None, None);
    while p < eend && !(public_key.is_some() && server_name.is_some())
        invariant
            ext + 2 <= p <= eend <= buf@.len(),
            walk_extensions(
                buf@.subrange(p as int, eend as int),
                match public_key { Some(k) => Some(k@), None => None },
                match server_name { Some(n) => Some(n@), None => None },
            ) == target,
            public_key is Some ==> public_key.unwrap()@.len() == 32,
        decreases eend - p,
    {
        let ghost e = buf@.subrange(p as int, eend as int);
        if eend - p < 4 {
            p = eend;
        } else {
            let ext_type = read_u16(buf, p);
            let data_len = read_u16(buf, p + 2) as usize;
            assert(ext_type == be16(e, 0) && data_len == be16(e, 2));
            if eend - p - 4 < data_len {
                p = eend;
            } else {
                let ds: usize = p + 4;
                let de: usize = p + 4 + data_len;
                assert(e.subrange(4, 4 + be16(e, 2)) =~= buf@.subrange(ds as int, de as int));
                if ext_type == 0 {
                    match sni_from_ext(buf, ds, de) {
                        Some(n) => { server_name = Some(n); },
                        None => {},
                    }
                }
                if ext_type == 0x0033 {
                    match key_from_ext(buf, ds, de) {
                        Some(k) => { public_key = Some(k); },
                        None => {},
                    }
                }
                assert(e.subrange(4 + be16(e, 2), e.len() as int) =~= buf@.subrange(de as int, eend as int));
                p = de;
            }
        }
    }
    Ok(HelloParse::Hello(ClientHelloInfo { session_id, client_random, public_key, server_name }))
}

} // verus!
