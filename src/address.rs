//! The VLESS destination address: type byte, payload, big-endian port.
use vstd::prelude::*;
use vstd::utf8::*;
use crate::error::VlessError;
use crate::text::{all_ascii, ascii_chars, string_bytes, utf8_string};
use crate::wire::{be16, copy_range, push_all, push_u16, read_u16, u16_bytes};

verus! {

broadcast use {encode_utf8_valid_utf8, encode_utf8_decode_utf8};

/// Address type byte of an IPv4 address.
pub const ATYP_IPV4: u8 = 1;
/// Address type byte of a domain name.
pub const ATYP_DOMAIN: u8 = 2;
/// Address type byte of an IPv6 address.
pub const ATYP_IPV6: u8 = 3;

/// A destination: four or sixteen address bytes, or a domain, and a port.
#[derive(Debug, Clone, PartialEq)]
pub enum Address {
    Ipv4([u8; 4], u16),
    Ipv6([u8; 16], u16),
    Domain(String, u16),
}

/// What an address denotes.
pub enum AddrModel {
    Ipv4(Seq<u8>, u16),
    Ipv6(Seq<u8>, u16),
    Domain(Seq<char>, u16),
}

impl View for Address {
    type V = AddrModel;

    open spec fn view(&self) -> AddrModel {
        match self {
            Address::Ipv4(ip, port) => AddrModel::Ipv4(ip@, *port),
            Address::Ipv6(ip, port) => AddrModel::Ipv6(ip@, *port),
            Address::Domain(d, port) => AddrModel::Domain(d@, *port),
        }
    }
}

/// Whether an address can be written: a domain takes at most 255 bytes.
pub open spec fn encodable(a: AddrModel) -> bool {
    match a {
        AddrModel::Domain(d, _) => encode_utf8(d).len() <= 255,
        _ => true,
    }
}

/// The wire form of an address.
pub open spec fn encode_address(a: AddrModel) -> Seq<u8> {
    match a {
        AddrModel::Ipv4(ip, port) => seq![ATYP_IPV4] + ip + u16_bytes(port),
        AddrModel::Ipv6(ip, port) => seq![ATYP_IPV6] + ip + u16_bytes(port),
        AddrModel::Domain(d, port) => seq![ATYP_DOMAIN, encode_utf8(d).len() as u8] + encode_utf8(d)
            + u16_bytes(port),
    }
}

/// A domain read from `s` at `at`: length byte, that many bytes, port.
pub open spec fn domain_at(s: Seq<u8>, at: int) -> Option<(AddrModel, int)> {
    let n = s[at] as int;
    if s.len() - (at + 1) < n + 2 {
        None
    } else if !valid_utf8(s.subrange(at + 1, at + 1 + n)) {
        None
    } else {
        Some((AddrModel::Domain(decode_utf8(s.subrange(at + 1, at + 1 + n)), be16(s, at + 1 + n) as u16), at + 3 + n))
    }
}

/// The address at the start of `s` and the number of bytes it takes.
/// A type byte of zero followed by a well-formed non-empty domain is read as
/// that domain, a tolerance for a known client bug.
pub open spec fn decode_address(s: Seq<u8>) -> Result<(AddrModel, int), VlessError> {
    if s.len() < 1 {
        Err(VlessError::ShortBuffer)
    } else if s[0] == ATYP_IPV4 {
        if s.len() < 7 {
            Err(VlessError::ShortBuffer)
        } else {
            Ok((AddrModel::Ipv4(s.subrange(1, 5), be16(s, 5) as u16), 7))
        }
    } else if s[0] == ATYP_DOMAIN {
        if s.len() < 2 || s.len() - 2 < s[1] as int + 2 {
            Err(VlessError::ShortBuffer)
        } else if !valid_utf8(s.subrange(2, 2 + s[1] as int)) {
            Err(VlessError::InvalidUtf8Domain)
        } else {
            Ok(domain_at(s, 1).unwrap())
        }
    } else if s[0] == ATYP_IPV6 {
        if s.len() < 19 {
            Err(VlessError::ShortBuffer)
        } else {
            Ok((AddrModel::Ipv6(s.subrange(1, 17), be16(s, 17) as u16), 19))
        }
    } else if s[0] == 0 && s.len() >= 2 && s[1] > 0 && domain_at(s, 1).is_some() {
        Ok(domain_at(s, 1).unwrap())
    } else {
        Err(VlessError::InvalidAddressType(s[0]))
    }
}

proof fn lemma_port_bytes(s: Seq<u8>, i: int, p: u16)
    requires
        0 <= i,
        i + 2 <= s.len(),
        s.subrange(i, i + 2) == u16_bytes(p),
    ensures
        be16(s, i) as u16 == p,
{
    assert(s[i] == s.subrange(i, i + 2)[0]);
    assert(s[i + 1] == s.subrange(i, i + 2)[1]);
    assert((p / 256) as u8 as int * 256 + (p % 256) as u8 as int == p as int);
}

/// Decoding the wire form of an address, whatever follows it, gives back
/// that address and the length of its wire form.
pub proof fn address_round_trip(a: Address, rest: Seq<u8>)
    requires
        encodable(a@),
    ensures
        decode_address(encode_address(a@) + rest) == Ok::<(AddrModel, int), VlessError>(
            (a@, encode_address(a@).len() as int),
        ),
{
    let e = encode_address(a@);
    let s = e + rest;
    match a {
        Address::Ipv4(ip, port) => {
            assert(s.subrange(1, 5) =~= ip@);
            assert(s.subrange(5, 7) =~= u16_bytes(port));
            lemma_port_bytes(s, 5, port);
        },
        Address::Ipv6(ip, port) => {
            assert(s.subrange(1, 17) =~= ip@);
            assert(s.subrange(17, 19) =~= u16_bytes(port));
            lemma_port_bytes(s, 17, port);
        },
        Address::Domain(d, port) => {
            let b = encode_utf8(d@);
            let n = b.len() as int;
            assert(s[1] as int == n);
            assert(s.subrange(2, 2 + n) =~= b);
            assert(s.subrange(2 + n, 4 + n) =~= u16_bytes(port));
            lemma_port_bytes(s, 2 + n, port);
        },
    }
}

impl Address {
    /// Reads an address at the start of `b`; returns it with the number of
    /// bytes it took.
    pub fn parse(b: &[u8]) -> (r: Result<(Address, usize), VlessError>)
        ensures
            match r {
                Ok((a, n)) => decode_address(b@) == Ok::<(AddrModel, int), VlessError>((a@, n as int)),
                Err(e) => decode_address(b@) == Err::<(AddrModel, int), VlessError>(e),
            },
    {
        let len = b.len();
        if len < 1 {
            return Err(VlessError::ShortBuffer);
        }
        let t = b[0];
        if t == ATYP_IPV4 {
            if len < 7 {
                return Err(VlessError::ShortBuffer);
            }
            let ip: [u8; 4] = [b[1], b[2], b[3], b[4]];
            assert(ip@ =~= b@.subrange(1, 5));
            let port = read_u16(b, 5);
            Ok((Address::Ipv4(ip, port), 7))
        } else if t == ATYP_DOMAIN {
            if len < 2 || len - 2 < b[1] as usize + 2 {
                return Err(VlessError::ShortBuffer);
            }
            match Self::domain_at(b, 1) {
                Some(r) => Ok(r),
                None => Err(VlessError::InvalidUtf8Domain),
            }
        } else if t == ATYP_IPV6 {
            if len < 19 {
                return Err(VlessError::ShortBuffer);
            }
            let ip: [u8; 16] = [b[1], b[2], b[3], b[4], b[5], b[6], b[7], b[8], b[9], b[10], b[11],
                b[12], b[13], b[14], b[15], b[16]];
            assert(ip@ =~= b@.subrange(1, 17));
            let port = read_u16(b, 17);
            Ok((Address::Ipv6(ip, port), 19))
        } else if t == 0 && len >= 2 && b[1] > 0 {
            match Self::domain_at(b, 1) {
                Some(r) => Ok(r),
                None => Err(VlessError::InvalidAddressType(t)),
            }
        } else {
            Err(VlessError::InvalidAddressType(t))
        }
    }

    fn domain_at(b: &[u8], at: usize) -> (r: Option<(Address, usize)>)
        requires
            at < b@.len(),
        ensures
            match r {
                Some((a, n)) => domain_at(b@, at as int) == Some((a@, n as int)),
                None => domain_at(b@, at as int).is_none(),
            },
    {
        let n = b[at] as usize;
        if b.len() - (at + 1) < n + 2 {
            return None;
        }
        let bytes = copy_range(b, at + 1, at + 1 + n);
        match utf8_string(bytes) {
            Some(d) => {
                let port = read_u16(b, at + 1 + n);
                Some((Address::Domain(d, port), at + 3 + n))
            },
            None => None,
        }
    }

    /// Reads an address from the front of `buf` and removes its bytes; on an
    /// error `buf` is left as it was.
    pub fn decode(buf: &mut Vec<u8>) -> (r: Result<Address, VlessError>)
        ensures
            match r {
                Ok(a) => exists|n: int| decode_address(old(buf)@) == Ok::<(AddrModel, int), VlessError>((a@, n))
                    && final(buf)@ == old(buf)@.subrange(n, old(buf)@.len() as int),
                Err(e) => decode_address(old(buf)@) == Err::<(AddrModel, int), VlessError>(e)
                    && final(buf)@ == old(buf)@,
            },
    {
        match Self::parse(buf.as_slice()) {
            Ok((a, n)) => {
                let rest = buf.split_off(n);
                *buf = rest;
                Ok(a)
            },
            Err(e) => Err(e),
        }
    }

    /// Appends the wire form of the address to `buf`; a domain longer than
    /// 255 bytes is refused and `buf` left as it was.
    pub fn encode(&self, buf: &mut Vec<u8>) -> (r: Result<(), VlessError>)
        ensures
            r is Ok <==> encodable(self@),
            r is Ok ==> final(buf)@ == old(buf)@ + encode_address(self@),
            r is Err ==> r == Err::<(), VlessError>(VlessError::DomainTooLong) && final(buf)@ == old(buf)@,
    {
        match self {
            Address::Ipv4(ip, port) => {
                buf.push(ATYP_IPV4);
                push_all(buf, ip.as_slice());
                push_u16(buf, *port);
                assert(buf@ =~= old(buf)@ + encode_address(self@));
            },
            Address::Ipv6(ip, port) => {
                buf.push(ATYP_IPV6);
                push_all(buf, ip.as_slice());
                push_u16(buf, *port);
                assert(buf@ =~= old(buf)@ + encode_address(self@));
            },
            Address::Domain(d, port) => {
                let bytes = string_bytes(d);
                if bytes.len() > 255 {
                    return Err(VlessError::DomainTooLong);
                }
                buf.push(ATYP_DOMAIN);
                buf.push(bytes.len() as u8);
                push_all(buf, bytes.as_slice());
                push_u16(buf, *port);
                assert(buf@ =~= old(buf)@ + encode_address(self@));
            },
        }
        Ok(())
    }

    /// The port of the address.
    pub fn port(&self) -> (r: u16)
        ensures
            r == match self@ {
                AddrModel::Ipv4(_, p) => p,
                AddrModel::Ipv6(_, p) => p,
                AddrModel::Domain(_, p) => p,
            },
    {
        match self {
            Address::Ipv4(_, port) => *port,
            Address::Ipv6(_, port) => *port,
            Address::Domain(_, port) => *port,
        }
    }
}

/// Decimal digits of `n`, most significant first.
pub open spec fn decimal(n: nat) -> Seq<u8>
    decreases n,
{
    if n < 10 {
        seq![(48 + n) as u8]
    } else {
        decimal(n / 10).push((48 + n % 10) as u8)
    }
}

/// Lower-case hexadecimal digits of `n`, without leading zeros.
pub open spec fn hex_lower(n: nat) -> Seq<u8>
    decreases n,
{
    if n < 16 {
        seq![hex_char(n)]
    } else {
        hex_lower(n / 16).push(hex_char(n % 16))
    }
}

pub open spec fn hex_char(d: nat) -> u8 {
    if d < 10 { (48 + d) as u8 } else { (87 + d) as u8 }
}

/// The eight 16-bit groups of an IPv6 address, written in full and joined by `:`.
pub open spec fn ipv6_groups(ip: Seq<u8>, k: int) -> Seq<u8>
    decreases 8 - k,
{
    if k >= 7 {
        hex_lower(be16(ip, 14) as nat)
    } else {
        hex_lower(be16(ip, 2 * k) as nat) + seq![58u8] + ipv6_groups(ip, k + 1)
    }
}

/// The ASCII text of an address other than a domain, and the `:port` that
/// ends every address text.
pub open spec fn port_suffix(port: u16) -> Seq<u8> {
    seq![58u8] + decimal(port as nat)
}

/// The `host:port` text of an address: dotted decimal for IPv4, bracketed
/// full hexadecimal groups for IPv6, the name itself for a domain.
pub open spec fn address_text(a: AddrModel) -> Seq<char> {
    match a {
        AddrModel::Ipv4(ip, port) => ascii_chars(decimal(ip[0] as nat) + seq![46u8] + decimal(ip[1] as nat) + seq![46u8]
            + decimal(ip[2] as nat) + seq![46u8] + decimal(ip[3] as nat) + port_suffix(port)),
        AddrModel::Ipv6(ip, port) => ascii_chars(seq![91u8] + ipv6_groups(ip, 0) + seq![93u8] + port_suffix(port)),
        AddrModel::Domain(d, port) => d + ascii_chars(port_suffix(port)),
    }
}

proof fn lemma_decimal_ascii(n: nat)
    ensures
        all_ascii(decimal(n)),
        decimal(n).len() >= 1,
    decreases n,
{
    if n >= 10 {
        lemma_decimal_ascii(n / 10);
    }
}

proof fn lemma_hex_ascii(n: nat)
    ensures
        all_ascii(hex_lower(n)),
    decreases n,
{
    if n >= 16 {
        lemma_hex_ascii(n / 16);
    }
}

proof fn lemma_groups_ascii(ip: Seq<u8>, k: int)
    ensures
        all_ascii(ipv6_groups(ip, k)),
    decreases 8 - k,
{
    if k >= 7 {
        lemma_hex_ascii(be16(ip, 14) as nat);
    } else {
        lemma_hex_ascii(be16(ip, 2 * k) as nat);
        lemma_groups_ascii(ip, k + 1);
    }
}

proof fn lemma_ascii_concat(a: Seq<u8>, b: Seq<u8>)
    requires
        all_ascii(a),
        all_ascii(b),
    ensures
        all_ascii(a + b),
        ascii_chars(a + b) == ascii_chars(a) + ascii_chars(b),
{
    assert forall|i: int| 0 <= i < (a + b).len() implies #[trigger] (a + b)[i] < 128 by {
        if i < a.len() {
            assert((a + b)[i] == a[i]);
        } else {
            assert((a + b)[i] == b[i - a.len()]);
        }
    }
    assert(ascii_chars(a + b) =~= ascii_chars(a) + ascii_chars(b));
}

proof fn lemma_encode_concat(a: Seq<char>, b: Seq<char>)
    ensures
        encode_utf8(a + b) == encode_utf8(a) + encode_utf8(b),
    decreases a.len(),
{
    if a.len() == 0 {
        assert(a + b =~= b);
        assert(encode_utf8(a) =~= Seq::<u8>::empty());
        assert(encode_utf8(a) + encode_utf8(b) =~= encode_utf8(b));
    } else {
        assert((a + b).drop_first() =~= a.drop_first() + b);
        assert((a + b)[0] == a[0]);
        lemma_encode_concat(a.drop_first(), b);
        assert(encode_utf8(a + b) =~= encode_utf8(a) + encode_utf8(b));
    }
}

fn push_decimal(out: &mut Vec<u8>, v: u32)
    ensures
        final(out)@ == old(out)@ + decimal(v as nat),
    decreases v,
{
    if v >= 10 {
        push_decimal(out, v / 10);
    }
    out.push(48 + (v % 10) as u8);
    assert(final(out)@ =~= old(out)@ + decimal(v as nat));
}

fn push_hex(out: &mut Vec<u8>, v: u32)
    ensures
        final(out)@ == old(out)@ + hex_lower(v as nat),
    decreases v,
{
    if v >= 16 {
        push_hex(out, v / 16);
    }
    let d = (v % 16) as u8;
    out.push(if d < 10 { 48 + d } else { 87 + d });
    assert(final(out)@ =~= old(out)@ + hex_lower(v as nat));
}

impl Address {
    /// The `host:port` text of the address (see `address_text`).
    pub fn to_string(&self) -> (r: String)
        ensures
            r@ == address_text(self@),
    {
        let mut tail: Vec<u8> = Vec::new();
        match self {
            Address::Ipv4(ip, port) => {
                push_decimal(&mut tail, ip[0] as u32);
                tail.push(46);
                push_decimal(&mut tail, ip[1] as u32);
                tail.push(46);
                push_decimal(&mut tail, ip[2] as u32);
                tail.push(46);
                push_decimal(&mut tail, ip[3] as u32);
                tail.push(58);
                push_decimal(&mut tail, *port as u32);
                let ghost t = decimal(ip@[0] as nat) + seq![46u8] + decimal(ip@[1] as nat) + seq![46u8] + decimal(
                    ip@[2] as nat,
                ) + seq![46u8] + decimal(ip@[3] as nat) + port_suffix(*port);
                assert(tail@ =~= t);
                proof {
                    lemma_decimal_ascii(ip@[0] as nat);
                    lemma_decimal_ascii(ip@[1] as nat);
                    lemma_decimal_ascii(ip@[2] as nat);
                    lemma_decimal_ascii(ip@[3] as nat);
                    lemma_decimal_ascii(*port as nat);
                    assert(all_ascii(t)) by {
                        assert forall|i: int| 0 <= i < t.len() implies #[trigger] t[i] < 128 by {
                            assert(t[i] == tail@[i]);
                            let d0 = decimal(ip@[0] as nat).len() as int;
                            let d1 = decimal(ip@[1] as nat).len() as int;
                            let d2 = decimal(ip@[2] as nat).len() as int;
                            let d3 = decimal(ip@[3] as nat).len() as int;
                            if i < d0 {
                                assert(t[i] == decimal(ip@[0] as nat)[i]);
                            } else if i == d0 {
                            } else if i < d0 + 1 + d1 {
                                assert(t[i] == decimal(ip@[1] as nat)[i - d0 - 1]);
                            } else if i == d0 + 1 + d1 {
                            } else if i < d0 + d1 + 2 + d2 {
                                assert(t[i] == decimal(ip@[2] as nat)[i - d0 - d1 - 2]);
                            } else if i == d0 + d1 + 2 + d2 {
                            } else if i < d0 + d1 + d2 + 3 + d3 {
                                assert(t[i] == decimal(ip@[3] as nat)[i - d0 - d1 - d2 - 3]);
                            } else if i == d0 + d1 + d2 + 3 + d3 {
                            } else {
                                assert(t[i] == decimal(*port as nat)[i - d0 - d1 - d2 - d3 - 4]);
                            }
                        }
                    }
                }
                crate::text::ascii_string(tail)
            },
            Address::Ipv6(ip, port) => {
                tail.push(91);
                let mut k: usize = 0;
                let ghost start = tail@;
                while k < 7
                    invariant
                        k <= 7,
                        start == seq![91u8],
                        tail@ + ipv6_groups(ip@, k as int) == start + ipv6_groups(ip@, 0),
                    decreases 7 - k,
                {
                    let g = read_u16(ip.as_slice(), 2 * k);
                    let ghost before = tail@;
                    push_hex(&mut tail, g as u32);
                    tail.push(58);
                    assert(tail@ + ipv6_groups(ip@, k + 1) =~= before + ipv6_groups(ip@, k as int));
                    k = k + 1;
                }
                let g = read_u16(ip.as_slice(), 14);
                let ghost before = tail@;
                push_hex(&mut tail, g as u32);
                assert(tail@ =~= before + ipv6_groups(ip@, 7));
                tail.push(93);
                tail.push(58);
                push_decimal(&mut tail, *port as u32);
                let ghost t = seq![91u8] + ipv6_groups(ip@, 0) + seq![93u8] + port_suffix(*port);
                assert(tail@ =~= t);
                proof {
                    lemma_groups_ascii(ip@, 0);
                    lemma_decimal_ascii(*port as nat);
                    lemma_ascii_concat(seq![91u8], ipv6_groups(ip@, 0));
                    lemma_ascii_concat(seq![91u8] + ipv6_groups(ip@, 0), seq![93u8]);
                    lemma_ascii_concat(seq![58u8], decimal(*port as nat));
                    lemma_ascii_concat(seq![91u8] + ipv6_groups(ip@, 0) + seq![93u8], port_suffix(*port));
                }
                crate::text::ascii_string(tail)
            },
            Address::Domain(d, port) => {
                let mut bytes = string_bytes(d);
                tail.push(58);
                push_decimal(&mut tail, *port as u32);
                assert(tail@ =~= port_suffix(*port));
                proof {
                    lemma_decimal_ascii(*port as nat);
                    lemma_ascii_concat(seq![58u8], decimal(*port as nat));
                    crate::text::lemma_ascii_encoding(tail@);
                    lemma_encode_concat(d@, ascii_chars(tail@));
                }
                crate::wire::push_all(&mut bytes, tail.as_slice());
                assert(bytes@ == encode_utf8(d@ + ascii_chars(tail@)));
                match utf8_string(bytes) {
                    Some(s) => s,
                    None => String::new(),
                }
            },
        }
    }
}

} // verus!
