//! PROXY protocol headers (v1 text, v2 binary) that a load balancer puts in
//! front of a TCP stream to carry the real client address.
use vstd::prelude::*;
use vstd::utf8::valid_utf8;
use crate::wire::{be16, copy_range, range_eq, read_u16};

verus! {

/// An IP address as its bytes.
#[derive(Debug, Clone, Copy, PartialEq, Eq)]
pub enum HostIp {
    V4([u8; 4]),
    V6([u8; 16]),
}

/// An IP address and a port.
#[derive(Debug, Clone, Copy, PartialEq, Eq)]
pub struct SockAddr {
    pub ip: HostIp,
    pub port: u16,
}

/// The addresses a PROXY header carries.
#[derive(Debug, Clone, Copy, PartialEq, Eq)]
pub struct ProxyHeader {
    /// The real client.
    pub source_addr: SockAddr,
    /// The address the client connected to.
    pub dest_addr: SockAddr,
}

#[derive(Debug, Clone, Copy, PartialEq, Eq, Structural)]
pub enum ProxyError {
    /// Neither the v1 nor the v2 signature.
    NoSignature,
    /// v1: no `\r` in the data.
    MissingCrlf,
    /// v1: the `\r` is not followed by `\n`.
    BadLineEnd,
    /// v1: the line is not UTF-8.
    InvalidUtf8,
    /// v1: fewer than six space-separated fields.
    TooFewFields,
    /// v1: a port is not a decimal number up to 65535.
    BadPort,
    /// v1: an address is not written as the protocol says.
    BadAddress,
    /// v1: the protocol is none of TCP4, UDP4, TCP6, UDP6, UNKNOWN.
    UnknownProtocol,
    /// v2: fewer than 16 header bytes.
    V2TooShort,
    /// v2: the address block runs past the data.
    Truncated,
    /// v2: the address block is too short for its family.
    BadAddressLength,
}

pub open spec fn v1_signature() -> Seq<u8> {
    seq![80u8, 82, 79, 88, 89, 32]
}

pub open spec fn v2_signature() -> Seq<u8> {
    seq![0x0Du8, 0x0A, 0x0D, 0x0A, 0x00, 0x0D, 0x0A, 0x51, 0x55, 0x49, 0x54, 0x0A]
}

pub open spec fn starts_with(d: Seq<u8>, p: Seq<u8>) -> bool {
    d.len() >= p.len() && d.subrange(0, p.len() as int) == p
}

fn starts_with_bytes(d: &[u8], p: &[u8]) -> (r: bool)
    ensures
        r == starts_with(d@, p@),
{
    if d.len() < p.len() {
        return false;
    }
    let r = range_eq(d, 0, p, 0, p.len());
    assert(p@.subrange(0, p@.len() as int) =~= p@);
    r
}

/// Whether the data opens with a PROXY signature.
pub fn is_proxy_protocol(data: &[u8]) -> (r: bool)
    ensures
        r == (starts_with(data@, v1_signature()) || starts_with(data@, v2_signature())),
{
    let v1: [u8; 6] = [80, 82, 79, 88, 89, 32];
    let v2: [u8; 12] = [0x0D, 0x0A, 0x0D, 0x0A, 0x00, 0x0D, 0x0A, 0x51, 0x55, 0x49, 0x54, 0x0A];
    assert(v1@ =~= v1_signature());
    assert(v2@ =~= v2_signature());
    starts_with_bytes(data, v1.as_slice()) || starts_with_bytes(data, v2.as_slice())
}

pub open spec fn zero_addr() -> SockAddr {
    SockAddr { ip: HostIp::V4([0u8, 0, 0, 0]), port: 0 }
}

/// The v2 header at the start of `d` (signature already matched) and its length.
pub open spec fn parse_v2_spec(d: Seq<u8>) -> Result<(ProxyHeader, int), ProxyError> {
    if d.len() < 16 {
        Err(ProxyError::V2TooShort)
    } else if d.len() - 16 < be16(d, 14) {
        Err(ProxyError::Truncated)
    } else {
        let family = d[13] / 16;
        let n = be16(d, 14);
        if family == 1 {
            if n < 12 {
                Err(ProxyError::BadAddressLength)
            } else {
                Ok((
                    ProxyHeader {
                        source_addr: SockAddr { ip: HostIp::V4([d[16], d[17], d[18], d[19]]), port: be16(d, 24) as u16 },
                        dest_addr: SockAddr { ip: HostIp::V4([d[20], d[21], d[22], d[23]]), port: be16(d, 26) as u16 },
                    },
                    16 + n,
                ))
            }
        } else if family == 2 {
            if n < 36 {
                Err(ProxyError::BadAddressLength)
            } else {
                Ok((
                    ProxyHeader {
                        source_addr: SockAddr { ip: HostIp::V6(v6_at(d, 16)), port: be16(d, 48) as u16 },
                        dest_addr: SockAddr { ip: HostIp::V6(v6_at(d, 32)), port: be16(d, 50) as u16 },
                    },
                    16 + n,
                ))
            }
        } else {
            Ok((ProxyHeader { source_addr: zero_addr(), dest_addr: zero_addr() }, 16 + n))
        }
    }
}

pub open spec fn v6_at(d: Seq<u8>, i: int) -> [u8; 16] {
    [d[i], d[i + 1], d[i + 2], d[i + 3], d[i + 4], d[i + 5], d[i + 6], d[i + 7], d[i + 8], d[i + 9], d[i + 10],
        d[i + 11], d[i + 12], d[i + 13], d[i + 14], d[i + 15]]
}

fn v6_bytes(d: &[u8], i: usize) -> (r: [u8; 16])
    requires
        i + 16 <= d@.len(),
    ensures
        r == v6_at(d@, i as int),
{
    [d[i], d[i + 1], d[i + 2], d[i + 3], d[i + 4], d[i + 5], d[i + 6], d[i + 7], d[i + 8], d[i + 9], d[i + 10],
        d[i + 11], d[i + 12], d[i + 13], d[i + 14], d[i + 15]]
}

fn parse_v2(data: &[u8]) -> (r: Result<(ProxyHeader, usize), ProxyError>)
    ensures
        match r {
            Ok((h, n)) => parse_v2_spec(data@) == Ok::<(ProxyHeader, int), ProxyError>((h, n as int)),
            Err(e) => parse_v2_spec(data@) == Err::<(ProxyHeader, int), ProxyError>(e),
        },
{
    if data.len() < 16 {
        return Err(ProxyError::V2TooShort);
    }
    let n = read_u16(data, 14) as usize;
    if data.len() - 16 < n {
        return Err(ProxyError::Truncated);
    }
    let family = data[13] / 16;
    if family == 1 {
        if n < 12 {
            return Err(ProxyError::BadAddressLength);
        }
        let src = SockAddr { ip: HostIp::V4([data[16], data[17], data[18], data[19]]), port: read_u16(data, 24) };
        let dst = SockAddr { ip: HostIp::V4([data[20], data[21], data[22], data[23]]), port: read_u16(data, 26) };
        Ok((ProxyHeader { source_addr: src, dest_addr: dst }, 16 + n))
    } else if family == 2 {
        if n < 36 {
            return Err(ProxyError::BadAddressLength);
        }
        let src = SockAddr { ip: HostIp::V6(v6_bytes(data, 16)), port: read_u16(data, 48) };
        let dst = SockAddr { ip: HostIp::V6(v6_bytes(data, 32)), port: read_u16(data, 50) };
        Ok((ProxyHeader { source_addr: src, dest_addr: dst }, 16 + n))
    } else {
        let z = SockAddr { ip: HostIp::V4([0u8, 0, 0, 0]), port: 0 };
        assert(z == zero_addr());
        Ok((ProxyHeader { source_addr: z, dest_addr: z }, 16 + n))
    }
}

/// `s` split at every `c`, `cur` being the part read so far.
pub open spec fn split_acc(s: Seq<u8>, c: u8, cur: Seq<u8>) -> Seq<Seq<u8>>
    decreases s.len(),
{
    if s.len() == 0 {
        seq![cur]
    } else if s[0] == c {
        seq![cur] + split_acc(s.drop_first(), c, Seq::empty())
    } else {
        split_acc(s.drop_first(), c, cur.push(s[0]))
    }
}

/// The parts of `s` between occurrences of `c`.
pub open spec fn split_on(s: Seq<u8>, c: u8) -> Seq<Seq<u8>> {
    split_acc(s, c, Seq::empty())
}

fn split_bytes(s: &[u8], c: u8) -> (r: Vec<Vec<u8>>)
    ensures
        r@.len() == split_on(s@, c).len(),
        forall|i: int| 0 <= i < r@.len() ==> #[trigger] r@[i]@ == split_on(s@, c)[i],
{
    let mut out: Vec<Vec<u8>> = Vec::new();
    let mut cur: Vec<u8> = Vec::new();
    let mut p: usize = 0;
    let ghost views: Seq<Seq<u8>> = Seq::empty();
    assert(s@.subrange(0, s@.len() as int) =~= s@);
    while p < s.len()
        invariant
            p <= s@.len(),
            views.len() == out@.len(),
            forall|i: int| 0 <= i < out@.len() ==> #[trigger] out@[i]@ == views[i],
            split_on(s@, c) == views + split_acc(s@.subrange(p as int, s@.len() as int), c, cur@),
        decreases s@.len() - p,
    {
        let ghost t = s@.subrange(p as int, s@.len() as int);
        assert(t.drop_first() =~= s@.subrange(p + 1, s@.len() as int));
        if s[p] == c {
            let done = cur;
            proof {
                assert(views.push(done@) + split_acc(t.drop_first(), c, Seq::empty()) =~= views + (seq![done@]
                    + split_acc(t.drop_first(), c, Seq::empty())));
                views = views.push(done@);
            }
            out.push(done);
            cur = Vec::new();
            assert(cur@ =~= Seq::<u8>::empty());
        } else {
            cur.push(s[p]);
        }
        p = p + 1;
    }
    proof {
        assert(s@.subrange(p as int, s@.len() as int).len() == 0);
        assert(views.push(cur@) =~= views + seq![cur@]);
        views = views.push(cur@);
    }
    out.push(cur);
    out
}

pub open spec fn is_digit(b: u8) -> bool {
    48 <= b <= 57
}

/// The value of a run of decimal digits.
pub open spec fn digits_value(s: Seq<u8>) -> nat
    decreases s.len(),
{
    if s.len() == 0 {
        0
    } else {
        digits_value(s.drop_last()) * 10 + (s.last() - 48) as nat
    }
}

pub open spec fn all_digits(s: Seq<u8>) -> bool {
    forall|i: int| 0 <= i < s.len() ==> is_digit(#[trigger] s[i])
}

/// A port as `u16`'s `FromStr` reads it: an optional `+`, then at least one
/// digit, at most 65535.
pub open spec fn port_text(s: Seq<u8>) -> Option<u16> {
    let d = if s.len() > 0 && s[0] == 43 { s.drop_first() } else { s };
    if d.len() == 0 || !all_digits(d) || digits_value(d) > 65535 {
        None
    } else {
        Some(digits_value(d) as u16)
    }
}

/// One octet of a dotted IPv4 address: one to three digits, no leading
/// zero, at most 255.
pub open spec fn octet_text(s: Seq<u8>) -> Option<u8> {
    if s.len() == 0 || s.len() > 3 || !all_digits(s) || (s.len() > 1 && s[0] == 48) || digits_value(s) > 255 {
        None
    } else {
        Some(digits_value(s) as u8)
    }
}

/// A dotted IPv4 address: four octets.
pub open spec fn ipv4_text(s: Seq<u8>) -> Option<[u8; 4]> {
    let parts = split_on(s, 46);
    if parts.len() != 4 || octet_text(parts[0]) is None || octet_text(parts[1]) is None || octet_text(parts[2]) is None
        || octet_text(parts[3]) is None {
        None
    } else {
        Some([octet_text(parts[0]).unwrap(), octet_text(parts[1]).unwrap(), octet_text(parts[2]).unwrap(), octet_text(parts[3]).unwrap()])
    }
}

/// Value of a run of digits, up to a bound above which it gives up.
fn digits_upto(s: &[u8], bound: u32) -> (r: Option<u32>)
    requires
        bound <= 1000000,
    ensures
        all_digits(s@) && digits_value(s@) <= bound ==> r == Some(digits_value(s@) as u32),
        !(all_digits(s@) && digits_value(s@) <= bound) ==> r is None,
{
    let mut v: u32 = 0;
    let mut i: usize = 0;
    while i < s.len()
        invariant
            i <= s@.len(),
            bound <= 1000000,
            all_digits(s@.subrange(0, i as int)),
            v as nat == digits_value(s@.subrange(0, i as int)),
            v <= bound,
        decreases s@.len() - i,
    {
        let b = s[i];
        assert(s@.subrange(0, i + 1).drop_last() =~= s@.subrange(0, i as int));
        if b < 48 || b > 57 {
            assert(!all_digits(s@)) by {
                assert(!is_digit(s@[i as int]));
            }
            return None;
        }
        let nv = v * 10 + (b - 48) as u32;
        i = i + 1;
        if nv > bound {
            proof {
                lemma_digits_grow(s@, i as int);
            }
            return None;
        }
        v = nv;
    }
    assert(s@.subrange(0, s@.len() as int) =~= s@);
    Some(v)
}

/// A longer run of digits has at least the value of its prefix.
proof fn lemma_digits_grow(s: Seq<u8>, i: int)
    requires
        0 <= i <= s.len(),
        all_digits(s.subrange(0, i)),
    ensures
        all_digits(s) ==> digits_value(s) >= digits_value(s.subrange(0, i)),
    decreases s.len() - i,
{
    if i < s.len() && all_digits(s) {
        assert(s.subrange(0, i + 1).drop_last() =~= s.subrange(0, i));
        lemma_digits_grow(s, i + 1);
    } else if i == s.len() {
        assert(s.subrange(0, i) =~= s);
    }
}

fn parse_port(s: &[u8]) -> (r: Option<u16>)
    ensures
        r == port_text(s@),
{
    let d: Vec<u8> = if s.len() > 0 && s[0] == 43 {
        copy_range(s, 1, s.len())
    } else {
        copy_range(s, 0, s.len())
    };
    assert(s@.subrange(0, s@.len() as int) =~= s@);
    assert(s@.len() > 0 ==> s@.subrange(1, s@.len() as int) =~= s@.drop_first());
    if d.len() == 0 {
        return None;
    }
    match digits_upto(d.as_slice(), 65535) {
        Some(v) => Some(v as u16),
        None => None,
    }
}

fn parse_octet(s: &[u8]) -> (r: Option<u8>)
    ensures
        r == octet_text(s@),
{
    if s.len() == 0 || s.len() > 3 || (s.len() > 1 && s[0] == 48) {
        return None;
    }
    match digits_upto(s, 255) {
        Some(v) => Some(v as u8),
        None => None,
    }
}

fn parse_ipv4(s: &[u8]) -> (r: Option<[u8; 4]>)
    ensures
        r == ipv4_text(s@),
{
    let parts = split_bytes(s, 46);
    if parts.len() != 4 {
        return None;
    }
    let a = parse_octet(parts[0].as_slice());
    let b = parse_octet(parts[1].as_slice());
    let c = parse_octet(parts[2].as_slice());
    let d = parse_octet(parts[3].as_slice());
    match (a, b, c, d) {
        (Some(a), Some(b), Some(c), Some(d)) => Some([a, b, c, d]),
        _ => None,
    }
}

/// The value of a hexadecimal digit byte.
pub open spec fn hex_val(b: u8) -> Option<nat> {
    if 48 <= b <= 57 {
        Some((b - 48) as nat)
    } else if 97 <= b <= 102 {
        Some((b - 87) as nat)
    } else if 65 <= b <= 70 {
        Some((b - 55) as nat)
    } else {
        None
    }
}

pub open spec fn all_hex(s: Seq<u8>) -> bool {
    forall|i: int| 0 <= i < s.len() ==> #[trigger] hex_val(s[i]) is Some
}

pub open spec fn hex_value(s: Seq<u8>) -> nat
    decreases s.len(),
{
    if s.len() == 0 {
        0
    } else {
        hex_value(s.drop_last()) * 16 + hex_val(s.last()).unwrap()
    }
}

/// One group of an IPv6 address: one to four hexadecimal digits.
pub open spec fn hex_group(s: Seq<u8>) -> Option<u16> {
    if s.len() == 0 || s.len() > 4 || !all_hex(s) {
        None
    } else {
        Some(hex_value(s) as u16)
    }
}

/// The groups of a `:`-separated run; the empty run has none.
pub open spec fn group_list(s: Seq<u8>) -> Option<Seq<u16>> {
    if s.len() == 0 {
        Some(Seq::empty())
    } else {
        let parts = split_on(s, 58);
        if forall|i: int| 0 <= i < parts.len() ==> #[trigger] hex_group(parts[i]) is Some {
            Some(Seq::new(parts.len(), |i: int| hex_group(parts[i]).unwrap()))
        } else {
            None
        }
    }
}

/// The index of the first `::` at or after `i`.
pub open spec fn first_double_colon(s: Seq<u8>, i: int) -> Option<int>
    decreases s.len() - i,
{
    if i < 0 || i + 1 >= s.len() {
        None
    } else if s[i] == 58 && s[i + 1] == 58 {
        Some(i)
    } else {
        first_double_colon(s, i + 1)
    }
}

/// The sixteen bytes of eight groups, each big-endian.
pub open spec fn groups_bytes(g: Seq<u16>) -> Seq<u8> {
    Seq::new(16, |i: int| if i % 2 == 0 { (g[i / 2] / 256) as u8 } else { (g[i / 2] % 256) as u8 })
}

/// A textual IPv6 address: eight groups, or fewer around a single `::`
/// that stands for at least one zero group.
pub open spec fn ipv6_text(s: Seq<u8>) -> Option<Seq<u8>> {
    match first_double_colon(s, 0) {
        None => match group_list(s) {
            Some(g) => if g.len() == 8 && s.len() > 0 { Some(groups_bytes(g)) } else { None },
            None => None,
        },
        Some(k) => match (group_list(s.subrange(0, k)), group_list(s.subrange(k + 2, s.len() as int))) {
            (Some(a), Some(b)) => if a.len() + b.len() <= 7 {
                Some(groups_bytes(a + Seq::new((8 - a.len() - b.len()) as nat, |i: int| 0u16) + b))
            } else {
                None
            },
            _ => None,
        },
    }
}

pub open spec fn word_tcp4() -> Seq<u8> { seq![84u8, 67, 80, 52] }
pub open spec fn word_udp4() -> Seq<u8> { seq![85u8, 68, 80, 52] }
pub open spec fn word_tcp6() -> Seq<u8> { seq![84u8, 67, 80, 54] }
pub open spec fn word_udp6() -> Seq<u8> { seq![85u8, 68, 80, 54] }
pub open spec fn word_unknown() -> Seq<u8> { seq![85u8, 78, 75, 78, 79, 87, 78] }

/// The index of the first `\r` at or after `i`.
pub open spec fn first_cr(d: Seq<u8>, i: int) -> Option<int>
    decreases d.len() - i,
{
    if i < 0 || i >= d.len() {
        None
    } else if d[i] == 13 {
        Some(i)
    } else {
        first_cr(d, i + 1)
    }
}

/// The v1 header at the start of `d` and its length, line end included.
pub open spec fn parse_v1_spec(d: Seq<u8>) -> Result<(ProxyHeader, int), ProxyError> {
    match first_cr(d, 0) {
        None => Err(ProxyError::MissingCrlf),
        Some(end) => if d.len() < end + 2 || d[end + 1] != 10 {
            Err(ProxyError::BadLineEnd)
        } else if !valid_utf8(d.subrange(0, end)) {
            Err(ProxyError::InvalidUtf8)
        } else {
            let parts = split_on(d.subrange(0, end), 32);
            if parts.len() < 6 {
                Err(ProxyError::TooFewFields)
            } else if port_text(parts[4]) is None || port_text(parts[5]) is None {
                Err(ProxyError::BadPort)
            } else {
                let sp = port_text(parts[4]).unwrap();
                let dp = port_text(parts[5]).unwrap();
                if parts[1] == word_tcp4() || parts[1] == word_udp4() {
                    if ipv4_text(parts[2]) is None || ipv4_text(parts[3]) is None {
                        Err(ProxyError::BadAddress)
                    } else {
                        Ok((
                            ProxyHeader {
                                source_addr: SockAddr { ip: HostIp::V4(ipv4_text(parts[2]).unwrap()), port: sp },
                                dest_addr: SockAddr { ip: HostIp::V4(ipv4_text(parts[3]).unwrap()), port: dp },
                            },
                            end + 2,
                        ))
                    }
                } else if parts[1] == word_tcp6() || parts[1] == word_udp6() {
                    if ipv6_text(parts[2]) is None || ipv6_text(parts[3]) is None {
                        Err(ProxyError::BadAddress)
                    } else {
                        Ok((
                            ProxyHeader {
                                source_addr: SockAddr { ip: HostIp::V6(v6_at(ipv6_text(parts[2]).unwrap(), 0)), port: sp },
                                dest_addr: SockAddr { ip: HostIp::V6(v6_at(ipv6_text(parts[3]).unwrap(), 0)), port: dp },
                            },
                            end + 2,
                        ))
                    }
                } else if parts[1] == word_unknown() {
                    Ok((ProxyHeader { source_addr: zero_addr(), dest_addr: zero_addr() }, end + 2))
                } else {
                    Err(ProxyError::UnknownProtocol)
                }
            }
        },
    }
}

fn parse_hex_group(s: &[u8]) -> (r: Option<u16>)
    ensures
        r == hex_group(s@),
{
    if s.len() == 0 || s.len() > 4 {
        return None;
    }
    let mut v: u32 = 0;
    let mut i: usize = 0;
    while i < s.len()
        invariant
            i <= s@.len(),
            s@.len() <= 4,
            all_hex(s@.subrange(0, i as int)),
            v as nat == hex_value(s@.subrange(0, i as int)),
            v < pow16(i as nat),
        decreases s@.len() - i,
    {
        let b = s[i];
        assert(s@.subrange(0, i + 1).drop_last() =~= s@.subrange(0, i as int));
        let d: u32 = if 48 <= b && b <= 57 {
            (b - 48) as u32
        } else if 97 <= b && b <= 102 {
            (b - 87) as u32
        } else if 65 <= b && b <= 70 {
            (b - 55) as u32
        } else {
            assert(!all_hex(s@)) by {
                assert(hex_val(s@[i as int]) is None);
            }
            return None;
        };
        proof {
            lemma_pow16_bound(i as nat);
            lemma_pow16_step(i as nat);
            assert(v * 16 + d < pow16((i + 1) as nat)) by (nonlinear_arith)
                requires v < pow16(i as nat), d < 16, pow16((i + 1) as nat) == pow16(i as nat) * 16;
        }
        v = v * 16 + d;
        i = i + 1;
        assert(all_hex(s@.subrange(0, i as int))) by {
            assert forall|t: int| 0 <= t < i implies #[trigger] hex_val(s@.subrange(0, i as int)[t]) is Some by {
                if t < i - 1 {
                    assert(s@.subrange(0, i as int)[t] == s@.subrange(0, i - 1)[t]);
                }
            }
        }
    }
    assert(s@.subrange(0, s@.len() as int) =~= s@);
    proof {
        lemma_pow16_bound(s@.len());
    }
    Some(v as u16)
}

pub open spec fn pow16(n: nat) -> nat
    decreases n,
{
    if n == 0 { 1 } else { 16 * pow16((n - 1) as nat) }
}

proof fn lemma_pow16_step(n: nat)
    ensures
        pow16(n + 1) == pow16(n) * 16,
{
}

proof fn lemma_pow16_bound(n: nat)
    requires
        n <= 4,
    ensures
        pow16(n) <= 65536,
{
    assert(pow16(0) == 1);
    assert(pow16(1) == 16);
    assert(pow16(2) == 256);
    assert(pow16(3) == 4096);
    assert(pow16(4) == 65536);
}

fn parse_group_list(s: &[u8]) -> (r: Option<Vec<u16>>)
    ensures
        match group_list(s@) {
            Some(g) => r is Some && r.unwrap()@ == g,
            None => r is None,
        },
{
    if s.len() == 0 {
        let v: Vec<u16> = Vec::new();
        assert(v@ =~= Seq::<u16>::empty());
        return Some(v);
    }
    let parts = split_bytes(s, 58);
    let ghost sp = split_on(s@, 58);
    let mut out: Vec<u16> = Vec::new();
    let mut i: usize = 0;
    while i < parts.len()
        invariant
            s@.len() > 0,
            i <= parts@.len(),
            parts@.len() == sp.len(),
            sp == split_on(s@, 58),
            forall|t: int| 0 <= t < parts@.len() ==> #[trigger] parts@[t]@ == sp[t],
            out@.len() == i,
            forall|t: int| 0 <= t < i ==> #[trigger] hex_group(sp[t]) == Some(out@[t]),
        decreases parts@.len() - i,
    {
        assert(parts@[i as int]@ == sp[i as int]);
        let ghost before = out@;
        let got = parse_hex_group(parts[i].as_slice());
        if got.is_none() {
            assert(hex_group(sp[i as int]) is None);
            assert(!(forall|t: int| 0 <= t < sp.len() ==> #[trigger] hex_group(sp[t]) is Some));
            return None;
        }
        let g = got.unwrap();
        assert(hex_group(sp[i as int]) == Some(g));
        out.push(g);
        i = i + 1;
        assert forall|t: int| 0 <= t < i implies #[trigger] hex_group(sp[t]) == Some(out@[t]) by {
            if t < i - 1 {
                assert(out@[t] == before[t]);
            } else {
                assert(out@[t] == g);
            }
        }
    }
    assert(out@ =~= Seq::new(sp.len(), |t: int| hex_group(sp[t]).unwrap()));
    Some(out)
}

fn groups_to_array(g: &Vec<u16>) -> (r: [u8; 16])
    requires
        g@.len() == 8,
    ensures
        r@ == groups_bytes(g@),
{
    let mut out: [u8; 16] = [0u8; 16];
    let mut i: usize = 0;
    while i < 8
        invariant
            i <= 8,
            g@.len() == 8,
            forall|t: int| 0 <= t < 2 * i ==> out@[t] == groups_bytes(g@)[t],
        decreases 8 - i,
    {
        out[2 * i] = (g[i] / 256) as u8;
        out[2 * i + 1] = (g[i] % 256) as u8;
        assert((2 * i) as int / 2 == i as int);
        assert((2 * i + 1) as int / 2 == i as int);
        assert((2 * i) as int % 2 == 0);
        assert((2 * i + 1) as int % 2 == 1);
        i = i + 1;
    }
    assert(out@ =~= groups_bytes(g@));
    out
}

fn parse_ipv6(s: &[u8]) -> (r: Option<[u8; 16]>)
    ensures
        match ipv6_text(s@) {
            Some(b) => r is Some && r.unwrap()@ == b,
            None => r is None,
        },
{
    let len = s.len();
    let mut k: usize = 0;
    let mut found = false;
    while !found && len > 0 && k < len - 1
        invariant
            k <= len,
            len == s@.len(),
            !found ==> first_double_colon(s@, 0) == first_double_colon(s@, k as int),
            found ==> first_double_colon(s@, 0) == Some(k as int) && k + 1 < len,
        decreases len - k + (if found { 0int } else { 1int }),
    {
        if s[k] == 58 && s[k + 1] == 58 {
            found = true;
        } else {
            k = k + 1;
        }
    }
    if !found {
        assert(first_double_colon(s@, 0) is None);
        if len == 0 {
            return None;
        }
        let g = match parse_group_list(s) {
            Some(g) => g,
            None => return None,
        };
        if g.len() != 8 {
            return None;
        }
        return Some(groups_to_array(&g));
    }
    let left = copy_range(s, 0, k);
    let right = copy_range(s, k + 2, len);
    let a = match parse_group_list(left.as_slice()) {
        Some(a) => a,
        None => return None,
    };
    let b = match parse_group_list(right.as_slice()) {
        Some(b) => b,
        None => return None,
    };
    if a.len() > 7 || b.len() > 7 - a.len() {
        return None;
    }
    let mut all: Vec<u16> = Vec::new();
    let mut i: usize = 0;
    while i < a.len()
        invariant
            i <= a@.len(),
            all@ == a@.subrange(0, i as int),
        decreases a@.len() - i,
    {
        all.push(a[i]);
        i = i + 1;
        assert(all@ =~= a@.subrange(0, i as int));
    }
    let zeros: usize = 8 - a.len() - b.len();
    let mut z: usize = 0;
    assert(a@.subrange(0, a@.len() as int) =~= a@);
    while z < zeros
        invariant
            z <= zeros,
            all@ == a@ + Seq::new(z as nat, |t: int| 0u16),
        decreases zeros - z,
    {
        all.push(0);
        z = z + 1;
        assert(all@ =~= a@ + Seq::new(z as nat, |t: int| 0u16));
    }
    let mut j: usize = 0;
    let ghost base = all@;
    while j < b.len()
        invariant
            j <= b@.len(),
            all@ == base + b@.subrange(0, j as int),
        decreases b@.len() - j,
    {
        all.push(b[j]);
        j = j + 1;
        assert(all@ =~= base + b@.subrange(0, j as int));
    }
    assert(b@.subrange(0, b@.len() as int) =~= b@);
    Some(groups_to_array(&all))
}

fn same_bytes(a: &[u8], b: &[u8]) -> (r: bool)
    ensures
        r == (a@ == b@),
{
    if a.len() != b.len() {
        return false;
    }
    let r = range_eq(a, 0, b, 0, a.len());
    assert(a@.subrange(0, a@.len() as int) =~= a@);
    assert(b@.subrange(0, b@.len() as int) =~= b@);
    r
}

fn parse_v1(data: &[u8]) -> (r: Result<(ProxyHeader, usize), ProxyError>)
    ensures
        match r {
            Ok((h, n)) => parse_v1_spec(data@) == Ok::<(ProxyHeader, int), ProxyError>((h, n as int)),
            Err(e) => parse_v1_spec(data@) == Err::<(ProxyHeader, int), ProxyError>(e),
        },
{
    let len = data.len();
    let mut end: usize = 0;
    while end < len && data[end] != 13
        invariant
            end <= len,
            len == data@.len(),
            first_cr(data@, 0) == first_cr(data@, end as int),
        decreases len - end,
    {
        end = end + 1;
    }
    if end == len {
        return Err(ProxyError::MissingCrlf);
    }
    if len - end < 2 || data[end + 1] != 10 {
        return Err(ProxyError::BadLineEnd);
    }
    let line = copy_range(data, 0, end);
    match crate::text::utf8_string(copy_range(data, 0, end)) {
        Some(_) => {},
        None => { return Err(ProxyError::InvalidUtf8); },
    }
    let parts = split_bytes(line.as_slice(), 32);
    if parts.len() < 6 {
        return Err(ProxyError::TooFewFields);
    }
    let sp = parse_port(parts[4].as_slice());
    let dp = parse_port(parts[5].as_slice());
    let (sp, dp) = match (sp, dp) {
        (Some(a), Some(b)) => (a, b),
        _ => { return Err(ProxyError::BadPort); },
    };
    let proto: &[u8] = parts[1].as_slice();
    let tcp4: [u8; 4] = [84, 67, 80, 52];
    let udp4: [u8; 4] = [85, 68, 80, 52];
    let tcp6: [u8; 4] = [84, 67, 80, 54];
    let udp6: [u8; 4] = [85, 68, 80, 54];
    let unknown: [u8; 7] = [85, 78, 75, 78, 79, 87, 78];
    assert(tcp4@ =~= word_tcp4() && udp4@ =~= word_udp4() && tcp6@ =~= word_tcp6() && udp6@ =~= word_udp6());
    assert(unknown@ =~= word_unknown());
    if same_bytes(proto, tcp4.as_slice()) || same_bytes(proto, udp4.as_slice()) {
        let src = parse_ipv4(parts[2].as_slice());
        let dst = parse_ipv4(parts[3].as_slice());
        match (src, dst) {
            (Some(s), Some(d)) => Ok((
                ProxyHeader { source_addr: SockAddr { ip: HostIp::V4(s), port: sp }, dest_addr: SockAddr { ip: HostIp::V4(d), port: dp } },
                end + 2,
            )),
            _ => Err(ProxyError::BadAddress),
        }
    } else if same_bytes(proto, tcp6.as_slice()) || same_bytes(proto, udp6.as_slice()) {
        let src = parse_ipv6(parts[2].as_slice());
        let dst = parse_ipv6(parts[3].as_slice());
        match (src, dst) {
            (Some(s), Some(d)) => {
                proof {
                    vstd::array::axiom_array_ext_equal(s, v6_at(s@, 0));
                    vstd::array::axiom_array_ext_equal(d, v6_at(d@, 0));
                    assert(v6_at(s@, 0)@ =~= s@);
                    assert(v6_at(d@, 0)@ =~= d@);
                }
                Ok((
                    ProxyHeader { source_addr: SockAddr { ip: HostIp::V6(s), port: sp }, dest_addr: SockAddr { ip: HostIp::V6(d), port: dp } },
                    end + 2,
                ))
            },
            _ => Err(ProxyError::BadAddress),
        }
    } else if same_bytes(proto, unknown.as_slice()) {
        let z = SockAddr { ip: HostIp::V4([0u8, 0, 0, 0]), port: 0 };
        assert(z == zero_addr());
        Ok((ProxyHeader { source_addr: z, dest_addr: z }, end + 2))
    } else {
        Err(ProxyError::UnknownProtocol)
    }
}

/// Reads a PROXY header at the start of `data`; returns it with the number
/// of bytes it takes.
pub fn parse_proxy_protocol(data: &[u8]) -> (r: Result<(ProxyHeader, usize), ProxyError>)
    ensures
        starts_with(data@, v1_signature()) ==> match r {
            Ok((h, n)) => parse_v1_spec(data@) == Ok::<(ProxyHeader, int), ProxyError>((h, n as int)),
            Err(e) => parse_v1_spec(data@) == Err::<(ProxyHeader, int), ProxyError>(e),
        },
        !starts_with(data@, v1_signature()) && starts_with(data@, v2_signature()) ==> match r {
            Ok((h, n)) => parse_v2_spec(data@) == Ok::<(ProxyHeader, int), ProxyError>((h, n as int)),
            Err(e) => parse_v2_spec(data@) == Err::<(ProxyHeader, int), ProxyError>(e),
        },
        !starts_with(data@, v1_signature()) && !starts_with(data@, v2_signature()) ==> r == Err::<
            (ProxyHeader, usize),
            ProxyError,
        >(ProxyError::NoSignature),
{
    let v1: [u8; 6] = [80, 82, 79, 88, 89, 32];
    let v2: [u8; 12] = [0x0D, 0x0A, 0x0D, 0x0A, 0x00, 0x0D, 0x0A, 0x51, 0x55, 0x49, 0x54, 0x0A];
    assert(v1@ =~= v1_signature());
    assert(v2@ =~= v2_signature());
    if starts_with_bytes(data, v1.as_slice()) {
        parse_v1(data)
    } else if starts_with_bytes(data, v2.as_slice()) {
        parse_v2(data)
    } else {
        Err(ProxyError::NoSignature)
    }
}

} // verus!
