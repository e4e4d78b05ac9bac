//! Decisions of a VLESS session after the request header: the answer to
//! plain HTTP probes, the destination override from a sniffed server name,
//! and the length-prefixed framing of UDP datagrams over the stream.
use vstd::prelude::*;
use crate::address::{AddrModel, Address};
use crate::wire::{be16, copy_range, push_all, push_u16, read_u16, u16_bytes};

verus! {

/// Whether a buffer that failed to decode as VLESS opens like an HTTP
/// request: `GET `, `POST` or `HEAD`.
pub open spec fn looks_like_http(b: Seq<u8>) -> bool {
    b.len() >= 4 && (b.subrange(0, 4) == seq![71u8, 69, 84, 32] || b.subrange(0, 4) == seq![80u8, 79, 83, 84]
        || b.subrange(0, 4) == seq![72u8, 69, 65, 68])
}

/// `HTTP/1.1 204 No Content` followed by an empty header block.
pub open spec fn no_content_reply() -> Seq<u8> {
    seq![72u8, 84, 84, 80, 47, 49, 46, 49, 32, 50, 48, 52, 32, 78, 111, 32, 67, 111, 110, 116, 101, 110, 116, 13,
        10, 13, 10]
}

pub fn is_http_probe(buf: &[u8]) -> (r: bool)
    ensures
        r == looks_like_http(buf@),
{
    if buf.len() < 4 {
        return false;
    }
    let get: [u8; 4] = [71, 69, 84, 32];
    let post: [u8; 4] = [80, 79, 83, 84];
    let head: [u8; 4] = [72, 69, 65, 68];
    assert(get@ =~= seq![71u8, 69, 84, 32]);
    assert(post@ =~= seq![80u8, 79, 83, 84]);
    assert(head@ =~= seq![72u8, 69, 65, 68]);
    assert(get@.subrange(0, 4) =~= get@);
    assert(post@.subrange(0, 4) =~= post@);
    assert(head@.subrange(0, 4) =~= head@);
    crate::wire::range_eq(buf, 0, get.as_slice(), 0, 4) || crate::wire::range_eq(buf, 0, post.as_slice(), 0, 4)
        || crate::wire::range_eq(buf, 0, head.as_slice(), 0, 4)
}

/// What to send back when a request fails to decode: the 204 reply for an
/// HTTP probe, nothing otherwise (the connection is then closed).
pub fn probe_reply(buf: &[u8]) -> (r: Option<Vec<u8>>)
    ensures
        looks_like_http(buf@) ==> r is Some && r.unwrap()@ == no_content_reply(),
        !looks_like_http(buf@) ==> r is None,
{
    if is_http_probe(buf) {
        let reply: Vec<u8> = vec![72u8, 84, 84, 80, 47, 49, 46, 49, 32, 50, 48, 52, 32, 78, 111, 32, 67, 111, 110, 116,
            101, 110, 116, 13, 10, 13, 10];
        assert(reply@ =~= no_content_reply());
        Some(reply)
    } else {
        None
    }
}

pub open spec fn port_of(a: AddrModel) -> u16 {
    match a {
        AddrModel::Ipv4(_, p) => p,
        AddrModel::Ipv6(_, p) => p,
        AddrModel::Domain(_, p) => p,
    }
}

/// The TCP destination: the sniffed server name, when there is one, with
/// the requested port; else the requested address.
pub fn tcp_destination(requested: &Address, sniffed: Option<String>) -> (r: Address)
    ensures
        sniffed is Some ==> r@ == AddrModel::Domain(sniffed.unwrap()@, port_of(requested@)),
        sniffed is None ==> r@ == requested@,
{
    match sniffed {
        Some(name) => Address::Domain(name, requested.port()),
        None => match requested {
            Address::Ipv4(ip, p) => Address::Ipv4(*ip, *p),
            Address::Ipv6(ip, p) => Address::Ipv6(*ip, *p),
            Address::Domain(d, p) => Address::Domain(d.clone(), *p),
        },
    }
}

/// A datagram framed for the stream: 2-byte big-endian length, payload.
pub open spec fn udp_frame_bytes(payload: Seq<u8>) -> Seq<u8> {
    u16_bytes(payload.len() as u16) + payload
}

/// Frames a datagram; one over 65535 bytes cannot be framed.
pub fn udp_frame(payload: &[u8]) -> (r: Option<Vec<u8>>)
    ensures
        payload@.len() > 65535 ==> r is None,
        payload@.len() <= 65535 ==> r is Some && r.unwrap()@ == udp_frame_bytes(payload@),
{
    if payload.len() > 65535 {
        return None;
    }
    let mut out: Vec<u8> = Vec::new();
    push_u16(&mut out, payload.len() as u16);
    push_all(&mut out, payload);
    assert(out@ =~= udp_frame_bytes(payload@));
    Some(out)
}

/// The datagram framed at the start of `buf`, with the bytes it takes, when
/// the frame is complete.
pub fn udp_unframe(buf: &[u8]) -> (r: Option<(Vec<u8>, usize)>)
    ensures
        (buf@.len() < 2 || buf@.len() - 2 < be16(buf@, 0)) ==> r is None,
        !(buf@.len() < 2 || buf@.len() - 2 < be16(buf@, 0)) ==> r is Some
            && r.unwrap().0@ == buf@.subrange(2, 2 + be16(buf@, 0))
            && r.unwrap().1 as int == 2 + be16(buf@, 0),
{
    if buf.len() < 2 {
        return None;
    }
    let n = read_u16(buf, 0) as usize;
    if buf.len() - 2 < n {
        return None;
    }
    Some((copy_range(buf, 2, 2 + n), 2 + n))
}

/// Unframing a framed datagram gives it back, whatever follows.
pub proof fn udp_frame_round_trip(payload: Seq<u8>, rest: Seq<u8>)
    requires
        payload.len() <= 65535,
    ensures
        ({
            let b = udp_frame_bytes(payload) + rest;
            &&& b.len() >= 2 && b.len() - 2 >= be16(b, 0)
            &&& b.subrange(2, 2 + be16(b, 0)) == payload
        }),
{
    let b = udp_frame_bytes(payload) + rest;
    let n = payload.len() as u16;
    assert(b[0] == (n / 256) as u8 && b[1] == (n % 256) as u8);
    assert(be16(b, 0) == payload.len());
    assert(b.subrange(2, 2 + be16(b, 0)) =~= payload);
}

} // verus!
