//! Server name sniffing on the first payload of a TCP session.
use vstd::prelude::*;
use vstd::utf8::*;
use crate::text::utf8_string;
use crate::wire::{be16, copy_range, read_u16};

verus! {

/// The first host_name entry of a server name list whose bytes are valid UTF-8.
pub open spec fn first_valid_host(l: Seq<u8>) -> Option<Seq<char>>
    decreases l.len(),
{
    if l.len() < 3 || l.len() - 3 < be16(l, 1) {
        None
    } else if l[0] == 0 && valid_utf8(l.subrange(3, 3 + be16(l, 1))) {
        Some(decode_utf8(l.subrange(3, 3 + be16(l, 1))))
    } else {
        first_valid_host(l.subrange(3 + be16(l, 1), l.len() as int))
    }
}

/// The server name of the first server_name extension that carries a
/// usable one, in an extension block.
pub open spec fn sni_in_extensions(e: Seq<u8>) -> Option<Seq<char>>
    decreases e.len(),
{
    if e.len() < 4 || e.len() - 4 < be16(e, 2) {
        None
    } else {
        let d = e.subrange(4, 4 + be16(e, 2));
        let here = if be16(e, 0) == 0 && d.len() >= 2 && d.len() - 2 >= be16(d, 0) {
            first_valid_host(d.subrange(2, 2 + be16(d, 0)))
        } else {
            None
        };
        if here is Some {
            here
        } else {
            sni_in_extensions(e.subrange(4 + be16(e, 2), e.len() as int))
        }
    }
}

/// Offsets in a record-framed ClientHello, as in the admission parser.
pub open spec fn sn_cs_at(s: Seq<u8>) -> int {
    44 + s[43] as int
}

pub open spec fn sn_cm_at(s: Seq<u8>) -> int {
    sn_cs_at(s) + 2 + be16(s, sn_cs_at(s))
}

pub open spec fn sn_ext_at(s: Seq<u8>) -> int {
    sn_cm_at(s) + 1 + s[sn_cm_at(s)] as int
}

/// The server name that a complete TLS ClientHello record at the start of
/// `s` asks for.
pub open spec fn sniffed_sni(s: Seq<u8>) -> Option<Seq<char>> {
    if s.len() < 44 || s[0] != 0x16 || s.len() - 5 < be16(s, 3) || s[5] != 1 {
        None
    } else if s.len() < sn_cs_at(s) + 2 || s.len() - (sn_cs_at(s) + 2) < be16(s, sn_cs_at(s)) {
        None
    } else if s.len() < sn_cm_at(s) + 1 || s.len() - (sn_cm_at(s) + 1) < s[sn_cm_at(s)] as int {
        None
    } else if s.len() - sn_ext_at(s) < 2 || s.len() - (sn_ext_at(s) + 2) < be16(s, sn_ext_at(s)) {
        None
    } else {
        sni_in_extensions(s.subrange(sn_ext_at(s) + 2, sn_ext_at(s) + 2 + be16(s, sn_ext_at(s))))
    }
}

fn host_in_list(b: &[u8], start: usize, end: usize) -> (r: Option<String>)
    requires
        start <= end <= b@.len(),
    ensures
        r is Some == first_valid_host(b@.subrange(start as int, end as int)) is Some,
        r is Some ==> r.unwrap()@ == first_valid_host(b@.subrange(start as int, end as int)).unwrap(),
{
    let mut p: usize = start;
    while p < end
        invariant
            start <= p <= end <= b@.len(),
            first_valid_host(b@.subrange(start as int, end as int)) == first_valid_host(b@.subrange(p as int, end as int)),
        decreases end - p,
    {
        let ghost l = b@.subrange(p as int, end as int);
        if end - p < 3 {
            return None;
        }
        let n = read_u16(b, p + 1) as usize;
        assert(n == be16(l, 1) && b[p as int] == l[0]);
        if end - p - 3 < n {
            return None;
        }
        if b[p] == 0 {
            let name = copy_range(b, p + 3, p + 3 + n);
            assert(name@ =~= l.subrange(3, 3 + be16(l, 1)));
            match utf8_string(name) {
                Some(s) => { return Some(s); },
                None => {},
            }
        }
        assert(l.subrange(3 + be16(l, 1), l.len() as int) =~= b@.subrange(p + 3 + n, end as int));
        p = p + 3 + n;
    }
    None
}

/// The server name of a TLS ClientHello record at the start of `data`, if it
/// is complete and well formed and names a host.
pub fn sniff_tls_sni(data: &[u8]) -> (r: Option<String>)
    ensures
        r is Some == sniffed_sni(data@) is Some,
        r is Some ==> r.unwrap()@ == sniffed_sni(data@).unwrap(),
{
    let len = data.len();
    if len < 44 || data[0] != 0x16 || len - 5 < read_u16(data, 3) as usize || data[5] != 1 {
        return None;
    }
    let cs: usize = 44 + data[43] as usize;
    if len < cs + 2 {
        return None;
    }
    let cs_len = read_u16(data, cs) as usize;
    if len - (cs + 2) < cs_len {
        return None;
    }
    let cm: usize = cs + 2 + cs_len;
    if len < cm + 1 {
        return None;
    }
    let cm_len = data[cm] as usize;
    if len - (cm + 1) < cm_len {
        return None;
    }
    let ext: usize = cm + 1 + cm_len;
    if len - ext < 2 {
        return None;
    }
    let ext_len = read_u16(data, ext) as usize;
    if len - (ext + 2) < ext_len {
        return None;
    }
    let eend: usize = ext + 2 + ext_len;
    let mut p: usize = ext + 2;
    while p < eend
        invariant
            ext + 2 <= p <= eend <= len,
            len == data@.len(),
            sniffed_sni(data@) == sni_in_extensions(data@.subrange(p as int, eend as int)),
        decreases eend - p,
    {
        let ghost e = data@.subrange(p as int, eend as int);
        if eend - p < 4 {
            return None;
        }
        let t = read_u16(data, p);
        let n = read_u16(data, p + 2) as usize;
        assert(t == be16(e, 0) && n == be16(e, 2));
        if eend - p - 4 < n {
            return None;
        }
        let ds: usize = p + 4;
        let de: usize = p + 4 + n;
        let ghost d = e.subrange(4, 4 + be16(e, 2));
        assert(d =~= data@.subrange(ds as int, de as int));
        if t == 0 && n >= 2 {
            let list_len = read_u16(data, ds) as usize;
            assert(list_len == be16(d, 0));
            if n - 2 >= list_len {
                assert(d.subrange(2, 2 + be16(d, 0)) =~= data@.subrange(ds + 2, ds + 2 + list_len));
                match host_in_list(data, ds + 2, ds + 2 + list_len) {
                    Some(s) => { return Some(s); },
                    None => {},
                }
            }
        }
        assert(e.subrange(4 + be16(e, 2), e.len() as int) =~= data@.subrange(de as int, eend as int));
        p = de;
    }
    None
}

} // verus!
