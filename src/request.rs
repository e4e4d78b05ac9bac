//! The VLESS request header.
use vstd::prelude::*;
use crate::address::{decode_address, encodable, encode_address, AddrModel, Address};
use crate::error::VlessError;
use crate::wire::range_eq;

verus! {

/// The only request version this codec speaks.
pub const VLESS_VERSION: u8 = 0;

/// What the client asks the proxy to do.
#[derive(Debug, Clone, Copy, PartialEq, Eq, Structural)]
pub enum Command {
    Tcp,
    Udp,
    Mux,
}

/// The command that a command byte names, if any.
pub open spec fn command_of(b: u8) -> Option<Command> {
    if b == 1 {
        Some(Command::Tcp)
    } else if b == 2 {
        Some(Command::Udp)
    } else if b == 3 {
        Some(Command::Mux)
    } else {
        None
    }
}

/// The byte that stands for a command.
pub open spec fn command_byte(c: Command) -> u8 {
    match c {
        Command::Tcp => 1,
        Command::Udp => 2,
        Command::Mux => 3,
    }
}

impl Command {
    pub fn from_u8(value: u8) -> (r: Result<Command, VlessError>)
        ensures
            match command_of(value) {
                Some(c) => r == Ok::<Command, VlessError>(c),
                None => r == Err::<Command, VlessError>(VlessError::UnknownCommand(value)),
            },
    {
        if value == 1 {
            Ok(Command::Tcp)
        } else if value == 2 {
            Ok(Command::Udp)
        } else if value == 3 {
            Ok(Command::Mux)
        } else {
            Err(VlessError::UnknownCommand(value))
        }
    }

    pub fn as_u8(&self) -> (r: u8)
        ensures
            r == command_byte(*self),
    {
        match self {
            Command::Tcp => 1,
            Command::Udp => 2,
            Command::Mux => 3,
        }
    }
}

/// A decoded request header.
#[derive(Debug, Clone)]
pub struct VlessRequest {
    pub version: u8,
    pub uuid: [u8; 16],
    pub command: Command,
    pub address: Address,
    pub addon_length: u8,
}

/// What a request header holds.
pub struct RequestModel {
    pub version: u8,
    pub uuid: Seq<u8>,
    pub command: Command,
    pub address: AddrModel,
    pub addon_length: u8,
}

impl View for VlessRequest {
    type V = RequestModel;

    open spec fn view(&self) -> RequestModel {
        RequestModel {
            version: self.version,
            uuid: self.uuid@,
            command: self.command,
            address: self.address@,
            addon_length: self.addon_length,
        }
    }
}

/// Whether `u` is one of the allowed UUIDs.
pub open spec fn uuid_allowed(allowed: Seq<[u8; 16]>, u: Seq<u8>) -> bool {
    exists|i: int| 0 <= i < allowed.len() && #[trigger] allowed[i]@ == u
}

/// The request at the start of `s`, with the number of bytes it takes, or
/// the first reason it is refused.
pub open spec fn decode_request(s: Seq<u8>, allowed: Seq<[u8; 16]>) -> Result<(RequestModel, int), VlessError> {
    if s.len() < 22 {
        Err(VlessError::ShortBuffer)
    } else if s[0] != VLESS_VERSION {
        Err(VlessError::UnsupportedVersion(s[0]))
    } else if !uuid_allowed(allowed, s.subrange(1, 17)) {
        Err(VlessError::UnauthorizedUuid)
    } else if s.len() - 18 < s[17] as int + 1 {
        Err(VlessError::ShortBuffer)
    } else {
        let at = 18 + s[17] as int;
        match command_of(s[at]) {
            None => Err(VlessError::UnknownCommand(s[at])),
            Some(c) => match decode_address(s.subrange(at + 1, s.len() as int)) {
                Err(e) => Err(e),
                Ok((a, n)) => Ok((
                    RequestModel {
                        version: s[0],
                        uuid: s.subrange(1, 17),
                        command: c,
                        address: a,
                        addon_length: s[17],
                    },
                    at + 1 + n,
                )),
            },
        }
    }
}

/// The wire form of a request; the addon block is always written empty.
pub open spec fn encode_request(r: RequestModel) -> Seq<u8> {
    seq![r.version] + r.uuid + seq![0u8, command_byte(r.command)] + encode_address(r.address)
}

/// Whether `u` is in `list`.
pub fn contains_uuid(list: &[[u8; 16]], u: &[u8; 16]) -> (r: bool)
    ensures
        r == uuid_allowed(list@, u@),
{
    let mut i: usize = 0;
    while i < list.len()
        invariant
            i <= list@.len(),
            forall|j: int| 0 <= j < i ==> list@[j]@ != u@,
        decreases list@.len() - i,
    {
        let cand: &[u8; 16] = &list[i];
        if range_eq(cand.as_slice(), 0, u.as_slice(), 0, 16) {
            assert(cand@.subrange(0, 16) =~= cand@);
            assert(u@.subrange(0, 16) =~= u@);
            return true;
        }
        assert(cand@.subrange(0, 16) =~= cand@);
        assert(u@.subrange(0, 16) =~= u@);
        i = i + 1;
    }
    false
}

impl VlessRequest {
    /// Reads a request at the start of `b`; returns it with the number of
    /// bytes it took.
    pub fn parse(b: &[u8], allowed_uuids: &[[u8; 16]]) -> (r: Result<(VlessRequest, usize), VlessError>)
        ensures
            match r {
                Ok((q, n)) => decode_request(b@, allowed_uuids@) == Ok::<(RequestModel, int), VlessError>((q@, n as int)),
                Err(e) => decode_request(b@, allowed_uuids@) == Err::<(RequestModel, int), VlessError>(e),
            },
    {
        let len = b.len();
        if len < 22 {
            return Err(VlessError::ShortBuffer);
        }
        let version = b[0];
        if version != VLESS_VERSION {
            return Err(VlessError::UnsupportedVersion(version));
        }
        let uuid: [u8; 16] = [b[1], b[2], b[3], b[4], b[5], b[6], b[7], b[8], b[9], b[10], b[11], b[12],
            b[13], b[14], b[15], b[16]];
        assert(uuid@ =~= b@.subrange(1, 17));
        if !contains_uuid(allowed_uuids, &uuid) {
            return Err(VlessError::UnauthorizedUuid);
        }
        let addon_length = b[17];
        if len - 18 < addon_length as usize + 1 {
            return Err(VlessError::ShortBuffer);
        }
        let at: usize = 18 + addon_length as usize;
        let command = match Command::from_u8(b[at]) {
            Ok(c) => c,
            Err(e) => return Err(e),
        };
        let rest = crate::wire::copy_range(b, at + 1, len);
        match Address::parse(rest.as_slice()) {
            Err(e) => Err(e),
            Ok((address, n)) => {
                let q = VlessRequest { version, uuid, command, address, addon_length };
                Ok((q, at + 1 + n))
            },
        }
    }

    /// Reads a request from the front of `buf` and removes its bytes, leaving
    /// what follows it (the first payload); on an error `buf` is left as it was.
    pub fn decode(buf: &mut Vec<u8>, allowed_uuids: &[[u8; 16]]) -> (r: Result<VlessRequest, VlessError>)
        ensures
            match r {
                Ok(q) => exists|n: int| decode_request(old(buf)@, allowed_uuids@) == Ok::<(RequestModel, int), VlessError>((q@, n))
                    && final(buf)@ == old(buf)@.subrange(n, old(buf)@.len() as int),
                Err(e) => decode_request(old(buf)@, allowed_uuids@) == Err::<(RequestModel, int), VlessError>(e)
                    && final(buf)@ == old(buf)@,
            },
    {
        match Self::parse(buf.as_slice(), allowed_uuids) {
            Ok((q, n)) => {
                let rest = buf.split_off(n);
                *buf = rest;
                Ok(q)
            },
            Err(e) => Err(e),
        }
    }

    /// The wire form of the request, with an empty addon block.
    pub fn encode(&self) -> (r: Result<Vec<u8>, VlessError>)
        ensures
            r is Ok <==> encodable(self.address@),
            r is Ok ==> r.unwrap()@ == encode_request(self@),
            r is Err ==> r == Err::<Vec<u8>, VlessError>(VlessError::DomainTooLong),
    {
        let mut buf: Vec<u8> = Vec::new();
        buf.push(self.version);
        crate::wire::push_all(&mut buf, self.uuid.as_slice());
        buf.push(0);
        buf.push(self.command.as_u8());
        match self.address.encode(&mut buf) {
            Ok(()) => {
                assert(buf@ =~= encode_request(self@));
                Ok(buf)
            },
            Err(e) => Err(e),
        }
    }
}

} // verus!
