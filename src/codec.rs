//! The server side of the VLESS handshake: an allow-list of client UUIDs.
use vstd::prelude::*;
use crate::error::VlessError;
use crate::request::{contains_uuid, decode_request, uuid_allowed, RequestModel, VlessRequest};
use crate::response::VlessResponse;

verus! {

/// Decodes requests against a list of allowed client UUIDs.
#[derive(Clone)]
pub struct VlessCodec {
    allowed_uuids: Vec<[u8; 16]>,
}

impl VlessCodec {
    /// The allowed UUIDs, in the order they were added.
    pub closed spec fn allowed(&self) -> Seq<[u8; 16]> {
        self.allowed_uuids@
    }

    pub fn new(allowed_uuids: Vec<[u8; 16]>) -> (r: VlessCodec)
        ensures
            r.allowed() == allowed_uuids@,
    {
        VlessCodec { allowed_uuids }
    }

    /// Reads a request from the front of `buf` (see `VlessRequest::decode`).
    pub fn decode_request(&self, buf: &mut Vec<u8>) -> (r: Result<VlessRequest, VlessError>)
        ensures
            match r {
                Ok(q) => exists|n: int| decode_request(old(buf)@, self.allowed()) == Ok::<(RequestModel, int), VlessError>((q@, n))
                    && final(buf)@ == old(buf)@.subrange(n, old(buf)@.len() as int),
                Err(e) => decode_request(old(buf)@, self.allowed()) == Err::<(RequestModel, int), VlessError>(e)
                    && final(buf)@ == old(buf)@,
            },
    {
        VlessRequest::decode(buf, self.allowed_uuids.as_slice())
    }

    pub fn encode_response(&self, response: &VlessResponse) -> (r: Vec<u8>)
        ensures
            r@ == seq![response.version, response.addon_length],
    {
        response.encode()
    }

    pub fn validate_uuid(&self, uuid: &[u8; 16]) -> (r: bool)
        ensures
            r == uuid_allowed(self.allowed(), uuid@),
    {
        contains_uuid(self.allowed_uuids.as_slice(), uuid)
    }

    /// Adds `uuid` unless it is already allowed.
    pub fn add_uuid(&mut self, uuid: [u8; 16])
        ensures
            uuid_allowed(old(self).allowed(), uuid@) ==> final(self).allowed() == old(self).allowed(),
            !uuid_allowed(old(self).allowed(), uuid@) ==> final(self).allowed() == old(self).allowed().push(uuid),
    {
        if !contains_uuid(self.allowed_uuids.as_slice(), &uuid) {
            self.allowed_uuids.push(uuid);
        }
    }

    /// Removes the first entry equal to `uuid`; tells whether there was one.
    pub fn remove_uuid(&mut self, uuid: &[u8; 16]) -> (r: bool)
        ensures
            r == uuid_allowed(old(self).allowed(), uuid@),
            !r ==> final(self).allowed() == old(self).allowed(),
            r ==> exists|i: int| 0 <= i < old(self).allowed().len()
                && old(self).allowed()[i]@ == uuid@
                && (forall|j: int| 0 <= j < i ==> old(self).allowed()[j]@ != uuid@)
                && final(self).allowed() == old(self).allowed().remove(i),
    {
        let mut i: usize = 0;
        while i < self.allowed_uuids.len()
            invariant
                i <= self.allowed_uuids@.len(),
                self.allowed_uuids@ == old(self).allowed_uuids@,
                forall|j: int| 0 <= j < i ==> self.allowed_uuids@[j]@ != uuid@,
            decreases self.allowed_uuids@.len() - i,
        {
            if crate::wire::range_eq(self.allowed_uuids[i].as_slice(), 0, uuid.as_slice(), 0, 16) {
                assert(self.allowed_uuids@[i as int]@.subrange(0, 16) =~= self.allowed_uuids@[i as int]@);
                assert(uuid@.subrange(0, 16) =~= uuid@);
                self.allowed_uuids.remove(i);
                return true;
            }
            assert(self.allowed_uuids@[i as int]@.subrange(0, 16) =~= self.allowed_uuids@[i as int]@);
            assert(uuid@.subrange(0, 16) =~= uuid@);
            i = i + 1;
        }
        false
    }
}

} // verus!
