//! The VLESS response preamble.
use vstd::prelude::*;
use crate::request::VLESS_VERSION;

verus! {

/// The two bytes sent back before any forwarded payload.
#[derive(Debug, Clone, Copy, PartialEq, Eq, Structural)]
pub struct VlessResponse {
    pub version: u8,
    pub addon_length: u8,
}

impl VlessResponse {
    pub fn new() -> (r: VlessResponse)
        ensures
            r.version == VLESS_VERSION,
            r.addon_length == 0,
    {
        VlessResponse { version: VLESS_VERSION, addon_length: 0 }
    }

    pub fn encode(&self) -> (r: Vec<u8>)
        ensures
            r@ == seq![self.version, self.addon_length],
    {
        let mut buf: Vec<u8> = Vec::new();
        buf.push(self.version);
        buf.push(self.addon_length);
        assert(buf@ =~= seq![self.version, self.addon_length]);
        buf
    }
}

impl Default for VlessResponse {
    fn default() -> (r: VlessResponse)
        ensures
            r.version == VLESS_VERSION,
            r.addon_length == 0,
    {
        VlessResponse::new()
    }
}

} // verus!
