//! Errors of the VLESS codec.
use vstd::prelude::*;

verus! {

/// Why a VLESS request or address could not be decoded or encoded.
#[derive(Debug, Clone, Copy, PartialEq, Eq, Structural)]
pub enum VlessError {
    /// The buffer ends before the field being read.
    ShortBuffer,
    /// The version byte is not zero.
    UnsupportedVersion(u8),
    /// The command byte is not 1, 2 or 3.
    UnknownCommand(u8),
    /// The client UUID is not in the allow-list.
    UnauthorizedUuid,
    /// The address type byte is not 1, 2 or 3.
    InvalidAddressType(u8),
    /// The domain bytes are not valid UTF-8.
    InvalidUtf8Domain,
    /// A domain longer than 255 bytes cannot be framed.
    DomainTooLong,
}

} // verus!
