//! gRPC length-prefixed messages, headers and trailers.
use vstd::prelude::*;
use crate::wire::{be32, copy_range, push_all, push_u32, read_u32, u32_bytes};

verus! {

/// One gRPC message: compressed flag, 4-byte big-endian length, payload.
#[derive(Debug, Clone)]
pub struct GrpcMessage {
    pub compressed: bool,
    pub data: Vec<u8>,
}

/// The wire form of a message.
pub open spec fn grpc_frame(compressed: bool, data: Seq<u8>) -> Seq<u8> {
    seq![if compressed { 1u8 } else { 0u8 }] + u32_bytes(data.len() as u32) + data
}

impl GrpcMessage {
    pub fn new(data: Vec<u8>) -> (r: GrpcMessage)
        ensures
            !r.compressed,
            r.data@ == data@,
    {
        GrpcMessage { compressed: false, data }
    }

    /// The wire form; the length field holds at most `u32::MAX`.
    pub fn encode(&self) -> (r: Vec<u8>)
        requires
            self.data@.len() <= u32::MAX,
        ensures
            r@ == grpc_frame(self.compressed, self.data@),
    {
        let mut buf: Vec<u8> = Vec::new();
        buf.push(if self.compressed { 1u8 } else { 0u8 });
        push_u32(&mut buf, self.data.len() as u32);
        push_all(&mut buf, self.data.as_slice());
        assert(buf@ =~= grpc_frame(self.compressed, self.data@));
        buf
    }

    /// The message at the start of `data`, if it is complete.
    pub fn decode(data: &[u8]) -> (r: Option<GrpcMessage>)
        ensures
            (data@.len() < 5 || data@.len() - 5 < be32(data@, 1)) ==> r is None,
            !(data@.len() < 5 || data@.len() - 5 < be32(data@, 1)) ==> r is Some
                && r.unwrap().compressed == (data@[0] != 0)
                && r.unwrap().data@ == data@.subrange(5, 5 + be32(data@, 1)),
    {
        if data.len() < 5 {
            return None;
        }
        let length = read_u32(data, 1) as usize;
        if data.len() - 5 < length {
            return None;
        }
        Some(GrpcMessage { compressed: data[0] != 0, data: copy_range(data, 5, 5 + length) })
    }

    /// The five bytes of an empty, uncompressed message.
    pub fn empty() -> (r: Vec<u8>)
        ensures
            r@ == seq![0u8, 0, 0, 0, 0],
    {
        let r: Vec<u8> = vec![0u8, 0, 0, 0, 0];
        assert(r@ =~= seq![0u8, 0, 0, 0, 0]);
        r
    }
}

/// The (name, value) pairs of a header list.
pub open spec fn header_pairs(v: Seq<(String, String)>) -> Seq<(Seq<char>, Seq<char>)> {
    Seq::new(v.len(), |i: int| (v[i].0@, v[i].1@))
}

fn clone_pairs(v: &Vec<(String, String)>) -> (r: Vec<(String, String)>)
    ensures
        header_pairs(r@) == header_pairs(v@),
{
    let mut out: Vec<(String, String)> = Vec::new();
    let mut i: usize = 0;
    while i < v.len()
        invariant
            i <= v@.len(),
            header_pairs(out@) == header_pairs(v@).subrange(0, i as int),
        decreases v@.len() - i,
    {
        let pair: &(String, String) = &v[i];
        let k: String = String::clone(&pair.0);
        let x: String = String::clone(&pair.1);
        assert(k@ == v@[i as int].0@ && x@ == v@[i as int].1@);
        let ghost prev = out@;
        out.push((k, x));
        assert(out@[prev.len() as int] == (k, x));
        assert(header_pairs(out@) =~= header_pairs(prev).push((k@, x@)));
        i = i + 1;
        assert(header_pairs(out@) =~= header_pairs(v@).subrange(0, i as int));
    }
    assert(header_pairs(v@).subrange(0, v@.len() as int) =~= header_pairs(v@));
    out
}

fn push_pair(v: &mut Vec<(String, String)>, k: &str, x: &str)
    ensures
        header_pairs(final(v)@) == header_pairs(old(v)@).push((k@, x@)),
{
    v.push((k.to_owned(), x.to_owned()));
    assert(header_pairs(final(v)@) =~= header_pairs(old(v)@).push((k@, x@)));
}

/// Builds the response headers of a gRPC stream.
#[derive(Debug, Clone)]
pub struct GrpcHeaders {
    headers: Vec<(String, String)>,
}

impl GrpcHeaders {
    pub closed spec fn pairs(&self) -> Seq<(Seq<char>, Seq<char>)> {
        header_pairs(self.headers@)
    }

    pub fn new() -> (r: GrpcHeaders)
        ensures
            r.pairs() == Seq::<(Seq<char>, Seq<char>)>::empty(),
    {
        let r = GrpcHeaders { headers: Vec::new() };
        assert(r.pairs() =~= Seq::<(Seq<char>, Seq<char>)>::empty());
        r
    }

    /// Adds content-type `application/grpc`, grpc-encoding `identity` and
    /// grpc-accept-encoding `gzip`.
    pub fn with_grpc_defaults(self) -> (r: GrpcHeaders)
        ensures
            r.pairs() == self.pairs().push(("content-type"@, "application/grpc"@)).push(
                ("grpc-encoding"@, "identity"@),
            ).push(("grpc-accept-encoding"@, "gzip"@)),
    {
        let mut headers = self.headers;
        push_pair(&mut headers, "content-type", "application/grpc");
        push_pair(&mut headers, "grpc-encoding", "identity");
        push_pair(&mut headers, "grpc-accept-encoding", "gzip");
        GrpcHeaders { headers }
    }

    pub fn add_header(self, key: String, value: String) -> (r: GrpcHeaders)
        ensures
            r.pairs() == self.pairs().push((key@, value@)),
    {
        let mut headers = self.headers;
        headers.push((key, value));
        let r = GrpcHeaders { headers };
        assert(r.pairs() =~= self.pairs().push((key@, value@)));
        r
    }

    pub fn build(&self) -> (r: Vec<(String, String)>)
        ensures
            header_pairs(r@) == self.pairs(),
    {
        clone_pairs(&self.headers)
    }
}

impl Default for GrpcHeaders {
    fn default() -> (r: GrpcHeaders)
        ensures
            r.pairs() == Seq::<(Seq<char>, Seq<char>)>::empty(),
    {
        GrpcHeaders::new()
    }
}

/// gRPC status codes.
#[derive(Debug, Clone, Copy, PartialEq, Eq, Structural)]
pub enum GrpcStatus {
    OK,
    Cancelled,
    Unknown,
    InvalidArgument,
    DeadlineExceeded,
    NotFound,
    AlreadyExists,
    PermissionDenied,
    ResourceExhausted,
    FailedPrecondition,
    Aborted,
    OutOfRange,
    Unimplemented,
    Internal,
    Unavailable,
    DataLoss,
    Unauthenticated,
}

/// The decimal code of a status, as it appears in `grpc-status`.
pub open spec fn status_code(s: GrpcStatus) -> &'static str {
    match s {
        GrpcStatus::OK => "0",
        GrpcStatus::Cancelled => "1",
        GrpcStatus::Unknown => "2",
        GrpcStatus::InvalidArgument => "3",
        GrpcStatus::DeadlineExceeded => "4",
        GrpcStatus::NotFound => "5",
        GrpcStatus::AlreadyExists => "6",
        GrpcStatus::PermissionDenied => "7",
        GrpcStatus::ResourceExhausted => "8",
        GrpcStatus::FailedPrecondition => "9",
        GrpcStatus::Aborted => "10",
        GrpcStatus::OutOfRange => "11",
        GrpcStatus::Unimplemented => "12",
        GrpcStatus::Internal => "13",
        GrpcStatus::Unavailable => "14",
        GrpcStatus::DataLoss => "15",
        GrpcStatus::Unauthenticated => "16",
    }
}

/// The text that describes a status.
pub open spec fn status_text(s: GrpcStatus) -> &'static str {
    match s {
        GrpcStatus::OK => "OK",
        GrpcStatus::Cancelled => "Cancelled",
        GrpcStatus::Unknown => "Unknown",
        GrpcStatus::InvalidArgument => "Invalid argument",
        GrpcStatus::DeadlineExceeded => "Deadline exceeded",
        GrpcStatus::NotFound => "Not found",
        GrpcStatus::AlreadyExists => "Already exists",
        GrpcStatus::PermissionDenied => "Permission denied",
        GrpcStatus::ResourceExhausted => "Resource exhausted",
        GrpcStatus::FailedPrecondition => "Failed precondition",
        GrpcStatus::Aborted => "Aborted",
        GrpcStatus::OutOfRange => "Out of range",
        GrpcStatus::Unimplemented => "Unimplemented",
        GrpcStatus::Internal => "Internal error",
        GrpcStatus::Unavailable => "Unavailable",
        GrpcStatus::DataLoss => "Data loss",
        GrpcStatus::Unauthenticated => "Unauthenticated",
    }
}

impl GrpcStatus {
    pub fn as_str(&self) -> (r: &'static str)
        ensures
            r == status_code(*self),
    {
        match self {
            GrpcStatus::OK => "0",
            GrpcStatus::Cancelled => "1",
            GrpcStatus::Unknown => "2",
            GrpcStatus::InvalidArgument => "3",
            GrpcStatus::DeadlineExceeded => "4",
            GrpcStatus::NotFound => "5",
            GrpcStatus::AlreadyExists => "6",
            GrpcStatus::PermissionDenied => "7",
            GrpcStatus::ResourceExhausted => "8",
            GrpcStatus::FailedPrecondition => "9",
            GrpcStatus::Aborted => "10",
            GrpcStatus::OutOfRange => "11",
            GrpcStatus::Unimplemented => "12",
            GrpcStatus::Internal => "13",
            GrpcStatus::Unavailable => "14",
            GrpcStatus::DataLoss => "15",
            GrpcStatus::Unauthenticated => "16",
        }
    }

    pub fn message(&self) -> (r: &'static str)
        ensures
            r == status_text(*self),
    {
        match self {
            GrpcStatus::OK => "OK",
            GrpcStatus::Cancelled => "Cancelled",
            GrpcStatus::Unknown => "Unknown",
            GrpcStatus::InvalidArgument => "Invalid argument",
            GrpcStatus::DeadlineExceeded => "Deadline exceeded",
            GrpcStatus::NotFound => "Not found",
            GrpcStatus::AlreadyExists => "Already exists",
            GrpcStatus::PermissionDenied => "Permission denied",
            GrpcStatus::ResourceExhausted => "Resource exhausted",
            GrpcStatus::FailedPrecondition => "Failed precondition",
            GrpcStatus::Aborted => "Aborted",
            GrpcStatus::OutOfRange => "Out of range",
            GrpcStatus::Unimplemented => "Unimplemented",
            GrpcStatus::Internal => "Internal error",
            GrpcStatus::Unavailable => "Unavailable",
            GrpcStatus::DataLoss => "Data loss",
            GrpcStatus::Unauthenticated => "Unauthenticated",
        }
    }
}

/// The trailers that close a gRPC stream.
#[derive(Debug, Clone)]
pub struct GrpcTrailer {
    pub status: GrpcStatus,
    pub message: Option<String>,
}

impl GrpcTrailer {
    pub fn ok() -> (r: GrpcTrailer)
        ensures
            r.status == GrpcStatus::OK,
            r.message is None,
    {
        GrpcTrailer { status: GrpcStatus::OK, message: None }
    }

    pub fn error(status: GrpcStatus, message: String) -> (r: GrpcTrailer)
        ensures
            r.status == status,
            r.message is Some && r.message.unwrap()@ == message@,
    {
        GrpcTrailer { status, message: Some(message) }
    }

    /// `grpc-status` with the code, then `grpc-message` when there is one.
    pub fn build(&self) -> (r: Vec<(String, String)>)
        ensures
            self.message is None ==> header_pairs(r@) == seq![("grpc-status"@, status_code(self.status)@)],
            self.message is Some ==> header_pairs(r@) == seq![
                ("grpc-status"@, status_code(self.status)@),
                ("grpc-message"@, self.message.unwrap()@),
            ],
    {
        let mut headers: Vec<(String, String)> = Vec::new();
        push_pair(&mut headers, "grpc-status", self.status.as_str());
        match &self.message {
            Some(m) => {
                let text: String = String::clone(m);
                push_pair(&mut headers, "grpc-message", text.as_str());
            },
            None => {},
        }
        assert(header_pairs(headers@) =~= match &self.message {
            Some(m) => seq![("grpc-status"@, status_code(self.status)@), ("grpc-message"@, m@)],
            None => seq![("grpc-status"@, status_code(self.status)@)],
        });
        headers
    }
}

} // verus!
