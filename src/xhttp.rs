//! XHTTP: VLESS carried over HTTP/2 requests. This module holds the
//! configuration, the routing decision for each request, the session table
//! that pairs a download GET with the upload POSTs of the same path, and
//! the gRPC framing of standalone streams.
use vstd::prelude::*;
use vstd::utf8::encode_utf8;
use crate::text::{all_ascii, ascii_chars, ascii_string, string_bytes};
use crate::wire::{be32, contains_bytes, contains_seq, copy_range, read_u32};

verus! {

#[derive(Debug, Clone, Copy, PartialEq, Eq, Structural)]
pub enum XhttpMode {
    StreamUp,
    StreamDown,
    StreamOne,
}

pub open spec fn mode_name(m: XhttpMode) -> &'static str {
    match m {
        XhttpMode::StreamUp => "stream-up",
        XhttpMode::StreamDown => "stream-down",
        XhttpMode::StreamOne => "stream-one",
    }
}

impl XhttpMode {
    pub fn as_str(&self) -> (r: &'static str)
        ensures
            r == mode_name(*self),
    {
        match self {
            XhttpMode::StreamUp => "stream-up",
            XhttpMode::StreamDown => "stream-down",
            XhttpMode::StreamOne => "stream-one",
        }
    }
}

#[derive(Debug, Clone)]
pub struct XhttpConfig {
    pub mode: XhttpMode,
    /// Path prefix of the XHTTP endpoints.
    pub path: String,
    pub host: String,
}

/// Why an XHTTP configuration was refused.
#[derive(Debug, Clone, Copy, PartialEq, Eq, Structural)]
pub enum XhttpError {
    EmptyPath,
}

/// Per-connection HTTP/2 request handling for one XHTTP configuration.
#[derive(Debug, Clone)]
pub struct H2Handler {
    config: XhttpConfig,
}

/// The least and one past the most padding characters of a response.
pub const PADDING_MIN: usize = 64;
pub const PADDING_MAX: usize = 512;

/// Relies on rand's `Rng::gen_range` on the thread generator: the value lies
/// in the half-open range, which must not be empty.
#[verifier::external_body]
fn random_in(lo: usize, hi: usize) -> (r: usize)
    requires
        lo < hi,
    ensures
        lo <= r < hi,
{
    rand::Rng::gen_range(&mut rand::thread_rng(), lo..hi)
}

/// An ASCII letter or digit.
pub open spec fn alphanumeric(c: u8) -> bool {
    (48 <= c <= 57) || (65 <= c <= 90) || (97 <= c <= 122)
}

/// An ASCII letter or digit character.
pub open spec fn alphanumeric_char(c: char) -> bool {
    (48 <= c as u32 <= 57) || (65 <= c as u32 <= 90) || (97 <= c as u32 <= 122)
}

/// Relies on rand's `Alphanumeric` distribution: one of `A-Z`, `a-z`, `0-9`.
#[verifier::external_body]
fn random_alphanumeric() -> (r: u8)
    ensures
        alphanumeric(r),
{
    rand::Rng::sample(&mut rand::thread_rng(), rand::distributions::Alphanumeric)
}

/// Whether a request path belongs to the configured endpoint: the path
/// itself, or the path followed by `/` and a session token.
pub open spec fn path_accepted(cfg: Seq<u8>, path: Seq<u8>) -> bool {
    path == cfg || (path.len() > cfg.len() && path.subrange(0, cfg.len() as int) == cfg && (path[cfg.len() as int]
        == 47 || (cfg.len() > 0 && cfg[cfg.len() - 1] == 47)))
}

/// What to do with one HTTP/2 request.
#[derive(Debug, Clone, Copy, PartialEq, Eq, Structural)]
pub enum XhttpRoute {
    /// 404: the path is not an XHTTP endpoint.
    NotFound,
    /// 405: neither GET nor POST.
    MethodNotAllowed,
    /// Open a session: the response body carries the download direction.
    Download,
    /// Feed the request body into the session of the same path.
    Upload,
    /// No session: handle the POST as a duplex stream of its own.
    Standalone { grpc: bool },
}

pub open spec fn grpc_marker() -> Seq<u8> {
    seq![103u8, 114, 112, 99]
}

/// The route of a request, given whether a session is registered for its path.
pub open spec fn route_of(cfg: Seq<u8>, path: Seq<u8>, method: Seq<u8>, session_found: bool, content_type: Seq<u8>) -> XhttpRoute {
    if !path_accepted(cfg, path) {
        XhttpRoute::NotFound
    } else if method == seq![71u8, 69, 84] {
        XhttpRoute::Download
    } else if method == seq![80u8, 79, 83, 84] {
        if session_found {
            XhttpRoute::Upload
        } else {
            XhttpRoute::Standalone { grpc: contains_seq(content_type, grpc_marker()) }
        }
    } else {
        XhttpRoute::MethodNotAllowed
    }
}

/// How many times a POST looks for its session, 50 ms apart, before it is
/// handled on its own.
pub const POST_WAIT_POLLS: u32 = 10;

/// Whether a POST that has looked `polls` times should wait and look again:
/// while its session is missing, up to `POST_WAIT_POLLS` looks.
pub open spec fn keep_waiting(polls: u32, found: bool) -> bool {
    !found && polls < POST_WAIT_POLLS
}

/// The payloads of the complete gRPC messages at the start of `s`, joined,
/// and the bytes after them.
pub open spec fn grpc_split(s: Seq<u8>) -> (Seq<u8>, Seq<u8>)
    decreases s.len(),
{
    if s.len() < 5 || s.len() - 5 < be32(s, 1) {
        (Seq::empty(), s)
    } else {
        let rest = grpc_split(s.subrange(5 + be32(s, 1), s.len() as int));
        (s.subrange(5, 5 + be32(s, 1)) + rest.0, rest.1)
    }
}

/// Messages framed one after another.
pub open spec fn grpc_frames(compressed: bool, payloads: Seq<Seq<u8>>) -> Seq<u8>
    decreases payloads.len(),
{
    if payloads.len() == 0 {
        Seq::empty()
    } else {
        crate::grpc::grpc_frame(compressed, payloads[0]) + grpc_frames(compressed, payloads.drop_first())
    }
}

/// The payloads joined in order.
pub open spec fn joined_payloads(payloads: Seq<Seq<u8>>) -> Seq<u8>
    decreases payloads.len(),
{
    if payloads.len() == 0 {
        Seq::empty()
    } else {
        payloads[0] + joined_payloads(payloads.drop_first())
    }
}

proof fn lemma_u32_bytes_read(s: Seq<u8>, v: u32)
    requires
        s.len() >= 5,
        s.subrange(1, 5) == crate::wire::u32_bytes(v),
    ensures
        be32(s, 1) == v as int,
{
    assert(s[1] == crate::wire::u32_bytes(v)[0]);
    assert(s[2] == crate::wire::u32_bytes(v)[1]);
    assert(s[3] == crate::wire::u32_bytes(v)[2]);
    assert(s[4] == crate::wire::u32_bytes(v)[3]);
    let a = v / 16777216;
    let b = (v / 65536) % 256;
    let c = (v / 256) % 256;
    let d = v % 256;
    assert(((a * 256 + b) * 256 + c) * 256 + d == v) by (nonlinear_arith)
        requires a == v / 16777216, b == (v / 65536) % 256, c == (v / 256) % 256, d == v % 256;
}

/// Unwrapping any number of framed messages gives back their payloads,
/// joined, and leaves nothing behind.
pub proof fn grpc_unwrap_frames(compressed: bool, payloads: Seq<Seq<u8>>)
    requires
        forall|i: int| 0 <= i < payloads.len() ==> #[trigger] payloads[i].len() <= u32::MAX,
    ensures
        grpc_split(grpc_frames(compressed, payloads)) == (joined_payloads(payloads), Seq::<u8>::empty()),
    decreases payloads.len(),
{
    if payloads.len() > 0 {
        let p = payloads[0];
        let rest = payloads.drop_first();
        assert forall|i: int| 0 <= i < rest.len() implies #[trigger] rest[i].len() <= u32::MAX by {
            assert(rest[i] == payloads[i + 1]);
        }
        grpc_unwrap_frames(compressed, rest);
        let f = crate::grpc::grpc_frame(compressed, p);
        let s = f + grpc_frames(compressed, rest);
        assert(s.subrange(1, 5) =~= crate::wire::u32_bytes(p.len() as u32));
        lemma_u32_bytes_read(s, p.len() as u32);
        assert(s.subrange(5, 5 + be32(s, 1)) =~= p);
        assert(s.subrange(5 + be32(s, 1), s.len() as int) =~= grpc_frames(compressed, rest));
    } else {
        assert(grpc_frames(compressed, payloads).len() == 0);
    }
}

/// Takes the complete gRPC messages off the front of `buf` and returns
/// their payloads joined; an incomplete message stays in `buf`.
pub fn take_grpc_payloads(buf: &mut Vec<u8>) -> (r: Vec<u8>)
    ensures
        r@ == grpc_split(old(buf)@).0,
        final(buf)@ == grpc_split(old(buf)@).1,
{
    let ghost whole = buf@;
    let len = buf.len();
    let mut out: Vec<u8> = Vec::new();
    let mut p: usize = 0;
    assert(whole.subrange(0, len as int) =~= whole);
    loop
        invariant
            p <= len,
            len == whole.len(),
            buf@ == whole,
            grpc_split(whole).0 == out@ + grpc_split(whole.subrange(p as int, len as int)).0,
            grpc_split(whole).1 == grpc_split(whole.subrange(p as int, len as int)).1,
        ensures
            p <= len,
            len == whole.len(),
            buf@ == whole,
            grpc_split(whole).0 == out@,
            grpc_split(whole).1 == whole.subrange(p as int, len as int),
        decreases len - p,
    {
        let ghost s = whole.subrange(p as int, len as int);
        if len - p < 5 {
            assert(grpc_split(s) == (Seq::<u8>::empty(), s));
            assert(out@ + Seq::<u8>::empty() =~= out@);
            break;
        }
        let n = read_u32(buf.as_slice(), p + 1) as usize;
        assert(n == be32(s, 1));
        if len - p - 5 < n {
            assert(grpc_split(s) == (Seq::<u8>::empty(), s));
            assert(out@ + Seq::<u8>::empty() =~= out@);
            break;
        }
        let chunk = copy_range(buf.as_slice(), p + 5, p + 5 + n);
        assert(chunk@ =~= s.subrange(5, 5 + be32(s, 1)));
        assert(s.subrange(5 + be32(s, 1), s.len() as int) =~= whole.subrange(p + 5 + n, len as int));
        let ghost before = out@;
        crate::wire::push_all(&mut out, chunk.as_slice());
        assert(before + (chunk@ + grpc_split(whole.subrange(p + 5 + n, len as int)).0) =~= out@ + grpc_split(
            whole.subrange(p + 5 + n, len as int),
        ).0);
        p = p + 5 + n;
    }
    let rest = buf.split_off(p);
    *buf = rest;
    assert(out@ + Seq::<u8>::empty() =~= out@);
    assert(buf@ == whole.subrange(p as int, len as int));
    out
}

impl H2Handler {
    pub fn new(config: XhttpConfig) -> (r: H2Handler)
        ensures
            r.config() == config,
    {
        H2Handler { config }
    }

    pub closed spec fn config(&self) -> XhttpConfig {
        self.config
    }

    /// A random `x-padding` value: 64 to 511 ASCII letters and digits.
    pub fn gen_padding() -> (r: String)
        ensures
            PADDING_MIN <= r@.len() < PADDING_MAX,
            forall|i: int| 0 <= i < r@.len() ==> alphanumeric_char(#[trigger] r@[i]),
            encode_utf8(r@).len() == r@.len(),
    {
        let len = random_in(PADDING_MIN, PADDING_MAX);
        let mut bytes: Vec<u8> = Vec::new();
        let mut i: usize = 0;
        while i < len
            invariant
                i <= len,
                bytes@.len() == i,
                forall|k: int| 0 <= k < i ==> alphanumeric(#[trigger] bytes@[k]),
            decreases len - i,
        {
            bytes.push(random_alphanumeric());
            i = i + 1;
        }
        assert(all_ascii(bytes@));
        let ghost b = bytes@;
        let s = ascii_string(bytes);
        assert forall|k: int| 0 <= k < s@.len() implies alphanumeric_char(#[trigger] s@[k]) by {
            assert(s@[k] == ascii_chars(b)[k]);
            assert(alphanumeric(b[k]));
            assert((b[k] as char) as u32 == b[k] as u32);
        }
        proof {
            crate::text::lemma_ascii_encoding(b);
        }
        s
    }

    /// Routes a request (see `route_of`).
    pub fn route(&self, path: &str, method: &str, session_found: bool, content_type: &str) -> (r: XhttpRoute)
        ensures
            r == route_of(
                encode_utf8(self.config().path@),
                encode_utf8(path@),
                encode_utf8(method@),
                session_found,
                encode_utf8(content_type@),
            ),
    {
        let cfg = string_bytes(&self.config.path);
        let p: &[u8] = path.as_bytes();
        if !Self::path_ok(cfg.as_slice(), p) {
            return XhttpRoute::NotFound;
        }
        let m: &[u8] = method.as_bytes();
        let get: [u8; 3] = [71, 69, 84];
        let post: [u8; 4] = [80, 79, 83, 84];
        assert(get@ =~= seq![71u8, 69, 84]);
        assert(post@ =~= seq![80u8, 79, 83, 84]);
        if Self::same(m, get.as_slice()) {
            XhttpRoute::Download
        } else if Self::same(m, post.as_slice()) {
            if session_found {
                XhttpRoute::Upload
            } else {
                let grpc: [u8; 4] = [103, 114, 112, 99];
                assert(grpc@ =~= grpc_marker());
                let is_grpc = contains_bytes(content_type.as_bytes(), grpc.as_slice());
                XhttpRoute::Standalone { grpc: is_grpc }
            }
        } else {
            XhttpRoute::MethodNotAllowed
        }
    }

    /// Whether a POST should wait for its session once more (see `keep_waiting`).
    pub fn keep_waiting(polls: u32, found: bool) -> (r: bool)
        ensures
            r == keep_waiting(polls, found),
    {
        !found && polls < POST_WAIT_POLLS
    }

    fn same(a: &[u8], b: &[u8]) -> (r: bool)
        ensures
            r == (a@ == b@),
    {
        if a.len() != b.len() {
            return false;
        }
        let r = crate::wire::range_eq(a, 0, b, 0, a.len());
        assert(a@.subrange(0, a@.len() as int) =~= a@);
        assert(b@.subrange(0, b@.len() as int) =~= b@);
        r
    }

    fn path_ok(cfg: &[u8], path: &[u8]) -> (r: bool)
        ensures
            r == path_accepted(cfg@, path@),
    {
        if Self::same(cfg, path) {
            return true;
        }
        let n = cfg.len();
        if path.len() <= n {
            return false;
        }
        if !crate::wire::range_eq(path, 0, cfg, 0, n) {
            assert(cfg@.subrange(0, n as int) =~= cfg@);
            return false;
        }
        assert(cfg@.subrange(0, n as int) =~= cfg@);
        path[n] == 47 || (n > 0 && cfg[n - 1] == 47)
    }
}

/// An XHTTP endpoint.
#[derive(Debug, Clone)]
pub struct XhttpServer {
    config: XhttpConfig,
    h2_handler: H2Handler,
}

impl XhttpServer {
    /// Accepts a configuration whose path is not empty.
    pub fn new(config: XhttpConfig) -> (r: Result<XhttpServer, XhttpError>)
        ensures
            config.path@.len() == 0 ==> r == Err::<XhttpServer, XhttpError>(XhttpError::EmptyPath),
            config.path@.len() > 0 ==> r is Ok && r.unwrap().config() == config && r.unwrap().handler_config() == config,
    {
        if config.path.as_str().is_empty() {
            return Err(XhttpError::EmptyPath);
        }
        let h2_handler = H2Handler::new(config.clone_config());
        Ok(XhttpServer { config, h2_handler })
    }

    pub closed spec fn config(&self) -> XhttpConfig {
        self.config
    }

    pub fn mode(&self) -> (r: &XhttpMode)
        ensures
            *r == self.config().mode,
    {
        &self.config.mode
    }

    pub fn path(&self) -> (r: &str)
        ensures
            r@ == self.config().path@,
    {
        self.config.path.as_str()
    }

    pub fn host(&self) -> (r: &str)
        ensures
            r@ == self.config().host@,
    {
        self.config.host.as_str()
    }

    /// The request handler of this endpoint.
    pub fn handler(&self) -> (r: &H2Handler)
        ensures
            r.config() == self.handler_config(),
    {
        &self.h2_handler
    }

    pub closed spec fn handler_config(&self) -> XhttpConfig {
        self.h2_handler.config()
    }
}

impl XhttpConfig {
    /// A copy of the configuration.
    pub fn clone_config(&self) -> (r: XhttpConfig)
        ensures
            r == *self,
    {
        XhttpConfig { mode: self.mode, path: self.path.clone(), host: self.host.clone() }
    }
}

/// The sessions a list of (path, session) entries stands for: a later
/// entry for a path replaces an earlier one.
pub open spec fn entries_map<T>(s: Seq<(String, T)>) -> Map<Seq<char>, T>
    decreases s.len(),
{
    if s.len() == 0 {
        Map::empty()
    } else {
        entries_map(s.drop_last()).insert(s.last().0@, s.last().1)
    }
}

/// Entries after `i` do not mention path `k`, so the map has the same
/// entry for `k` as the entries before `i`.
proof fn lemma_tail_without_key<T>(s: Seq<(String, T)>, i: int, k: Seq<char>)
    requires
        0 <= i <= s.len(),
        forall|j: int| i <= j < s.len() ==> (#[trigger] s[j]).0@ != k,
    ensures
        entries_map(s).contains_key(k) == entries_map(s.subrange(0, i)).contains_key(k),
        entries_map(s).contains_key(k) ==> entries_map(s)[k] == entries_map(s.subrange(0, i))[k],
    decreases s.len() - i,
{
    if i == s.len() {
        assert(s.subrange(0, i) =~= s);
    } else {
        let t = s.drop_last();
        assert(s.last() == s[s.len() - 1]);
        assert forall|j: int| i <= j < t.len() implies (#[trigger] t[j]).0@ != k by {
            assert(t[j] == s[j]);
        }
        lemma_tail_without_key(t, i, k);
        assert(t.subrange(0, i) =~= s.subrange(0, i));
    }
}

fn same_text(a: &str, b: &str) -> (r: bool)
    ensures
        r == (a@ == b@),
{
    let x: &[u8] = a.as_bytes();
    let y: &[u8] = b.as_bytes();
    proof {
        vstd::utf8::encode_utf8_decode_utf8(a@);
        vstd::utf8::encode_utf8_decode_utf8(b@);
    }
    if x.len() != y.len() {
        return false;
    }
    let r = crate::wire::range_eq(x, 0, y, 0, x.len());
    assert(x@.subrange(0, x@.len() as int) =~= x@);
    assert(y@.subrange(0, y@.len() as int) =~= y@);
    r
}

/// The XHTTP sessions of a process, by request path: the download GET
/// registers its session, the upload POSTs of the same path find it, and
/// the GET removes it when it ends.
pub struct SessionTable<T> {
    entries: Vec<(String, T)>,
}

impl<T> SessionTable<T> {
    pub closed spec fn sessions(&self) -> Map<Seq<char>, T> {
        entries_map(self.entries@)
    }

    pub fn new() -> (r: SessionTable<T>)
        ensures
            r.sessions() == Map::<Seq<char>, T>::empty(),
    {
        SessionTable { entries: Vec::new() }
    }

    /// Registers (or replaces) the session of `path`.
    pub fn insert(&mut self, path: String, session: T)
        ensures
            final(self).sessions() == old(self).sessions().insert(path@, session),
    {
        let ghost k = path@;
        self.entries.push((path, session));
        assert(self.entries@.drop_last() =~= old(self).entries@);
    }

    fn find(&self, path: &str) -> (r: Option<usize>)
        ensures
            r is Some == self.sessions().contains_key(path@),
            r is Some ==> r.unwrap() < self.entries@.len() && self.entries@[r.unwrap() as int].1 == self.sessions()[path@],
    {
        let mut i: usize = self.entries.len();
        while i > 0
            invariant
                i <= self.entries@.len(),
                forall|j: int| i <= j < self.entries@.len() ==> (#[trigger] self.entries@[j]).0@ != path@,
            decreases i,
        {
            let e: &(String, T) = &self.entries[i - 1];
            if same_text(e.0.as_str(), path) {
                proof {
                    let s = self.entries@;
                    let p = s.subrange(0, i as int);
                    lemma_tail_without_key(s, i as int, path@);
                    assert(p.drop_last() =~= s.subrange(0, i - 1));
                    assert(p.last() == s[i - 1]);
                }
                return Some(i - 1);
            }
            i = i - 1;
        }
        proof {
            lemma_tail_without_key(self.entries@, 0, path@);
            assert(self.entries@.subrange(0, 0) =~= Seq::<(String, T)>::empty());
        }
        None
    }

    pub fn contains(&self, path: &str) -> (r: bool)
        ensures
            r == self.sessions().contains_key(path@),
    {
        self.find(path).is_some()
    }

    pub fn get(&self, path: &str) -> (r: Option<&T>)
        ensures
            r is Some == self.sessions().contains_key(path@),
            r is Some ==> *r.unwrap() == self.sessions()[path@],
    {
        match self.find(path) {
            Some(i) => Some(&self.entries[i].1),
            None => None,
        }
    }

    /// Removes the session of `path`; tells whether there was one.
    pub fn remove(&mut self, path: &str) -> (r: bool)
        ensures
            r == old(self).sessions().contains_key(path@),
            final(self).sessions() == old(self).sessions().remove(path@),
    {
        let found = self.contains(path);
        let mut rest: Vec<(String, T)> = Vec::new();
        std::mem::swap(&mut rest, &mut self.entries);
        let ghost orig = rest@;
        let ghost k = path@;
        let mut i: usize = 0;
        let total = rest.len();
        assert(entries_map(self.entries@) =~= entries_map(orig.subrange(0, 0)).remove(k));
        while rest.len() > 0
            invariant
                k == path@,
                total == orig.len(),
                i <= orig.len(),
                rest@ == orig.subrange(i as int, orig.len() as int),
                entries_map(self.entries@) == entries_map(orig.subrange(0, i as int)).remove(k),
            decreases rest@.len(),
        {
            let e = rest.remove(0);
            assert(e == orig[i as int]);
            assert(orig.subrange(0, i + 1).drop_last() =~= orig.subrange(0, i as int));
            assert(orig.subrange(0, i + 1).last() == e);
            assert(rest@ =~= orig.subrange(i + 1, orig.len() as int));
            let ghost ek = e.0@;
            let ghost ev = e.1;
            let ghost prev = entries_map(orig.subrange(0, i as int));
            assert(entries_map(orig.subrange(0, i + 1)) == prev.insert(ek, ev));
            if !same_text(e.0.as_str(), path) {
                let ghost before = self.entries@;
                self.entries.push(e);
                assert(self.entries@.drop_last() =~= before);
                assert(self.entries@.last() == (e.0, ev));
                assert(entries_map(self.entries@) == entries_map(before).insert(ek, ev));
                assert(entries_map(self.entries@) =~= prev.insert(ek, ev).remove(k));
            } else {
                assert(prev.insert(ek, ev).remove(k) =~= prev.remove(k));
            }
            i = i + 1;
        }
        assert(orig.subrange(0, i as int) =~= orig);
        found
    }
}

} // verus!
