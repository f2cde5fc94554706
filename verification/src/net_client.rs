//! The decisions of the network client: where the WebSocket is opened and with
//! which header lines, how the bytes received over it are cut into frames, and
//! how its worker reacts to reads and writes.

use vstd::prelude::*;
use vstd::string::StringExecFns;
use crate::text::str_eq;
use crate::codec_laws::lemma_unmarshal_consumes;
use crate::protocol::{spec_unmarshal, unmarshal, Message, MessageView, ProtocolError, ProtocolFault};

verus! {

/// A request handed to the network worker.
pub enum NetCommand {
    /// Send these bytes as one binary WebSocket message.
    Bytes(Vec<u8>),
    /// Stop sending.
    Disconnect,
}

/// Decoding stopped because the frame is not all there yet; more bytes may complete it.
pub open spec fn is_incomplete_fault(f: ProtocolFault) -> bool {
    f == ProtocolFault::InsufficientData || f == ProtocolFault::PayloadOverflow || f
        == ProtocolFault::ReadOverflow
}

/// The messages that can be cut from the front of `buf`, and the bytes kept for
/// later: after the last whole frame, the rest is kept if it may still grow
/// into a frame and dropped if it cannot be decoded at all.
pub open spec fn spec_drain(buf: Seq<u8>) -> (Seq<MessageView>, Seq<u8>)
    decreases buf.len(),
{
    if buf.len() == 0 {
        (seq![], seq![])
    } else {
        match spec_unmarshal(buf) {
            Ok((m, n)) => {
                proof {
                    lemma_unmarshal_consumes(buf);
                }
                let (ms, rest) = spec_drain(buf.skip(n));
                (seq![m] + ms, rest)
            },
            Err(f) => if is_incomplete_fault(f) {
                (seq![], buf)
            } else {
                (seq![], seq![])
            },
        }
    }
}

/// `rest` is empty or the start of a frame whose bytes are not all there yet.
pub open spec fn awaits_more(rest: Seq<u8>) -> bool {
    rest.len() == 0 || (spec_unmarshal(rest) matches Err(f) && is_incomplete_fault(f))
}

/// Cutting `buf` into frames meets no bytes that cannot be decoded.
pub open spec fn drains_cleanly(buf: Seq<u8>) -> bool
    decreases buf.len(),
{
    if buf.len() == 0 {
        true
    } else {
        match spec_unmarshal(buf) {
            Ok((m, n)) => {
                proof {
                    lemma_unmarshal_consumes(buf);
                }
                drains_cleanly(buf.skip(n))
            },
            Err(f) => is_incomplete_fault(f),
        }
    }
}

/// The values of a sequence of messages.
pub open spec fn messages_view(ms: Seq<Message>) -> Seq<MessageView> {
    ms.map_values(|m: Message| m@)
}

/// The bytes received so far that do not yet make a whole frame.
pub struct FrameBuffer {
    pending: Vec<u8>,
}

impl View for FrameBuffer {
    type V = Seq<u8>;

    closed spec fn view(&self) -> Seq<u8> {
        self.pending@
    }
}

impl FrameBuffer {
    /// An empty buffer.
    pub fn new() -> (b: FrameBuffer)
        ensures
            b@ == Seq::<u8>::empty(),
    {
        FrameBuffer { pending: Vec::new() }
    }

    /// Appends the bytes of one received binary message and cuts every whole
    /// frame from the front of the buffer, in order.
    pub fn push(&mut self, data: &[u8]) -> (msgs: Vec<Message>)
        ensures
            messages_view(msgs@) == spec_drain(old(self)@ + data@).0,
            final(self)@ == spec_drain(old(self)@ + data@).1,
            awaits_more(final(self)@),
    {
        proof {
            crate::stream_laws::lemma_drain_keeps_incomplete(old(self)@ + data@);
        }
        self.pending.extend_from_slice(data);
        let ghost buf = self.pending@;
        assert(buf == old(self)@ + data@);
        let len = self.pending.len();
        let mut processed: usize = 0;
        let mut msgs: Vec<Message> = Vec::new();
        assert(buf.skip(0) =~= buf);
        loop
            invariant_except_break
                processed <= len,
                len == buf.len(),
                self.pending@ == buf,
                messages_view(msgs@) + spec_drain(buf.skip(processed as int)).0 == spec_drain(buf).0,
                spec_drain(buf.skip(processed as int)).1 == spec_drain(buf).1,
            ensures
                processed <= len,
                len == buf.len(),
                self.pending@ == buf,
                messages_view(msgs@) == spec_drain(buf).0,
                buf.skip(processed as int) == spec_drain(buf).1,
            decreases len - processed,
        {
            let ghost rem = buf.skip(processed as int);
            if processed == len {
                assert(rem =~= Seq::<u8>::empty());
                assert(messages_view(msgs@) + seq![] =~= messages_view(msgs@));
                break;
            }
            let remaining = vstd::slice::slice_subrange(self.pending.as_slice(), processed, len);
            assert(remaining@ =~= rem);
            match unmarshal(remaining) {
                Ok((msg, n)) => {
                    proof {
                        lemma_unmarshal_consumes(rem);
                        assert(rem.skip(n as int) =~= buf.skip(processed + n));
                        assert(messages_view(msgs@.push(msg)) =~= messages_view(msgs@) + seq![msg@]);
                    }
                    msgs.push(msg);
                    processed = processed + n;
                },
                Err(e) => {
                    match e {
                        ProtocolError::InsufficientData
                        | ProtocolError::PayloadOverflow
                        | ProtocolError::ReadOverflow => {},
                        _ => {
                            processed = len;
                            assert(buf.skip(len as int) =~= Seq::<u8>::empty());
                        },
                    }
                    assert(messages_view(msgs@) + seq![] =~= messages_view(msgs@));
                    break;
                },
            }
        }
        if processed > 0 {
            let rest = self.pending.split_off(processed);
            self.pending = rest;
        }
        assert(self.pending@ =~= buf.skip(processed as int));
        msgs
    }
}

#[verifier::external_type_specification]
#[verifier::external_body]
pub struct ExUrlParseError(url::ParseError);

/// What the client reads of a parsed URL.
pub struct UrlParts {
    pub scheme: String,
    pub host: Option<String>,
    pub port: Option<u16>,
    pub path: String,
    pub query: Option<String>,
}

/// The value of [`UrlParts`]: scheme, host, port (given or known default),
/// path, query.
pub type UrlPartsView = (Seq<char>, Option<Seq<char>>, Option<u16>, Seq<char>, Option<Seq<char>>);

impl View for UrlParts {
    type V = UrlPartsView;

    open spec fn view(&self) -> UrlPartsView {
        (
            self.scheme@,
            crate::protocol::opt_string_view(self.host),
            self.port,
            self.path@,
            crate::protocol::opt_string_view(self.query),
        )
    }
}

/// What `url::Url::parse` makes of `url`: its scheme, host, port (or the
/// scheme's known default port), path and query; `None` when it refuses it.
pub uninterp spec fn parsed_url(url: Seq<char>) -> Option<UrlPartsView>;

/// `url::Url::parse`, then the URL's `scheme`, `host_str`,
/// `port_or_known_default`, `path` and `query`. The contract names the result
/// as a function of the input text and claims nothing more of it.
#[verifier::external_body]
fn parse_url(url: &str) -> (r: Result<UrlParts, url::ParseError>)
    ensures
        match r {
            Ok(p) => parsed_url(url@) == Some(p@),
            Err(_) => parsed_url(url@) is None,
        },
{
    match url::Url::parse(url) {
        Ok(u) => Ok(
            UrlParts {
                scheme: u.scheme().to_string(),
                host: u.host_str().map(|h| h.to_string()),
                port: u.port_or_known_default(),
                path: u.path().to_string(),
                query: u.query().map(|q| q.to_string()),
            },
        ),
        Err(e) => Err(e),
    }
}

/// The request header line `name: value`.
pub open spec fn header_line_text(name: Seq<char>, value: Seq<char>) -> Seq<char> {
    name + ": "@ + value
}

/// The request header lines of `headers`, one per pair and in their order.
pub fn header_lines(headers: &Vec<(String, String)>) -> (lines: Vec<String>)
    ensures
        lines@.len() == headers@.len(),
        forall|i: int|
            0 <= i < headers@.len() ==> #[trigger] lines@[i]@ == header_line_text(
                headers@[i].0@,
                headers@[i].1@,
            ),
{
    let mut lines: Vec<String> = Vec::new();
    let mut i: usize = 0;
    while i < headers.len()
        invariant
            i <= headers@.len(),
            lines@.len() == i,
            forall|j: int|
                0 <= j < i ==> #[trigger] lines@[j]@ == header_line_text(
                    headers@[j].0@,
                    headers@[j].1@,
                ),
        decreases headers@.len() - i,
    {
        let (name, value) = &headers[i];
        let line = String::from_str(name.as_str()).concat(": ").concat(value.as_str());
        lines.push(line);
        i = i + 1;
    }
    lines
}

/// Where and how to open the WebSocket.
pub struct WsEndpoint {
    /// The host to connect to.
    pub host: String,
    /// The TCP port.
    pub port: u16,
    /// The request target: path, then `?` and the query if there is one.
    pub path: String,
    /// The `Origin` header: `https://host` for `wss`, `http://host` for `ws`.
    pub origin: String,
    /// Whether the connection runs over TLS (`wss`).
    pub tls: bool,
}

/// Why a URL does not name a WebSocket endpoint.
pub enum EndpointError {
    /// The URL does not parse.
    UrlParse(url::ParseError),
    /// The URL has no host.
    MissingHost,
    /// The URL has no port and its scheme has no known default.
    MissingPort,
    /// The scheme is neither `ws` nor `wss`.
    UnsupportedScheme(String),
}

/// The value of a [`WsEndpoint`]: host, port, request target, origin, TLS.
pub type WsEndpointView = (Seq<char>, u16, Seq<char>, Seq<char>, bool);

/// The kinds of [`EndpointError`], with the unsupported scheme.
pub enum EndpointFault {
    UrlParse,
    MissingHost,
    MissingPort,
    UnsupportedScheme(Seq<char>),
}

impl View for WsEndpoint {
    type V = WsEndpointView;

    open spec fn view(&self) -> WsEndpointView {
        (self.host@, self.port, self.path@, self.origin@, self.tls)
    }
}

impl View for EndpointError {
    type V = EndpointFault;

    open spec fn view(&self) -> EndpointFault {
        match self {
            EndpointError::UrlParse(_) => EndpointFault::UrlParse,
            EndpointError::MissingHost => EndpointFault::MissingHost,
            EndpointError::MissingPort => EndpointFault::MissingPort,
            EndpointError::UnsupportedScheme(s) => EndpointFault::UnsupportedScheme(s@),
        }
    }
}

/// The endpoint of the URL whose parts are `p`: the host and the port must be
/// there, the scheme must be `ws` or `wss`.
pub open spec fn endpoint_of_parts(p: UrlPartsView) -> Result<WsEndpointView, EndpointFault> {
    let (scheme, host, port, path, query) = p;
    if host is None {
        Err(EndpointFault::MissingHost)
    } else if port is None {
        Err(EndpointFault::MissingPort)
    } else {
        let target = match query {
            Some(q) => path + "?"@ + q,
            None => path,
        };
        if scheme == "wss"@ {
            Ok((host.unwrap(), port.unwrap(), target, "https://"@ + host.unwrap(), true))
        } else if scheme == "ws"@ {
            Ok((host.unwrap(), port.unwrap(), target, "http://"@ + host.unwrap(), false))
        } else {
            Err(EndpointFault::UnsupportedScheme(scheme))
        }
    }
}

/// An endpoint result as the specification sees it.
pub open spec fn endpoint_result_view(r: Result<WsEndpoint, EndpointError>) -> Result<
    WsEndpointView,
    EndpointFault,
> {
    match r {
        Ok(e) => Ok(e@),
        Err(e) => Err(e@),
    }
}

/// The endpoint of a parsed URL.
pub fn ws_endpoint_from_parts(parts: UrlParts) -> (r: Result<WsEndpoint, EndpointError>)
    ensures
        endpoint_result_view(r) == endpoint_of_parts(parts@),
{
    let UrlParts { scheme, host, port, path, query } = parts;
    let host = match host {
        Some(h) => h,
        None => return Err(EndpointError::MissingHost),
    };
    let port = match port {
        Some(p) => p,
        None => return Err(EndpointError::MissingPort),
    };
    let mut target = path;
    match &query {
        Some(q) => {
            target.append("?");
            target.append(q.as_str());
        },
        None => {},
    }
    proof {
        reveal_strlit("wss");
        reveal_strlit("ws");
        reveal_strlit("?");
    }
    if str_eq(scheme.as_str(), "wss") {
        let origin = String::from_str("https://").concat(host.as_str());
        Ok(WsEndpoint { host, port, path: target, origin, tls: true })
    } else if str_eq(scheme.as_str(), "ws") {
        let origin = String::from_str("http://").concat(host.as_str());
        Ok(WsEndpoint { host, port, path: target, origin, tls: false })
    } else {
        Err(EndpointError::UnsupportedScheme(scheme))
    }
}

/// The endpoint named by the URL text `url`.
pub fn resolve_ws_endpoint(url: &str) -> (r: Result<WsEndpoint, EndpointError>)
    ensures
        match parsed_url(url@) {
            None => r matches Err(e) && e@ == EndpointFault::UrlParse,
            Some(p) => endpoint_result_view(r) == endpoint_of_parts(p),
        },
{
    match parse_url(url) {
        Ok(parts) => ws_endpoint_from_parts(parts),
        Err(e) => Err(EndpointError::UrlParse(e)),
    }
}

/// What one read from the WebSocket gave.
pub enum ReadOutcome {
    /// A binary message with these bytes.
    Binary(Vec<u8>),
    /// A text message.
    Text,
    /// A pong.
    Pong,
    /// The server closed the connection.
    Closed,
    /// An I/O error, most often the read timing out.
    IoError,
    /// Any other error of the WebSocket.
    Failed,
}

/// The state of the network worker: the bytes of a frame not yet complete,
/// and whether the connection is still up.
pub struct NetWorker {
    frames: FrameBuffer,
    running: bool,
}

/// The value of a [`NetWorker`]: pending bytes and whether it runs.
pub struct NetWorkerView {
    pub pending: Seq<u8>,
    pub running: bool,
}

impl View for NetWorker {
    type V = NetWorkerView;

    closed spec fn view(&self) -> NetWorkerView {
        NetWorkerView { pending: self.frames@, running: self.running }
    }
}

impl NetWorker {
    /// A worker of a freshly opened connection.
    pub fn new() -> (w: NetWorker)
        ensures
            w@ == (NetWorkerView { pending: Seq::<u8>::empty(), running: true }),
    {
        NetWorker { frames: FrameBuffer::new(), running: true }
    }

    /// Whether the connection is still up.
    pub fn is_running(&self) -> (r: bool)
        ensures
            r == self@.running,
    {
        self.running
    }

    /// What to write for a command taken from the queue: the bytes of a send
    /// request, as one binary message, while the connection is up; nothing for
    /// a disconnect request, which ends this round of sending, and nothing at
    /// all once the connection is down.
    pub fn bytes_to_write(&self, cmd: NetCommand) -> (w: Option<Vec<u8>>)
        ensures
            match cmd {
                NetCommand::Bytes(d) => if self@.running {
                    w matches Some(b) && b@ == d@
                } else {
                    w is None
                },
                NetCommand::Disconnect => w is None,
            },
    {
        match cmd {
            NetCommand::Bytes(d) => if self.running {
                Some(d)
            } else {
                None
            },
            NetCommand::Disconnect => None,
        }
    }

    /// After sending a message: a failed write takes the connection down.
    pub fn on_write(&mut self, ok: bool)
        ensures
            final(self)@ == (NetWorkerView { running: old(self)@.running && ok, ..old(self)@ }),
            !old(self)@.running ==> !final(self)@.running,
    {
        if !ok {
            self.running = false;
        }
    }

    /// After a read: binary messages are cut into frames and their messages
    /// returned; a close or a WebSocket error takes the connection down; text,
    /// pongs and I/O errors (time-outs) change nothing.
    pub fn on_read(&mut self, outcome: ReadOutcome) -> (msgs: Vec<Message>)
        ensures
            match outcome {
                ReadOutcome::Binary(data) => {
                    &&& messages_view(msgs@) == spec_drain(old(self)@.pending + data@).0
                    &&& final(self)@ == (NetWorkerView {
                        pending: spec_drain(old(self)@.pending + data@).1,
                        ..old(self)@
                    })
                },
                ReadOutcome::Closed | ReadOutcome::Failed => {
                    &&& msgs@.len() == 0
                    &&& final(self)@ == (NetWorkerView { running: false, ..old(self)@ })
                },
                _ => {
                    &&& msgs@.len() == 0
                    &&& final(self)@ == old(self)@
                },
            },
            !old(self)@.running ==> !final(self)@.running,
    {
        match outcome {
            ReadOutcome::Binary(data) => self.frames.push(data.as_slice()),
            ReadOutcome::Closed | ReadOutcome::Failed => {
                self.running = false;
                Vec::new()
            },
            _ => Vec::new(),
        }
    }
}

/// The endpoint of a parsed URL, field by field and whatever the scheme: the
/// host and port are the URL's, the request target is the URL's path followed,
/// when there is a query, by `?` and the query; TLS is used exactly for `wss`,
/// and the origin is `https://` or `http://` accordingly, then the host. Only
/// `ws` and `wss` URLs with a host and a port give an endpoint.
pub proof fn lemma_endpoint_fields(p: UrlPartsView)
    ensures
        endpoint_of_parts(p) is Ok <==> (p.1 is Some && p.2 is Some && (p.0 == "ws"@ || p.0
            == "wss"@)),
        match endpoint_of_parts(p) {
            Err(_) => true,
            Ok(e) => {
                &&& e.0 == p.1.unwrap()
                &&& e.1 == p.2.unwrap()
                &&& e.2 == (match p.4 {
                    Some(q) => p.3 + "?"@ + q,
                    None => p.3,
                })
                &&& e.4 <==> p.0 == "wss"@
                &&& e.3 == (if e.4 { "https://"@ } else { "http://"@ }) + p.1.unwrap()
            },
        },
{
    reveal_strlit("ws");
    reveal_strlit("wss");
}

} // verus!
