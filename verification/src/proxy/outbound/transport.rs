//! Stream transports of ways out.
//!
//! A transport turns the raw connection (TCP, with or without TLS) of a way out into another byte
//! stream before the proxy protocol starts. Plain TCP leaves it as it is, a websocket carries the
//! bytes in binary messages.

use crate::config::{opt_text, TransportConfig};
use crate::proxy::addr::{TargetAddr, TargetView};
use crate::text::{chars_of, copy_text, push_text, str_eq};
use crate::wire::{copy_range, put_slice};
use tokio_tungstenite::tungstenite::client::IntoClientRequest;
use vstd::prelude::*;
use vstd::utf8::encode_utf8;

verus! {

/// What `tungstenite`'s `IntoClientRequest` has against a URL, if it has anything.
pub uninterp spec fn ws_request_error(url: Seq<char>) -> Option<Seq<char>>;

/// Calls `IntoClientRequest::into_client_request` of `tungstenite` on a URL: the message of the error
/// that comes back depends on the URL alone. The request itself carries a random key and is left out.
#[verifier::external_body]
fn request_error(url: &str) -> (e: Option<String>)
    ensures
        opt_text(e) == ws_request_error(url@),
{
    match url.into_client_request() {
        Ok(_) => None,
        Err(e) => Some(e.to_string()),
    }
}

/// What has to be done with a connection.
#[derive(Debug)]
pub enum TransportStep {
    /// It is used as it is.
    Plain,
    /// A websocket is opened over it, for this URL.
    WebSocket(String),
}

/// The host part of the URL: the configured host, or the server.
pub open spec fn authority_of(host: Option<Seq<char>>, server: TargetView) -> Seq<char> {
    match host {
        Some(h) => if h.len() > 0 {
            h
        } else {
            server.text()
        },
        None => server.text(),
    }
}

/// The path of the URL, which starts with a slash.
pub open spec fn path_of(path: Option<Seq<char>>) -> Seq<char> {
    match path {
        Some(p) => if p.len() == 0 {
            "/"@
        } else if p[0] == '/' {
            p
        } else {
            "/"@ + p
        },
        None => "/"@,
    }
}

/// The URL of a websocket.
pub open spec fn ws_url(transport: TransportConfig, server: TargetView) -> Seq<char> {
    "ws://"@ + authority_of(opt_text(transport.host), server) + path_of(opt_text(transport.path))
}

/// The host part of the URL that a websocket is opened with. A configured host takes the place of the
/// server's address.
pub fn ws_authority(transport: &TransportConfig, server: &TargetAddr) -> (authority: String)
    ensures
        authority@ == authority_of(opt_text(transport.host), server@),
{
    match &transport.host {
        Some(host) => {
            if !host.as_str().is_empty() {
                return copy_text(host.as_str());
            }
        },
        None => {},
    }
    server.to_text()
}

/// The path of the URL that a websocket is opened with.
pub fn ws_path(transport: &TransportConfig) -> (path: String)
    ensures
        path@ == path_of(opt_text(transport.path)),
{
    match &transport.path {
        None => copy_text("/"),
        Some(path) => {
            let chars = chars_of(path.as_str());
            if chars.len() == 0 {
                return copy_text("/");
            }
            if chars[0] == '/' {
                copy_text(path.as_str())
            } else {
                let mut out = copy_text("/");
                push_text(&mut out, path.as_str());
                out
            }
        },
    }
}

fn new_ws_error(message: &str) -> (e: String)
    ensures
        e@ == "invalid websocket request URL: "@ + message@,
{
    let mut e = copy_text("invalid websocket request URL: ");
    push_text(&mut e, message);
    e
}

/// What a transport asks for: nothing, a websocket, or the reason why it cannot be had.
pub open spec fn transport_step(
    transport: Option<TransportConfig>,
    server: TargetView,
) -> Result<Option<Seq<char>>, Seq<char>> {
    match transport {
        None => Ok(None),
        Some(t) => if t.protocol_type@.len() == 0 || t.protocol_type@ == "tcp"@ {
            Ok(None)
        } else if t.protocol_type@ == "ws"@ || t.protocol_type@ == "websocket"@ {
            match ws_request_error(ws_url(t, server)) {
                None => Ok(Some(ws_url(t, server))),
                Some(e) => Err("invalid websocket request URL: "@ + e),
            }
        } else {
            Err("unsupported transport type: "@ + t.protocol_type@)
        },
    }
}

/// Decides what becomes of an established connection to a server.
pub fn wrap_transport_stream(transport: &Option<TransportConfig>, server: &TargetAddr) -> (r: Result<
    TransportStep,
    String,
>)
    ensures
        match r {
            Ok(TransportStep::Plain) => transport_step(*transport, server@) == Ok::<
                Option<Seq<char>>,
                Seq<char>,
            >(None),
            Ok(TransportStep::WebSocket(url)) => transport_step(*transport, server@) == Ok::<
                Option<Seq<char>>,
                Seq<char>,
            >(Some(url@)),
            Err(e) => transport_step(*transport, server@) == Err::<Option<Seq<char>>, Seq<char>>(
                e@,
            ),
        },
{
    let t = match transport {
        None => {
            return Ok(TransportStep::Plain);
        },
        Some(t) => t,
    };
    let kind = t.protocol_type.as_str();
    if kind.is_empty() || str_eq(kind, "tcp") {
        return Ok(TransportStep::Plain);
    }
    if str_eq(kind, "ws") || str_eq(kind, "websocket") {
        let mut url = copy_text("ws://");
        push_text(&mut url, ws_authority(t, server).as_str());
        push_text(&mut url, ws_path(t).as_str());
        return match request_error(url.as_str()) {
            None => Ok(TransportStep::WebSocket(url)),
            Some(e) => Err(new_ws_error(e.as_str())),
        };
    }
    let mut e = copy_text("unsupported transport type: ");
    push_text(&mut e, kind);
    Err(e)
}

/// A message that a websocket brought.
#[derive(Debug)]
pub enum WsMessage {
    Binary(Vec<u8>),
    /// Tolerated, and taken for its bytes.
    Text(String),
    Close,
    /// A ping, a pong or a raw frame.
    Control,
}

/// What a poll for a message gave.
#[derive(Debug)]
pub enum WsEvent {
    Message(WsMessage),
    /// The connection is over.
    Ended,
}

/// What a read of the byte stream comes to.
#[derive(Debug)]
pub enum WsRead {
    /// These bytes.
    Bytes(Vec<u8>),
    /// The stream is over.
    End,
    /// The next message is needed first.
    NeedMessage,
}

/// A websocket read as a plain stream of bytes.
#[derive(Debug)]
pub struct WsByteStream {
    pub read_buf: Vec<u8>,
    pub read_eof: bool,
}

/// The bytes that a message adds to the stream.
pub open spec fn message_bytes(event: WsEvent) -> Seq<u8> {
    match event {
        WsEvent::Message(WsMessage::Binary(data)) => data@,
        WsEvent::Message(WsMessage::Text(text)) => encode_utf8(text@),
        _ => Seq::empty(),
    }
}

/// Whether the stream is over with an event.
pub open spec fn ends_stream(event: WsEvent) -> bool {
    event is Ended || event matches WsEvent::Message(WsMessage::Close)
}

impl WsByteStream {
    /// A stream that nothing has come from yet.
    pub fn new() -> (s: WsByteStream)
        ensures
            s.read_buf@ == Seq::<u8>::empty(),
            !s.read_eof,
    {
        WsByteStream { read_buf: Vec::new(), read_eof: false }
    }

    /// A read into a buffer with `room` bytes left: what waits is served first.
    pub fn poll_read(&mut self, room: usize) -> (r: WsRead)
        ensures
            final(self).read_eof == old(self).read_eof,
            match r {
                WsRead::Bytes(bytes) => {
                    &&& old(self).read_buf@.len() > 0
                    &&& bytes@.len() == if old(self).read_buf@.len() < room {
                        old(self).read_buf@.len() as int
                    } else {
                        room as int
                    }
                    &&& bytes@ + final(self).read_buf@ == old(self).read_buf@
                },
                WsRead::End => {
                    &&& old(self).read_buf@.len() == 0
                    &&& old(self).read_eof
                    &&& final(self).read_buf@ == old(self).read_buf@
                },
                WsRead::NeedMessage => {
                    &&& old(self).read_buf@.len() == 0
                    &&& !old(self).read_eof
                    &&& final(self).read_buf@ == old(self).read_buf@
                },
            },
    {
        let len: usize = self.read_buf.len();
        if len > 0 {
            let n: usize = if len < room {
                len
            } else {
                room
            };
            let bytes = copy_range(self.read_buf.as_slice(), 0, n);
            let rest = copy_range(self.read_buf.as_slice(), n, len);
            assert(bytes@ + rest@ =~= self.read_buf@);
            self.read_buf = rest;
            return WsRead::Bytes(bytes);
        }
        if self.read_eof {
            WsRead::End
        } else {
            WsRead::NeedMessage
        }
    }

    /// Takes in what a poll for a message gave.
    pub fn receive(&mut self, event: &WsEvent)
        ensures
            final(self).read_buf@ == old(self).read_buf@ + message_bytes(*event),
            final(self).read_eof == (old(self).read_eof || ends_stream(*event)),
    {
        match event {
            WsEvent::Ended => {
                self.read_eof = true;
            },
            WsEvent::Message(message) => match message {
                WsMessage::Binary(data) => {
                    put_slice(&mut self.read_buf, data.as_slice());
                },
                WsMessage::Text(text) => {
                    put_slice(&mut self.read_buf, text.as_str().as_bytes());
                },
                WsMessage::Close => {
                    self.read_eof = true;
                },
                WsMessage::Control => {},
            },
        }
        assert(self.read_buf@ =~= old(self).read_buf@ + message_bytes(*event));
    }
}

/// What a flush of the websocket came to.
#[derive(Debug)]
pub enum WsFlush {
    Done,
    /// The socket takes no more for now.
    Blocked,
    /// The connection was already closed.
    Closed,
    Failed(String),
}

/// What a write of bytes comes to.
#[derive(Debug)]
pub enum WsWrite {
    Wrote(usize),
    /// There is nobody to write to any more.
    BrokenPipe(String),
    Failed(String),
}

/// What a flush or a shutdown of the byte stream comes to.
#[derive(Debug)]
pub enum WsDone {
    Done,
    Pending,
    Failed(String),
}

/// The outcome of a write: the message was accepted before the flush, so that a blocked socket takes
/// nothing away from it.
pub fn write_outcome(len: usize, flush: WsFlush) -> (w: WsWrite)
    ensures
        match w {
            WsWrite::Wrote(n) => n == len && (flush is Done || flush is Blocked),
            WsWrite::BrokenPipe(text) => flush is Closed && text@ == "websocket connection closed"@,
            WsWrite::Failed(e) => flush == WsFlush::Failed(e),
        },
{
    match flush {
        WsFlush::Done => WsWrite::Wrote(len),
        WsFlush::Blocked => WsWrite::Wrote(len),
        WsFlush::Closed => WsWrite::BrokenPipe(copy_text("websocket connection closed")),
        WsFlush::Failed(e) => WsWrite::Failed(e),
    }
}

/// The outcome of a flush or a shutdown: a connection that is already closed needs neither.
pub fn flush_outcome(flush: WsFlush) -> (d: WsDone)
    ensures
        match d {
            WsDone::Done => flush is Done || flush is Closed,
            WsDone::Pending => flush is Blocked,
            WsDone::Failed(e) => flush == WsFlush::Failed(e),
        },
{
    match flush {
        WsFlush::Done => WsDone::Done,
        WsFlush::Closed => WsDone::Done,
        WsFlush::Blocked => WsDone::Pending,
        WsFlush::Failed(e) => WsDone::Failed(e),
    }
}

/// Something that happens to a byte stream: a message comes in, or a number of bytes are read.
pub enum WsAct {
    Receive(WsEvent),
    Read(nat),
}

/// What waits to be read after a run of happenings.
pub open spec fn waiting(from: Seq<u8>, acts: Seq<WsAct>) -> Seq<u8>
    decreases acts.len(),
{
    if acts.len() == 0 {
        from
    } else {
        let before = waiting(from, acts.drop_last());
        match acts.last() {
            WsAct::Receive(event) => before + message_bytes(event),
            WsAct::Read(n) => before.skip(n as int),
        }
    }
}

/// Each read takes no more than waits.
pub open spec fn reads_fit(from: Seq<u8>, acts: Seq<WsAct>) -> bool
    decreases acts.len(),
{
    acts.len() > 0 ==> {
        &&& reads_fit(from, acts.drop_last())
        &&& acts.last() matches WsAct::Read(n) ==> n <= waiting(from, acts.drop_last()).len()
    }
}

/// All bytes that were read in a run.
pub open spec fn bytes_read(from: Seq<u8>, acts: Seq<WsAct>) -> Seq<u8>
    decreases acts.len(),
{
    if acts.len() == 0 {
        Seq::empty()
    } else {
        let before = waiting(from, acts.drop_last());
        bytes_read(from, acts.drop_last()) + match acts.last() {
            WsAct::Read(n) => before.take(n as int),
            WsAct::Receive(_) => Seq::empty(),
        }
    }
}

/// All bytes that came in a run.
pub open spec fn bytes_received(acts: Seq<WsAct>) -> Seq<u8>
    decreases acts.len(),
{
    if acts.len() == 0 {
        Seq::empty()
    } else {
        bytes_received(acts.drop_last()) + match acts.last() {
            WsAct::Read(_) => Seq::empty(),
            WsAct::Receive(event) => message_bytes(event),
        }
    }
}

/// However messages and reads take turns, what is read is what the messages carried, in order: nothing
/// is lost, added or moved, and what was not read yet is still there.
pub proof fn law_messages_become_a_stream(from: Seq<u8>, acts: Seq<WsAct>)
    requires
        reads_fit(from, acts),
    ensures
        bytes_read(from, acts) + waiting(from, acts) == from + bytes_received(acts),
    decreases acts.len(),
{
    if acts.len() > 0 {
        let rest = acts.drop_last();
        let before = waiting(from, rest);
        law_messages_become_a_stream(from, rest);
        match acts.last() {
            WsAct::Receive(event) => {
                let more = message_bytes(event);
                assert(bytes_read(from, acts) + waiting(from, acts) =~= (bytes_read(from, rest)
                    + before) + more);
                assert(from + bytes_received(acts) =~= (from + bytes_received(rest)) + more);
            },
            WsAct::Read(n) => {
                assert(before =~= before.take(n as int) + before.skip(n as int));
                assert(bytes_read(from, acts) + waiting(from, acts) =~= bytes_read(from, rest)
                    + before);
                assert(from + bytes_received(acts) =~= from + bytes_received(rest));
            },
        }
    } else {
        assert(bytes_read(from, acts) + waiting(from, acts) =~= from + bytes_received(acts));
    }
}

/// The path of a WebSocket request begins with a slash: one is put before a path without it, and an empty
/// or missing path is the root.
pub proof fn law_paths(p: Seq<char>)
    ensures
        path_of(None) == seq!['/'],
        path_of(Some(Seq::empty())) == seq!['/'],
        path_of(Some(seq!['/'] + p)) == seq!['/'] + p,
        p.len() > 0 && p[0] != '/' ==> path_of(Some(p)) == seq!['/'] + p,
        path_of(Some(path_of(Some(p)))) == path_of(Some(p)),
{
    reveal_strlit("/");
    assert("/"@ =~= seq!['/']);
}

/// The host of a WebSocket request is the configured one, or else the server that is connected to.
pub proof fn law_hosts(h: Seq<char>, server: TargetView)
    ensures
        h.len() > 0 ==> authority_of(Some(h), server) == h,
        authority_of(Some(Seq::empty()), server) == server.text(),
        authority_of(None, server) == server.text(),
{
}

/// A connection runs over plain TCP unless a WebSocket is configured; a transport of another name is
/// refused.
pub proof fn law_transports_by_name(t: TransportConfig, server: TargetView)
    ensures
        transport_step(None, server) == Ok::<Option<Seq<char>>, Seq<char>>(None),
        t.protocol_type@ == ""@ || t.protocol_type@ == "tcp"@ ==> transport_step(Some(t), server) == Ok::<
            Option<Seq<char>>,
            Seq<char>,
        >(None),
        t.protocol_type@ == "ws"@ || t.protocol_type@ == "websocket"@ ==> (transport_step(Some(t), server)
            matches Ok(r) ==> r == Some(
            "ws://"@ + authority_of(opt_text(t.host), server) + path_of(opt_text(t.path)),
        )),
        (t.protocol_type@ == "ws"@ || t.protocol_type@ == "websocket"@) && ws_request_error(
            ws_url(t, server),
        ) is None ==> transport_step(Some(t), server) is Ok,
        t.protocol_type@ != ""@ && t.protocol_type@ != "tcp"@ && t.protocol_type@ != "ws"@
            && t.protocol_type@ != "websocket"@ ==> transport_step(Some(t), server) == Err::<
            Option<Seq<char>>,
            Seq<char>,
        >("unsupported transport type: "@ + t.protocol_type@),
{
    reveal_strlit("");
    reveal_strlit("tcp");
    reveal_strlit("ws");
    reveal_strlit("websocket");
    assert("tcp"@.len() == 3 && "ws"@.len() == 2 && "websocket"@.len() == 9);
    if t.protocol_type@.len() == 0 {
        assert(t.protocol_type@ =~= ""@);
    }
}

/// What the messages bring: binary messages their bytes, text messages their text, the others nothing; a
/// close message and the end of the messages end the stream, and nothing else does.
pub proof fn law_what_messages_bring(data: Vec<u8>, text: String, event: WsEvent)
    ensures
        message_bytes(WsEvent::Message(WsMessage::Binary(data))) == data@,
        message_bytes(WsEvent::Message(WsMessage::Text(text))) == encode_utf8(text@),
        ends_stream(event) ==> message_bytes(event).len() == 0,
        ends_stream(WsEvent::Message(WsMessage::Close)),
        ends_stream(WsEvent::Ended),
        !ends_stream(WsEvent::Message(WsMessage::Binary(data))),
        !ends_stream(WsEvent::Message(WsMessage::Text(text))),
{
}

} // verus!
