//! One proxied TCP connection on a QUIC stream: the request goes out with the first payload, the
//! server's response is taken off the front of what comes back.

use crate::proxy::addr::{TargetAddr, TargetView};
use crate::proxy::outbound::hysteria2::varint::{
    append_varint, law_varint_round_trip, parse_varint, varint_bytes, varint_parse, varint_size,
    VarintError, MAX_VARINT,
};
use crate::text::{lossy_utf8, utf8_text_lossy};
use crate::wire::{be8, copy_range, put_slice};
use vstd::prelude::*;
use vstd::utf8::encode_utf8;

verus! {

/// The frame type of a TCP request.
pub const TCP_REQUEST_TYPE: u64 = 0x401;

/// Bound on the message in a TCP response.
pub const MAX_TCP_RESPONSE_MESSAGE: u64 = 2048;

/// Bound on the padding in a TCP response.
pub const MAX_TCP_RESPONSE_PADDING: u64 = 4096;

/// The bytes of a TCP request: its type, the address as text, no padding.
pub open spec fn tcp_request(target: TargetView) -> Seq<u8> {
    varint_bytes(TCP_REQUEST_TYPE) + varint_bytes(encode_utf8(target.text()).len() as u64)
        + encode_utf8(target.text()) + varint_bytes(0)
}

/// Builds a TCP request.
pub fn encode_tcp_request(target: &TargetAddr) -> (out: Vec<u8>)
    ensures
        out@ == tcp_request(target@),
{
    let text = target.to_text();
    let addr = text.as_str().as_bytes();
    let mut out: Vec<u8> = Vec::new();
    append_varint(&mut out, TCP_REQUEST_TYPE);
    append_varint(&mut out, addr.len() as u64);
    put_slice(&mut out, addr);
    append_varint(&mut out, 0);
    assert(out@ =~= tcp_request(target@));
    out
}

/// A TCP request says its type, then the length of the address, then the address, and ends with
/// empty padding.
pub proof fn law_tcp_request(target: TargetView)
    requires
        encode_utf8(target.text()).len() <= MAX_VARINT,
    ensures
        ({
            let addr = encode_utf8(target.text());
            let n = varint_size(addr.len() as u64);
            let request = tcp_request(target);
            &&& varint_parse(request) == Ok::<(u64, int), VarintError>((TCP_REQUEST_TYPE, 2))
            &&& varint_parse(request.skip(2)) == Ok::<(u64, int), VarintError>(
                (addr.len() as u64, n),
            )
            &&& request.skip(2 + n) == addr + seq![0u8]
        }),
{
    let addr = encode_utf8(target.text());
    let len = addr.len() as u64;
    let request = tcp_request(target);
    law_varint_round_trip(TCP_REQUEST_TYPE, varint_bytes(len) + addr + varint_bytes(0));
    law_varint_round_trip(len, addr + varint_bytes(0));
    assert(request =~= varint_bytes(TCP_REQUEST_TYPE) + (varint_bytes(len) + addr + varint_bytes(
        0,
    )));
    assert(request.skip(2) =~= varint_bytes(len) + (addr + varint_bytes(0)));
    assert(request.skip(2 + varint_size(len)) =~= addr + seq![0u8]);
}

/// How far a response has been read.
#[derive(Clone, Copy, Debug, PartialEq, Eq, Structural)]
pub enum ResponseStep {
    Status,
    /// The length of the message comes next.
    MsgLen,
    /// The message comes next.
    Msg { len: usize },
    /// The length of the padding comes next.
    PadLen,
    /// The padding comes next.
    Pad { len: usize },
    Done,
}

/// The response needs more input before it can be read on.
#[derive(Clone, Copy, Debug, PartialEq, Eq, Structural)]
pub enum ResponseNeed {
    More,
}

/// Why a response cannot be read.
#[derive(Clone, Copy, Debug, PartialEq, Eq, Structural)]
pub enum ResponseError {
    MessageTooLong,
    PaddingTooLong,
}

/// Reads the response off the front of a stream.
#[derive(Debug)]
pub struct ResponseReader {
    pub buf: Vec<u8>,
    pub step: ResponseStep,
    pub remote_error: Option<String>,
}

/// The value of a response reader.
#[verifier::ext_equal]
pub struct ResponseView {
    pub buf: Seq<u8>,
    pub step: ResponseStep,
    pub remote_error: Option<Seq<char>>,
}

impl View for ResponseReader {
    type V = ResponseView;

    open spec fn view(&self) -> ResponseView {
        ResponseView {
            buf: self.buf@,
            step: self.step,
            remote_error: crate::config::opt_text(self.remote_error),
        }
    }
}

/// How many steps are left at most.
pub open spec fn steps_left(step: ResponseStep) -> int {
    match step {
        ResponseStep::Status => 5,
        ResponseStep::MsgLen => 4,
        ResponseStep::Msg { len } => 3,
        ResponseStep::PadLen => 2,
        ResponseStep::Pad { len } => 1,
        ResponseStep::Done => 0,
    }
}

/// What one step of reading comes to.
pub enum Move {
    /// The next step, with its state.
    Next(ResponseView),
    /// No step can be made.
    Stop(Result<Option<ResponseNeed>, ResponseError>),
}

impl ResponseView {
    /// A reader that has read nothing.
    pub open spec fn start() -> ResponseView {
        ResponseView { buf: Seq::empty(), step: ResponseStep::Status, remote_error: None }
    }

    /// The reader with more bytes to read.
    pub open spec fn fed(self, bytes: Seq<u8>) -> ResponseView {
        ResponseView { buf: self.buf + bytes, ..self }
    }

    /// One step of reading.
    pub open spec fn next(self) -> Move {
        match self.step {
            ResponseStep::Done => Move::Stop(Ok(None)),
            ResponseStep::Status => if self.buf.len() == 0 {
                Move::Stop(Ok(Some(ResponseNeed::More)))
            } else {
                Move::Next(
                    ResponseView {
                        buf: self.buf.skip(1),
                        step: ResponseStep::MsgLen,
                        remote_error: if self.buf[0] != 0 {
                            Some(Seq::empty())
                        } else {
                            self.remote_error
                        },
                    },
                )
            },
            ResponseStep::MsgLen => match varint_parse(self.buf) {
                Err(_) => Move::Stop(Ok(Some(ResponseNeed::More))),
                Ok((len, used)) => if len > MAX_TCP_RESPONSE_MESSAGE {
                    Move::Stop(Err(ResponseError::MessageTooLong))
                } else {
                    Move::Next(
                        ResponseView {
                            buf: self.buf.skip(used),
                            step: ResponseStep::Msg { len: len as usize },
                            ..self
                        },
                    )
                },
            },
            ResponseStep::Msg { len } => if self.buf.len() < len {
                Move::Stop(Ok(Some(ResponseNeed::More)))
            } else {
                Move::Next(
                    ResponseView {
                        buf: self.buf.skip(len as int),
                        step: ResponseStep::PadLen,
                        remote_error: if self.remote_error is Some {
                            Some(lossy_utf8(self.buf.take(len as int)))
                        } else {
                            None
                        },
                    },
                )
            },
            ResponseStep::PadLen => match varint_parse(self.buf) {
                Err(_) => Move::Stop(Ok(Some(ResponseNeed::More))),
                Ok((len, used)) => if len > MAX_TCP_RESPONSE_PADDING {
                    Move::Stop(Err(ResponseError::PaddingTooLong))
                } else {
                    Move::Next(
                        ResponseView {
                            buf: self.buf.skip(used),
                            step: ResponseStep::Pad { len: len as usize },
                            ..self
                        },
                    )
                },
            },
            ResponseStep::Pad { len } => if self.buf.len() < len {
                Move::Stop(Ok(Some(ResponseNeed::More)))
            } else {
                Move::Next(
                    ResponseView {
                        buf: self.buf.skip(len as int),
                        step: ResponseStep::Done,
                        ..self
                    },
                )
            },
        }
    }

    /// All the steps that can be made, and why there are no more.
    pub open spec fn run(self) -> (ResponseView, Result<Option<ResponseNeed>, ResponseError>)
        decreases steps_left(self.step),
    {
        match self.next() {
            Move::Stop(r) => (self, r),
            Move::Next(next) => next.run(),
        }
    }
}

impl ResponseReader {
    /// A reader that has read nothing.
    pub fn new() -> (r: ResponseReader)
        ensures
            r@ == ResponseView::start(),
    {
        let r = ResponseReader {
            buf: Vec::new(),
            step: ResponseStep::Status,
            remote_error: None,
        };
        assert(r@ =~= ResponseView::start());
        r
    }

    /// Whether the whole response has been read.
    pub fn is_done(&self) -> (r: bool)
        ensures
            r == (self.step == ResponseStep::Done),
    {
        self.step == ResponseStep::Done
    }

    /// Takes more bytes in.
    pub fn feed(&mut self, bytes: &[u8])
        ensures
            final(self)@ == old(self)@.fed(bytes@),
    {
        put_slice(&mut self.buf, bytes);
    }

    fn advance(&mut self, n: usize)
        requires
            n <= old(self).buf@.len(),
        ensures
            final(self).buf@ == old(self).buf@.skip(n as int),
            final(self).step == old(self).step,
            final(self).remote_error == old(self).remote_error,
    {
        let rest = copy_range(self.buf.as_slice(), n, self.buf.len());
        assert(rest@ =~= self.buf@.skip(n as int));
        self.buf = rest;
    }

    /// Reads on as far as the bytes go, and says whether more are needed.
    pub fn parse_step(&mut self) -> (r: Result<Option<ResponseNeed>, ResponseError>)
        ensures
            (final(self)@, r) == old(self)@.run(),
    {
        loop
            invariant
                self@.run() == old(self)@.run(),
            decreases steps_left(self.step),
        {
            let ghost before = self@;
            match self.step {
                ResponseStep::Done => {
                    return Ok(None);
                },
                ResponseStep::Status => {
                    if self.buf.len() == 0 {
                        return Ok(Some(ResponseNeed::More));
                    }
                    if self.buf[0] != 0 {
                        self.remote_error = Some(String::new());
                        assert(self@.remote_error =~= Some(Seq::<char>::empty()));
                    }
                    self.advance(1);
                    self.step = ResponseStep::MsgLen;
                },
                ResponseStep::MsgLen => {
                    match parse_varint(self.buf.as_slice()) {
                        Err(_) => {
                            return Ok(Some(ResponseNeed::More));
                        },
                        Ok((len, used)) => {
                            if len > MAX_TCP_RESPONSE_MESSAGE {
                                return Err(ResponseError::MessageTooLong);
                            }
                            self.advance(used);
                            self.step = ResponseStep::Msg { len: len as usize };
                        },
                    }
                },
                ResponseStep::Msg { len } => {
                    if self.buf.len() < len {
                        return Ok(Some(ResponseNeed::More));
                    }
                    if self.remote_error.is_some() {
                        let part = vstd::slice::slice_subrange(self.buf.as_slice(), 0, len);
                        assert(part@ =~= self.buf@.take(len as int));
                        let message = utf8_text_lossy(part);
                        self.remote_error = Some(message);
                    }
                    self.advance(len);
                    self.step = ResponseStep::PadLen;
                },
                ResponseStep::PadLen => {
                    match parse_varint(self.buf.as_slice()) {
                        Err(_) => {
                            return Ok(Some(ResponseNeed::More));
                        },
                        Ok((len, used)) => {
                            if len > MAX_TCP_RESPONSE_PADDING {
                                return Err(ResponseError::PaddingTooLong);
                            }
                            self.advance(used);
                            self.step = ResponseStep::Pad { len: len as usize };
                        },
                    }
                },
                ResponseStep::Pad { len } => {
                    if self.buf.len() < len {
                        return Ok(Some(ResponseNeed::More));
                    }
                    self.advance(len);
                    self.step = ResponseStep::Done;
                },
            }
            assert(before.next() == Move::Next(self@));
        }
    }
}

proof fn lemma_varint_prefix(s: Seq<u8>, more: Seq<u8>)
    requires
        varint_parse(s) is Ok,
    ensures
        varint_parse(s + more) == varint_parse(s),
        0 < varint_parse(s)->Ok_0.1 <= s.len(),
{
    reveal(be8);
    assert((s + more)[0] == s[0]);
    if s[0] >= 192 {
        assert(be8(s + more) == be8(s)) by {
            assert((s + more).skip(4)[0] == s.skip(4)[0]);
            assert((s + more).skip(4)[1] == s.skip(4)[1]);
            assert((s + more).skip(4)[2] == s.skip(4)[2]);
            assert((s + more).skip(4)[3] == s.skip(4)[3]);
        }
    }
}

/// It makes no difference in which pieces a response arrives: reading what is there and then the
/// rest comes to the same as reading all of it at once.
pub proof fn law_response_in_pieces(s: ResponseView, more: Seq<u8>)
    requires
        s.run().1 == Ok::<Option<ResponseNeed>, ResponseError>(Some(ResponseNeed::More)),
    ensures
        s.run().0.fed(more).run() == s.fed(more).run(),
    decreases steps_left(s.step),
{
    match s.next() {
        Move::Stop(_) => {},
        Move::Next(next) => {
            assert(s.fed(more).next() == Move::Next(next.fed(more))) by {
                match s.step {
                    ResponseStep::Done => {},
                    ResponseStep::Status => {
                        assert(s.fed(more).buf.skip(1) =~= next.fed(more).buf);
                    },
                    ResponseStep::MsgLen => {
                        lemma_varint_prefix(s.buf, more);
                        let used = varint_parse(s.buf)->Ok_0.1;
                        assert(s.fed(more).buf.skip(used) =~= next.fed(more).buf);
                    },
                    ResponseStep::Msg { len } => {
                        assert(s.fed(more).buf.skip(len as int) =~= next.fed(more).buf);
                        assert(s.fed(more).buf.take(len as int) =~= s.buf.take(len as int));
                    },
                    ResponseStep::PadLen => {
                        lemma_varint_prefix(s.buf, more);
                        let used = varint_parse(s.buf)->Ok_0.1;
                        assert(s.fed(more).buf.skip(used) =~= next.fed(more).buf);
                    },
                    ResponseStep::Pad { len } => {
                        assert(s.fed(more).buf.skip(len as int) =~= next.fed(more).buf);
                    },
                }
            }
            law_response_in_pieces(next, more);
        },
    }
}

/// The bytes of a response.
pub open spec fn response_bytes(status: u8, message: Seq<u8>, padding: Seq<u8>) -> Seq<u8> {
    seq![status] + varint_bytes(message.len() as u64) + message + varint_bytes(padding.len() as u64)
        + padding
}

/// A response is taken off the front of the stream whole, and nothing of what follows it; its
/// message is kept where the status is not zero.
pub proof fn law_response_is_consumed(
    status: u8,
    message: Seq<u8>,
    padding: Seq<u8>,
    payload: Seq<u8>,
)
    requires
        message.len() <= MAX_TCP_RESPONSE_MESSAGE,
        padding.len() <= MAX_TCP_RESPONSE_PADDING,
    ensures
        ResponseView::start().fed(response_bytes(status, message, padding) + payload).run() == (
            ResponseView {
                buf: payload,
                step: ResponseStep::Done,
                remote_error: if status != 0 {
                    Some(lossy_utf8(message))
                } else {
                    None
                },
            },
            Ok::<Option<ResponseNeed>, ResponseError>(None),
        ),
{
    let a = message.len() as u64;
    let b = padding.len() as u64;
    let all = response_bytes(status, message, padding) + payload;
    let r4 = padding + payload;
    let r3 = varint_bytes(b) + r4;
    let r2 = message + r3;
    let r1 = varint_bytes(a) + r2;
    let s0 = ResponseView::start().fed(all);
    let e = if status != 0 {
        Some(Seq::<char>::empty())
    } else {
        None
    };
    let f = if status != 0 {
        Some(lossy_utf8(message))
    } else {
        None
    };
    let s1 = ResponseView { buf: r1, step: ResponseStep::MsgLen, remote_error: e };
    assert(s0.run() == s1.run()) by {
        assert(all[0] == status);
        assert(s0.buf =~= all);
        assert(all.skip(1) =~= r1);
        lemma_run_next(s0, s1);
    }
    lemma_message_is_read(message, r3, e);
    lemma_padding_is_read(padding, payload, f);
}

proof fn lemma_message_is_read(message: Seq<u8>, rest: Seq<u8>, e: Option<Seq<char>>)
    requires
        message.len() <= MAX_TCP_RESPONSE_MESSAGE,
    ensures
        (ResponseView {
            buf: varint_bytes(message.len() as u64) + (message + rest),
            step: ResponseStep::MsgLen,
            remote_error: e,
        }).run() == (ResponseView {
            buf: rest,
            step: ResponseStep::PadLen,
            remote_error: if e is Some {
                Some(lossy_utf8(message))
            } else {
                None
            },
        }).run(),
{
    let a = message.len() as u64;
    let r2 = message + rest;
    let r1 = varint_bytes(a) + r2;
    let s1 = ResponseView { buf: r1, step: ResponseStep::MsgLen, remote_error: e };
    let s2 = ResponseView { buf: r2, step: ResponseStep::Msg { len: a as usize }, remote_error: e };
    let s3 = ResponseView {
        buf: rest,
        step: ResponseStep::PadLen,
        remote_error: if e is Some {
            Some(lossy_utf8(message))
        } else {
            None
        },
    };
    assert(s1.run() == s2.run()) by {
        law_varint_round_trip(a, r2);
        assert(r1.skip(varint_size(a)) =~= r2);
        lemma_run_next(s1, s2);
    }
    assert(s2.run() == s3.run()) by {
        assert(r2.skip(a as int) =~= rest);
        assert(r2.take(a as int) =~= message);
        lemma_run_next(s2, s3);
    }
}

proof fn lemma_padding_is_read(padding: Seq<u8>, rest: Seq<u8>, e: Option<Seq<char>>)
    requires
        padding.len() <= MAX_TCP_RESPONSE_PADDING,
    ensures
        (ResponseView {
            buf: varint_bytes(padding.len() as u64) + (padding + rest),
            step: ResponseStep::PadLen,
            remote_error: e,
        }).run() == (ResponseView { buf: rest, step: ResponseStep::Done, remote_error: e }).run(),
{
    let b = padding.len() as u64;
    let r4 = padding + rest;
    let r3 = varint_bytes(b) + r4;
    let s3 = ResponseView { buf: r3, step: ResponseStep::PadLen, remote_error: e };
    let s4 = ResponseView { buf: r4, step: ResponseStep::Pad { len: b as usize }, remote_error: e };
    let s5 = ResponseView { buf: rest, step: ResponseStep::Done, remote_error: e };
    assert(s3.run() == s4.run()) by {
        law_varint_round_trip(b, r4);
        assert(r3.skip(varint_size(b)) =~= r4);
        lemma_run_next(s3, s4);
    }
    assert(s4.run() == s5.run()) by {
        assert(r4.skip(b as int) =~= rest);
        lemma_run_next(s4, s5);
    }
}

proof fn lemma_run_next(s: ResponseView, t: ResponseView)
    requires
        s.next() == Move::Next(t),
    ensures
        s.run() == t.run(),
{
}

/// Why a read fails.
#[derive(Debug)]
pub enum StreamError {
    /// The server could not connect, and gave a reason.
    Remote(String),
    /// The server could not connect, and gave no reason.
    RemoteFailed,
    /// The response cannot be read.
    Response(ResponseError),
}

/// The value of a read failure.
pub enum StreamErrorView {
    Remote(Seq<char>),
    RemoteFailed,
    Response(ResponseError),
}

impl View for StreamError {
    type V = StreamErrorView;

    open spec fn view(&self) -> StreamErrorView {
        match self {
            StreamError::Remote(s) => StreamErrorView::Remote(s@),
            StreamError::RemoteFailed => StreamErrorView::RemoteFailed,
            StreamError::Response(e) => StreamErrorView::Response(*e),
        }
    }
}

/// What a read comes to.
#[derive(Debug)]
pub enum ReadAction {
    /// Read from the QUIC stream, hand the bytes in, and try again.
    Fill,
    Fail(StreamError),
    /// Hand these bytes to the reader. With `read_on` there is room for more, straight from the
    /// QUIC stream.
    Serve { bytes: Vec<u8>, read_on: bool },
}

/// The value of a read action.
pub enum ReadActionView {
    Fill,
    Fail(StreamErrorView),
    Serve { bytes: Seq<u8>, read_on: bool },
}

impl View for ReadAction {
    type V = ReadActionView;

    open spec fn view(&self) -> ReadActionView {
        match self {
            ReadAction::Fill => ReadActionView::Fill,
            ReadAction::Fail(e) => ReadActionView::Fail(e@),
            ReadAction::Serve { bytes, read_on } => ReadActionView::Serve {
                bytes: bytes@,
                read_on: *read_on,
            },
        }
    }
}

/// How a server's message is reported.
pub open spec fn remote_failure(message: Seq<char>) -> StreamErrorView {
    if message.len() == 0 {
        StreamErrorView::RemoteFailed
    } else {
        StreamErrorView::Remote(message)
    }
}

/// Serving bytes that were read past the end of the response.
pub open spec fn serve_step(s: ResponseView, room: int) -> (ResponseView, ReadActionView) {
    let n = if s.buf.len() < room {
        s.buf.len() as int
    } else {
        room
    };
    (
        ResponseView { buf: s.buf.skip(n), ..s },
        ReadActionView::Serve { bytes: s.buf.take(n), read_on: n < room },
    )
}

/// A read into a buffer with `room` bytes left: an error of the server is reported once, before
/// anything is served.
pub open spec fn read_step(s: ResponseView, room: int) -> (ResponseView, ReadActionView) {
    match s.remote_error {
        Some(message) => (
            ResponseView { remote_error: None, ..s },
            ReadActionView::Fail(remote_failure(message)),
        ),
        None => if s.step == ResponseStep::Done {
            serve_step(s, room)
        } else {
            match s.run() {
                (t, Err(e)) => (t, ReadActionView::Fail(StreamErrorView::Response(e))),
                (t, Ok(Some(_))) => (t, ReadActionView::Fill),
                (t, Ok(None)) => match t.remote_error {
                    Some(message) => (
                        ResponseView { remote_error: None, ..t },
                        ReadActionView::Fail(remote_failure(message)),
                    ),
                    None => serve_step(t, room),
                },
            }
        },
    }
}

/// A proxied TCP connection.
#[derive(Debug)]
pub struct Hy2TcpStream {
    pub pending_request: Option<Vec<u8>>,
    pub response: ResponseReader,
}

/// What is still to be sent of the request.
pub open spec fn owed(pending: Option<Vec<u8>>) -> Seq<u8> {
    match pending {
        Some(request) => request@,
        None => Seq::empty(),
    }
}

fn failure(message: String) -> (e: StreamError)
    ensures
        e@ == remote_failure(message@),
{
    if message.as_str().as_bytes().len() == 0 {
        proof {
            lemma_empty_text(message@);
        }
        StreamError::RemoteFailed
    } else {
        proof {
            if message@.len() == 0 {
                lemma_no_bytes(message@);
            }
        }
        StreamError::Remote(message)
    }
}

proof fn lemma_empty_text(s: Seq<char>)
    requires
        encode_utf8(s).len() == 0,
    ensures
        s.len() == 0,
{
    lemma_no_bytes(Seq::empty());
    assert(encode_utf8(s) =~= encode_utf8(Seq::empty()));
    crate::text::lemma_utf8_injective(s, Seq::empty());
}

proof fn lemma_no_bytes(s: Seq<char>)
    requires
        s.len() == 0,
    ensures
        encode_utf8(s).len() == 0,
{
    reveal_with_fuel(encode_utf8, 1);
}

impl Hy2TcpStream {
    /// A stream that has not sent its request yet.
    pub fn new(request: Vec<u8>) -> (s: Hy2TcpStream)
        ensures
            s.pending_request == Some(request),
            s.response@ == ResponseView::start(),
    {
        Hy2TcpStream { pending_request: Some(request), response: ResponseReader::new() }
    }

    /// Takes in bytes that the QUIC stream brought.
    pub fn feed(&mut self, bytes: &[u8])
        ensures
            final(self).response@ == old(self).response@.fed(bytes@),
            final(self).pending_request == old(self).pending_request,
    {
        self.response.feed(bytes);
    }

    /// A read into a buffer with `room` bytes left.
    pub fn poll_read(&mut self, room: usize) -> (a: ReadAction)
        ensures
            (final(self).response@, a@) == read_step(old(self).response@, room as int),
            final(self).pending_request == old(self).pending_request,
    {
        if self.response.remote_error.is_some() {
            return self.take_failure();
        }
        if !self.response.is_done() {
            match self.response.parse_step() {
                Err(e) => {
                    return ReadAction::Fail(StreamError::Response(e));
                },
                Ok(Some(_)) => {
                    return ReadAction::Fill;
                },
                Ok(None) => {},
            }
            if self.response.remote_error.is_some() {
                return self.take_failure();
            }
        }
        let n: usize = if self.response.buf.len() < room {
            self.response.buf.len()
        } else {
            room
        };
        let bytes = copy_range(self.response.buf.as_slice(), 0, n);
        assert(bytes@ =~= self.response.buf@.take(n as int));
        self.response.advance(n);
        ReadAction::Serve { bytes, read_on: n < room }
    }

    fn take_failure(&mut self) -> (a: ReadAction)
        requires
            old(self).response.remote_error is Some,
        ensures
            final(self).pending_request == old(self).pending_request,
            final(self).response@ == (ResponseView { remote_error: None, ..old(self).response@ }),
            a@ == ReadActionView::Fail(remote_failure(old(self).response.remote_error->Some_0@)),
    {
        match self.response.remote_error.take() {
            Some(message) => {
                assert(self.response@.remote_error is None);
                ReadAction::Fail(failure(message))
            },
            None => ReadAction::Fill,
        }
    }

    /// The bytes to write for `buf`: what is left of the request goes first.
    pub fn outgoing(&self, buf: &[u8]) -> (out: Vec<u8>)
        ensures
            out@ == owed(self.pending_request) + buf@,
    {
        let mut out: Vec<u8> = Vec::new();
        match &self.pending_request {
            Some(request) => {
                put_slice(&mut out, request.as_slice());
            },
            None => {},
        }
        put_slice(&mut out, buf);
        assert(out@ =~= owed(self.pending_request) + buf@);
        out
    }

    /// Notes that the first `n` of the outgoing bytes were written, and says how many of the
    /// caller's bytes that covers; `None` means that the request is not out yet and the write has
    /// to be tried again.
    pub fn wrote(&mut self, n: usize) -> (accepted: Option<usize>)
        ensures
            final(self).response == old(self).response,
            match old(self).pending_request {
                None => accepted == Some(n) && final(self).pending_request is None,
                Some(request) => if n == 0 {
                    accepted == Some(0usize) && owed(final(self).pending_request) == request@
                        && final(self).pending_request is Some
                } else if n >= request@.len() {
                    accepted == Some((n - request@.len()) as usize)
                        && final(self).pending_request is None
                } else {
                    accepted is None && final(self).pending_request is Some && owed(
                        final(self).pending_request,
                    ) == request@.skip(n as int)
                },
            },
    {
        match self.pending_request.take() {
            None => Some(n),
            Some(request) => {
                if n == 0 {
                    self.pending_request = Some(request);
                    Some(0)
                } else if n >= request.len() {
                    Some(n - request.len())
                } else {
                    let rest = copy_range(request.as_slice(), n, request.len());
                    assert(rest@ =~= request@.skip(n as int));
                    self.pending_request = Some(rest);
                    None
                }
            },
        }
    }

    /// Whether a flush has anything to pass on: nothing has, before the request is out.
    pub fn flushes(&self) -> (r: bool)
        ensures
            r == (self.pending_request is None),
    {
        self.pending_request.is_none()
    }
}

/// What a write of `n` bytes accepts of the caller's, and what is then still owed of the request.
pub open spec fn write_step(owed: Seq<u8>, n: int) -> (int, Seq<u8>) {
    if n >= owed.len() {
        (n - owed.len(), Seq::empty())
    } else {
        (0, owed.skip(n))
    }
}

/// However the writes are cut, the bytes on the wire are the request followed by the accepted
/// payload: what a write puts on the wire and what is still owed make up what was owed and what the
/// write accepted.
pub proof fn law_request_goes_first(pending: Seq<u8>, buf: Seq<u8>, n: int)
    requires
        0 <= n <= pending.len() + buf.len(),
    ensures
        ({
            let (accepted, left) = write_step(pending, n);
            (pending + buf).take(n) + left == pending + buf.take(accepted)
        }),
{
    let (accepted, left) = write_step(pending, n);
    assert((pending + buf).take(n) + left =~= pending + buf.take(accepted));
}

/// Once the response is read, what was read past its end is served first, in order and once.
pub proof fn law_served_in_order(s: ResponseView, room: int)
    requires
        s.step == ResponseStep::Done,
        s.remote_error is None,
        0 <= room,
    ensures
        ({
            let (t, a) = read_step(s, room);
            &&& a is Serve
            &&& a->bytes + t.buf == s.buf
            &&& a->bytes.len() <= room
            &&& a->read_on ==> t.buf.len() == 0
            &&& t.step == ResponseStep::Done
        }),
{
    let (t, a) = read_step(s, room);
    assert(a->bytes + t.buf =~= s.buf);
}

/// The form of a request: the type 0x401, the address as text behind its length, and no padding.
pub proof fn law_tcp_request_form(target: TargetView)
    requires
        encode_utf8(target.text()).len() <= MAX_VARINT,
    ensures
        tcp_request(target) == seq![0x44u8, 0x01u8] + varint_bytes(
            encode_utf8(target.text()).len() as u64,
        ) + encode_utf8(target.text()) + seq![0u8],
{
    assert(varint_bytes(0x401) =~= seq![0x44u8, 0x01u8]);
    assert(varint_bytes(0) =~= seq![0u8]);
}

/// A server that refuses says so: the message that it gives is reported, and where it gives none, that
/// it refused. One that accepts is read from, beginning right behind its response.
pub proof fn law_refusals_are_reported(
    status: u8,
    message: Seq<u8>,
    padding: Seq<u8>,
    payload: Seq<u8>,
    room: int,
)
    requires
        message.len() <= 2048,
        padding.len() <= 4096,
        0 <= room,
    ensures
        ({
            let s = ResponseView::start().fed(response_bytes(status, message, padding) + payload);
            let (t, a) = read_step(s, room);
            &&& status != 0 && lossy_utf8(message).len() > 0 ==> a == ReadActionView::Fail(
                StreamErrorView::Remote(lossy_utf8(message)),
            )
            &&& status != 0 && lossy_utf8(message).len() == 0 ==> a == ReadActionView::Fail(
                StreamErrorView::RemoteFailed,
            )
            &&& status == 0 ==> a is Serve && a->bytes + t.buf == payload && (a->bytes.len() == room
                || a->bytes == payload)
        }),
{
    law_response_is_consumed(status, message, padding, payload);
    let s = ResponseView::start().fed(response_bytes(status, message, padding) + payload);
    let n = if payload.len() < room {
        payload.len() as int
    } else {
        room
    };
    assert(payload.take(n) + payload.skip(n) =~= payload);
    if payload.len() <= room {
        assert(payload.take(n) =~= payload);
    }
}

/// A response is refused as soon as it announces a message of more than 2048 bytes, or a padding of more
/// than 4096.
pub proof fn law_long_responses_are_refused(status: u8, len: u64, message: Seq<u8>, tail: Seq<u8>)
    requires
        len <= MAX_VARINT,
        message.len() <= 2048,
    ensures
        len > 2048 ==> ResponseView::start().fed(seq![status] + varint_bytes(len) + tail).run().1 == Err::<
            Option<ResponseNeed>,
            ResponseError,
        >(ResponseError::MessageTooLong),
        len > 4096 ==> ResponseView::start().fed(
            seq![status] + varint_bytes(message.len() as u64) + message + varint_bytes(len) + tail,
        ).run().1 == Err::<Option<ResponseNeed>, ResponseError>(ResponseError::PaddingTooLong),
{
    let error: Option<Seq<char>> = if status != 0 {
        Some(Seq::empty())
    } else {
        None
    };
    let announced = varint_bytes(len) + tail;
    lemma_status_is_read(status, announced);
    assert(seq![status] + announced =~= seq![status] + varint_bytes(len) + tail);
    lemma_long_length(ResponseStep::MsgLen, len, tail, error);
    let m = message.len() as u64;
    let rest = varint_bytes(m) + (message + announced);
    lemma_status_is_read(status, rest);
    assert(seq![status] + rest =~= seq![status] + varint_bytes(m) + message + varint_bytes(len) + tail);
    lemma_message_is_read(message, announced, error);
    let said: Option<Seq<char>> = if error is Some {
        Some(lossy_utf8(message))
    } else {
        None
    };
    lemma_long_length(ResponseStep::PadLen, len, tail, said);
}

proof fn lemma_status_is_read(status: u8, rest: Seq<u8>)
    ensures
        ResponseView::start().fed(seq![status] + rest).run() == (ResponseView {
            buf: rest,
            step: ResponseStep::MsgLen,
            remote_error: if status != 0 {
                Some(Seq::empty())
            } else {
                None
            },
        }).run(),
{
    let all = seq![status] + rest;
    let s0 = ResponseView::start().fed(all);
    let s1 = ResponseView {
        buf: rest,
        step: ResponseStep::MsgLen,
        remote_error: if status != 0 {
            Some(Seq::empty())
        } else {
            None
        },
    };
    assert(s0.buf =~= all);
    assert(all.skip(1) =~= rest);
    lemma_run_next(s0, s1);
}

proof fn lemma_long_length(step: ResponseStep, len: u64, tail: Seq<u8>, error: Option<Seq<char>>)
    requires
        step is MsgLen || step is PadLen,
        len <= MAX_VARINT,
    ensures
        step is MsgLen && len > 2048 ==> (ResponseView {
            buf: varint_bytes(len) + tail,
            step,
            remote_error: error,
        }).run().1 == Err::<Option<ResponseNeed>, ResponseError>(ResponseError::MessageTooLong),
        step is PadLen && len > 4096 ==> (ResponseView {
            buf: varint_bytes(len) + tail,
            step,
            remote_error: error,
        }).run().1 == Err::<Option<ResponseNeed>, ResponseError>(ResponseError::PaddingTooLong),
{
    law_varint_round_trip(len, tail);
}

/// While the request has not gone out whole, nothing of what is written is taken; what is taken after
/// that is what went out beyond it.
pub proof fn law_request_is_sent_once(owed: Seq<u8>, n: int)
    requires
        0 <= n,
    ensures
        n < owed.len() ==> write_step(owed, n) == (0int, owed.skip(n)),
        n >= owed.len() ==> write_step(owed, n).0 == n - owed.len() && write_step(owed, n).1.len() == 0,
{
}

} // verus!
