//! The AnyTLS frame format and its UDP-over-TCP (UoT) packets.

use crate::proxy::addr::{
    addr_bytes, addr_parse, decode_addr, encode_addr, law_addr_round_trip, socks_tags, wire_safe,
    AddrError, AddrTags, TargetAddr, TargetView,
};
use crate::wire::{
    be2, be2_bytes, be4, be4_bytes, copy_range, get_u16, get_u32, law_be2_round_trip,
    law_be4_round_trip, put_slice, put_u16, put_u32,
};
use vstd::prelude::*;

verus! {

/// Protocol version that this side speaks.
pub const PROTOCOL_VERSION: u8 = 2;

/// Bytes before a frame's payload: command, stream id and payload length.
pub const FRAME_HEADER_SIZE: usize = 7;

/// Bytes of the password hash that opens a session.
pub const AUTH_HASH_SIZE: usize = 32;

/// Bytes of the padding length that follows the password hash.
pub const AUTH_LENGTH_FIELD_SIZE: usize = 2;

/// Frames that may wait for the session's writer.
pub const SESSION_QUEUE_CAPACITY: usize = 64;

/// Payloads that may wait for one stream's reader.
pub const STREAM_QUEUE_CAPACITY: usize = 16;

/// The type bytes of addresses in UoT data packets.
pub open spec fn uot_tags() -> AddrTags {
    AddrTags { v4: 0, domain: 2, v6: 1 }
}

/// The address form of UoT data packets.
pub fn uot_encode_target(target: &TargetAddr) -> (out: Vec<u8>)
    ensures
        out@ == addr_bytes(uot_tags(), target@),
{
    encode_addr(AddrTags { v4: 0, domain: 2, v6: 1 }, target)
}

/// Decodes the address at the start of a UoT data packet.
pub fn uot_decode_target(data: &[u8]) -> (r: Result<(TargetAddr, usize), AddrError>)
    ensures
        match r {
            Ok((target, used)) => addr_parse(uot_tags(), data@) == Ok::<
                (TargetView, int),
                AddrError,
            >((target@, used as int)),
            Err(e) => addr_parse(uot_tags(), data@) == Err::<(TargetView, int), AddrError>(e),
        },
{
    decode_addr(AddrTags { v4: 0, domain: 2, v6: 1 }, data)
}

/// The address form of UoT requests.
pub fn socksaddr_encode_target(target: &TargetAddr) -> (out: Vec<u8>)
    ensures
        out@ == addr_bytes(socks_tags(), target@),
{
    encode_addr(AddrTags { v4: 1, domain: 3, v6: 4 }, target)
}

/// Decodes the destination of a UoT request.
pub fn socksaddr_decode_target(data: &[u8]) -> (r: Result<(TargetAddr, usize), AddrError>)
    ensures
        match r {
            Ok((target, used)) => addr_parse(socks_tags(), data@) == Ok::<
                (TargetView, int),
                AddrError,
            >((target@, used as int)),
            Err(e) => addr_parse(socks_tags(), data@) == Err::<(TargetView, int), AddrError>(e),
        },
{
    decode_addr(AddrTags { v4: 1, domain: 3, v6: 4 }, data)
}

/// What a frame asks for.
#[derive(Debug, Clone, Copy, PartialEq, Eq, Structural)]
pub enum Command {
    Waste,
    Syn,
    Psh,
    Fin,
    Settings,
    Alert,
    UpdatePaddingScheme,
    SynAck,
    HeartRequest,
    HeartResponse,
    ServerSettings,
}

/// A command byte that stands for no command.
#[derive(Debug, Clone, Copy, PartialEq, Eq, Structural)]
pub struct UnknownCommand(pub u8);

/// The byte of a command.
pub open spec fn command_byte(cmd: Command) -> u8 {
    match cmd {
        Command::Waste => 0,
        Command::Syn => 1,
        Command::Psh => 2,
        Command::Fin => 3,
        Command::Settings => 4,
        Command::Alert => 5,
        Command::UpdatePaddingScheme => 6,
        Command::SynAck => 7,
        Command::HeartRequest => 8,
        Command::HeartResponse => 9,
        Command::ServerSettings => 10,
    }
}

/// The command of a byte.
pub open spec fn command_of(byte: u8) -> Result<Command, UnknownCommand> {
    match byte {
        0 => Ok(Command::Waste),
        1 => Ok(Command::Syn),
        2 => Ok(Command::Psh),
        3 => Ok(Command::Fin),
        4 => Ok(Command::Settings),
        5 => Ok(Command::Alert),
        6 => Ok(Command::UpdatePaddingScheme),
        7 => Ok(Command::SynAck),
        8 => Ok(Command::HeartRequest),
        9 => Ok(Command::HeartResponse),
        10 => Ok(Command::ServerSettings),
        _ => Err(UnknownCommand(byte)),
    }
}

impl From<Command> for u8 {
    fn from(cmd: Command) -> (byte: u8) {
        match cmd {
            Command::Waste => 0,
            Command::Syn => 1,
            Command::Psh => 2,
            Command::Fin => 3,
            Command::Settings => 4,
            Command::Alert => 5,
            Command::UpdatePaddingScheme => 6,
            Command::SynAck => 7,
            Command::HeartRequest => 8,
            Command::HeartResponse => 9,
            Command::ServerSettings => 10,
        }
    }
}

impl vstd::std_specs::convert::FromSpecImpl<Command> for u8 {
    open spec fn obeys_from_spec() -> bool {
        true
    }

    open spec fn from_spec(cmd: Command) -> u8 {
        command_byte(cmd)
    }
}

impl TryFrom<u8> for Command {
    type Error = UnknownCommand;

    fn try_from(byte: u8) -> (r: Result<Command, UnknownCommand>) {
        match byte {
            0 => Ok(Command::Waste),
            1 => Ok(Command::Syn),
            2 => Ok(Command::Psh),
            3 => Ok(Command::Fin),
            4 => Ok(Command::Settings),
            5 => Ok(Command::Alert),
            6 => Ok(Command::UpdatePaddingScheme),
            7 => Ok(Command::SynAck),
            8 => Ok(Command::HeartRequest),
            9 => Ok(Command::HeartResponse),
            10 => Ok(Command::ServerSettings),
            _ => Err(UnknownCommand(byte)),
        }
    }
}

impl vstd::std_specs::convert::TryFromSpecImpl<u8> for Command {
    open spec fn obeys_try_from_spec() -> bool {
        true
    }

    open spec fn try_from_spec(byte: u8) -> Result<Command, UnknownCommand> {
        command_of(byte)
    }
}

/// Every command is read back from its byte, and bytes that stand for no command are refused.
pub proof fn law_command_round_trip(cmd: Command, byte: u8)
    ensures
        command_of(command_byte(cmd)) == Ok::<Command, UnknownCommand>(cmd),
        command_of(byte) matches Ok(c) ==> command_byte(c) == byte,
        command_of(byte) is Err <==> byte > 10,
{
}

/// A frame on the wire: command, stream id, payload length, payload.
pub open spec fn frame_bytes(cmd: Command, stream_id: u32, data: Seq<u8>) -> Seq<u8> {
    seq![command_byte(cmd)] + be4_bytes(stream_id as int) + be2_bytes(data.len() as int) + data
}

/// A payload that does not fit into one frame or packet.
#[derive(Debug, Clone, Copy, PartialEq, Eq, Structural)]
pub struct PayloadTooLong;

/// Builds a frame; a payload of more than 65535 bytes is refused.
pub fn build_frame(cmd: Command, stream_id: u32, data: &[u8]) -> (r: Result<Vec<u8>, PayloadTooLong>)
    ensures
        match r {
            Ok(frame) => data@.len() <= 65535 && frame@ == frame_bytes(cmd, stream_id, data@),
            Err(_) => data@.len() > 65535,
        },
{
    if data.len() > 65535 {
        return Err(PayloadTooLong);
    }
    let mut frame: Vec<u8> = Vec::new();
    frame.push(u8::from(cmd));
    put_u32(&mut frame, stream_id);
    put_u16(&mut frame, data.len() as u16);
    put_slice(&mut frame, data);
    assert(frame@ =~= frame_bytes(cmd, stream_id, data@));
    Ok(frame)
}

/// What reading a frame asks for next, given the bytes read so far.
#[derive(Debug, Clone, PartialEq, Eq)]
pub enum ReadFrame {
    /// The frame is not complete before this many bytes have been read in all.
    More(usize),
    /// The command byte is unknown.
    Unknown(u8),
    /// A frame, which took this many bytes.
    Frame(Command, u32, Vec<u8>, usize),
}

/// The mathematical value of a [`ReadFrame`].
pub enum ReadFrameView {
    More(int),
    Unknown(u8),
    Frame(Command, u32, Seq<u8>, int),
}

impl View for ReadFrame {
    type V = ReadFrameView;

    open spec fn view(&self) -> ReadFrameView {
        match self {
            ReadFrame::More(n) => ReadFrameView::More(*n as int),
            ReadFrame::Unknown(b) => ReadFrameView::Unknown(*b),
            ReadFrame::Frame(c, id, data, n) => ReadFrameView::Frame(*c, *id, data@, *n as int),
        }
    }
}

/// The step that reading a frame takes after `data` has arrived.
pub open spec fn frame_parse(data: Seq<u8>) -> ReadFrameView {
    if data.len() == 0 {
        ReadFrameView::More(1)
    } else if command_of(data[0]) is Err {
        ReadFrameView::Unknown(data[0])
    } else if data.len() < 7 {
        ReadFrameView::More(7)
    } else if data.len() < 7 + be2(data.skip(5)) {
        ReadFrameView::More(7 + be2(data.skip(5)))
    } else {
        ReadFrameView::Frame(
            command_of(data[0])->Ok_0,
            be4(data.skip(1)) as u32,
            data.subrange(7, 7 + be2(data.skip(5))),
            7 + be2(data.skip(5)),
        )
    }
}

/// Reads a frame off the bytes that a stream has delivered so far.
pub fn read_frame(data: &[u8]) -> (r: ReadFrame)
    ensures
        r@ == frame_parse(data@),
{
    if data.len() == 0 {
        return ReadFrame::More(1);
    }
    let cmd = match Command::try_from(data[0]) {
        Ok(cmd) => cmd,
        Err(_) => {
            return ReadFrame::Unknown(data[0]);
        },
    };
    if data.len() < 7 {
        return ReadFrame::More(7);
    }
    let stream_id: u32 = get_u32(data, 1);
    let len: usize = get_u16(data, 5) as usize;
    if data.len() < 7 + len {
        return ReadFrame::More(7 + len);
    }
    ReadFrame::Frame(cmd, stream_id, copy_range(data, 7, 7 + len), 7 + len)
}

/// A frame that was built is read back as it was, and exactly its bytes are taken.
pub proof fn law_frame_round_trip(cmd: Command, stream_id: u32, data: Seq<u8>, tail: Seq<u8>)
    requires
        data.len() <= 65535,
    ensures
        frame_parse(frame_bytes(cmd, stream_id, data) + tail) == ReadFrameView::Frame(
            cmd,
            stream_id,
            data,
            frame_bytes(cmd, stream_id, data).len() as int,
        ),
{
    let all = frame_bytes(cmd, stream_id, data) + tail;
    let rest = be2_bytes(data.len() as int) + data + tail;
    law_command_round_trip(cmd, 0);
    law_be4_round_trip(stream_id as int, rest);
    law_be2_round_trip(data.len() as int, data + tail);
    assert(all.skip(1) =~= be4_bytes(stream_id as int) + rest);
    assert(all.skip(5) =~= be2_bytes(data.len() as int) + (data + tail));
    assert(all.subrange(7, 7int + data.len()) =~= data);
}

/// The unread tail of a stream's last payload.
#[derive(Debug, Default)]
pub struct StreamReadBuffer {
    pending: Vec<u8>,
}

impl View for StreamReadBuffer {
    type V = Seq<u8>;

    closed spec fn view(&self) -> Seq<u8> {
        self.pending@
    }
}

/// The smaller of two lengths.
pub open spec fn min_len(a: int, b: int) -> int {
    if a < b {
        a
    } else {
        b
    }
}

impl StreamReadBuffer {
    /// A buffer with nothing in it.
    pub fn new() -> (b: StreamReadBuffer)
        ensures
            b@ == Seq::<u8>::empty(),
    {
        StreamReadBuffer { pending: Vec::new() }
    }

    /// Moves up to `room` pending bytes to the end of `dst`. Says whether anything was pending.
    pub fn copy_to(&mut self, dst: &mut Vec<u8>, room: usize) -> (had: bool)
        ensures
            had == (old(self)@.len() > 0),
            ({
                let n = min_len(old(self)@.len() as int, room as int);
                &&& final(dst)@ == old(dst)@ + old(self)@.take(n)
                &&& final(self)@ == old(self)@.skip(n)
            }),
    {
        if self.pending.len() == 0 {
            assert(self.pending@.take(0) =~= Seq::<u8>::empty());
            assert(dst@ + self.pending@.take(0) =~= dst@);
            assert(self.pending@.skip(0) =~= self.pending@);
            return false;
        }
        let n: usize = if self.pending.len() < room {
            self.pending.len()
        } else {
            room
        };
        let tail = self.pending.split_off(n);
        put_slice(dst, self.pending.as_slice());
        self.pending = tail;
        true
    }

    /// Takes over a fresh payload and moves as much of it as fits to the end of `dst`.
    pub fn copy_from(&mut self, data: Vec<u8>, dst: &mut Vec<u8>, room: usize)
        requires
            old(self)@.len() == 0,
        ensures
            ({
                let n = min_len(data@.len() as int, room as int);
                &&& final(dst)@ == old(dst)@ + data@.take(n)
                &&& final(self)@ == data@.skip(n)
            }),
    {
        self.pending = data;
        self.copy_to(dst, room);
    }
}

/// How long the address at the start of a UoT packet is, once that is known to be there in full.
pub open spec fn uot_target_len_spec(data: Seq<u8>) -> Result<Option<int>, u8> {
    if data.len() == 0 {
        Ok(None)
    } else if data[0] == 2 && data.len() == 1 {
        Ok(None)
    } else if data[0] <= 2 {
        let required = if data[0] == 0 {
            7
        } else if data[0] == 1 {
            19
        } else {
            4 + data[1]
        };
        if data.len() >= required {
            Ok(Some(required))
        } else {
            Ok(None)
        }
    } else {
        Err(data[0])
    }
}

/// The length of the address at the start of a UoT packet: `Ok(None)` while it is not complete,
/// the type byte when that is unknown.
pub fn uot_target_len(data: &[u8]) -> (r: Result<Option<usize>, u8>)
    ensures
        match r {
            Ok(Some(n)) => uot_target_len_spec(data@) == Ok::<Option<int>, u8>(Some(n as int)),
            Ok(None) => uot_target_len_spec(data@) == Ok::<Option<int>, u8>(None),
            Err(t) => uot_target_len_spec(data@) == Err::<Option<int>, u8>(t),
        },
{
    if data.len() == 0 {
        return Ok(None);
    }
    let required: usize = match data[0] {
        0 => 7,
        1 => 19,
        2 => {
            if data.len() == 1 {
                return Ok(None);
            }
            4 + data[1] as usize
        },
        other => {
            return Err(other);
        },
    };
    if data.len() >= required {
        Ok(Some(required))
    } else {
        Ok(None)
    }
}

/// How long the first UoT packet in `data` is, once it is there in full.
pub open spec fn uot_packet_len(data: Seq<u8>, is_connect: bool) -> Result<Option<int>, u8> {
    let header = if is_connect {
        Ok(Some(0int))
    } else {
        uot_target_len_spec(data)
    };
    match header {
        Err(t) => Err(t),
        Ok(None) => Ok(None),
        Ok(Some(h)) => if data.len() < h + 2 {
            Ok(None)
        } else if data.len() < h + 2 + be2(data.skip(h)) {
            Ok(None)
        } else {
            Ok(Some(h + 2 + be2(data.skip(h))))
        },
    }
}

/// Collects stream payloads and cuts them into UoT packets.
#[derive(Debug, Default)]
pub struct UotReadBuffer {
    data: Vec<u8>,
}

impl View for UotReadBuffer {
    type V = Seq<u8>;

    closed spec fn view(&self) -> Seq<u8> {
        self.data@
    }
}

impl UotReadBuffer {
    /// A buffer with nothing in it.
    pub fn new() -> (b: UotReadBuffer)
        ensures
            b@ == Seq::<u8>::empty(),
    {
        UotReadBuffer { data: Vec::new() }
    }

    /// Appends what the stream delivered.
    pub fn push(&mut self, data: &[u8])
        ensures
            final(self)@ == old(self)@ + data@,
    {
        put_slice(&mut self.data, data);
    }

    /// Takes the first complete packet out of the buffer. An unknown address type is an error
    /// that leaves the buffer as it is.
    pub fn next_packet(&mut self, is_connect: bool) -> (r: Result<Option<Vec<u8>>, u8>)
        ensures
            match r {
                Ok(Some(packet)) => exists|n: int|
                    {
                        &&& uot_packet_len(old(self)@, is_connect) == Ok::<Option<int>, u8>(Some(n))
                        &&& packet@ == old(self)@.take(n)
                        &&& final(self)@ == old(self)@.skip(n)
                    },
                Ok(None) => {
                    &&& uot_packet_len(old(self)@, is_connect) == Ok::<Option<int>, u8>(None)
                    &&& final(self)@ == old(self)@
                },
                Err(t) => {
                    &&& uot_packet_len(old(self)@, is_connect) == Err::<Option<int>, u8>(t)
                    &&& final(self)@ == old(self)@
                },
            },
    {
        let header: usize = if is_connect {
            0
        } else {
            match uot_target_len(self.data.as_slice()) {
                Ok(Some(n)) => n,
                Ok(None) => {
                    return Ok(None);
                },
                Err(t) => {
                    return Err(t);
                },
            }
        };
        if self.data.len() - header < 2 {
            return Ok(None);
        }
        let payload: usize = get_u16(self.data.as_slice(), header) as usize;
        if self.data.len() - header - 2 < payload {
            return Ok(None);
        }
        let n: usize = header + 2 + payload;
        let mut packet = self.data.split_off(n);
        std::mem::swap(&mut packet, &mut self.data);
        assert(uot_packet_len(old(self)@, is_connect) == Ok::<Option<int>, u8>(Some(n as int)));
        Ok(Some(packet))
    }
}

/// A UoT packet: the address unless the session is connected, the payload length, the payload.
pub open spec fn uot_packet_bytes(payload: Seq<u8>, target: Option<TargetView>) -> Seq<u8> {
    (match target {
        Some(t) => addr_bytes(uot_tags(), t),
        None => Seq::<u8>::empty(),
    }) + be2_bytes(payload.len() as int) + payload
}

/// Builds a UoT packet; a payload of more than 65535 bytes is refused.
pub fn encode_uot_packet(payload: &[u8], target: Option<&TargetAddr>) -> (r: Result<
    Vec<u8>,
    PayloadTooLong,
>)
    ensures
        match r {
            Ok(packet) => {
                &&& payload@.len() <= 65535
                &&& packet@ == uot_packet_bytes(
                    payload@,
                    match target {
                        Some(t) => Some(t@),
                        None => None,
                    },
                )
            },
            Err(_) => payload@.len() > 65535,
        },
{
    if payload.len() > 65535 {
        return Err(PayloadTooLong);
    }
    let mut packet: Vec<u8> = match target {
        Some(t) => uot_encode_target(t),
        None => Vec::new(),
    };
    put_u16(&mut packet, payload.len() as u16);
    put_slice(&mut packet, payload);
    Ok(packet)
}

/// Why a UoT packet could not be decoded.
#[derive(Debug, Clone, Copy, PartialEq, Eq, Structural)]
pub enum UotError {
    /// Its address is broken.
    Addr(AddrError),
    /// It ends before the payload length.
    TooShortForLength,
    /// It ends inside the payload.
    TooShortForPayload,
}

/// What [`decode_uot_packet`] returns.
pub open spec fn uot_packet_parse(data: Seq<u8>, is_connect: bool) -> Result<
    (Option<TargetView>, Seq<u8>),
    UotError,
> {
    if !is_connect && addr_parse(uot_tags(), data) is Err {
        Err(UotError::Addr(addr_parse(uot_tags(), data)->Err_0))
    } else {
        let (target, h) = if is_connect {
            (None, 0int)
        } else {
            let (t, n) = addr_parse(uot_tags(), data)->Ok_0;
            (Some(t), n)
        };
        if data.len() < h + 2 {
            Err(UotError::TooShortForLength)
        } else if data.len() < h + 2 + be2(data.skip(h)) {
            Err(UotError::TooShortForPayload)
        } else {
            Ok((target, data.subrange(h + 2, h + 2 + be2(data.skip(h)))))
        }
    }
}

/// Splits a UoT packet into its address, if it has one, and its payload.
pub fn decode_uot_packet(data: &[u8], is_connect: bool) -> (r: Result<
    (Option<TargetAddr>, Vec<u8>),
    UotError,
>)
    ensures
        match r {
            Ok((target, payload)) => uot_packet_parse(data@, is_connect) == Ok::<
                (Option<TargetView>, Seq<u8>),
                UotError,
            >(
                (
                    match target {
                        Some(t) => Some(t@),
                        None => None,
                    },
                    payload@,
                ),
            ),
            Err(e) => uot_packet_parse(data@, is_connect) == Err::<
                (Option<TargetView>, Seq<u8>),
                UotError,
            >(e),
        },
{
    let (target, header): (Option<TargetAddr>, usize) = if is_connect {
        (None, 0)
    } else {
        match uot_decode_target(data) {
            Ok((t, n)) => (Some(t), n),
            Err(e) => {
                return Err(UotError::Addr(e));
            },
        }
    };
    if data.len() - header < 2 {
        return Err(UotError::TooShortForLength);
    }
    let payload: usize = get_u16(data, header) as usize;
    if data.len() - header - 2 < payload {
        return Err(UotError::TooShortForPayload);
    }
    Ok((target, copy_range(data, header + 2, header + 2 + payload)))
}

proof fn lemma_uot_target_len(data: Seq<u8>)
    requires
        addr_parse(uot_tags(), data) is Ok,
    ensures
        uot_target_len_spec(data) == Ok::<Option<int>, u8>(
            Some(addr_parse(uot_tags(), data)->Ok_0.1),
        ),
{
}

proof fn lemma_uot_split(head: Seq<u8>, payload: Seq<u8>, tail: Seq<u8>)
    requires
        payload.len() <= 65535,
    ensures
        ({
            let h = head.len() as int;
            let all = head + be2_bytes(payload.len() as int) + payload + tail;
            &&& all.len() == h + 2 + payload.len() + tail.len()
            &&& be2(all.skip(h)) == payload.len()
            &&& all.subrange(h + 2, h + 2 + payload.len()) == payload
        }),
{
    let h = head.len() as int;
    let all = head + be2_bytes(payload.len() as int) + payload + tail;
    law_be2_round_trip(payload.len() as int, payload + tail);
    assert(all.skip(h) =~= be2_bytes(payload.len() as int) + (payload + tail));
    assert(all.subrange(h + 2, h + 2 + payload.len()) =~= payload);
}

/// A UoT packet is cut out of the stream whole, and decodes to the address and payload that it
/// was built from.
pub proof fn law_uot_packet_round_trip(payload: Seq<u8>, target: Option<TargetView>, tail: Seq<u8>)
    requires
        payload.len() <= 65535,
        target matches Some(t) ==> wire_safe(t),
    ensures
        uot_packet_len(uot_packet_bytes(payload, target) + tail, target is None) == Ok::<
            Option<int>,
            u8,
        >(Some(uot_packet_bytes(payload, target).len() as int)),
        uot_packet_parse(uot_packet_bytes(payload, target), target is None) == Ok::<
            (Option<TargetView>, Seq<u8>),
            UotError,
        >((target, payload)),
{
    let packet = uot_packet_bytes(payload, target);
    let body = be2_bytes(payload.len() as int) + payload;
    match target {
        Some(t) => {
            let head = addr_bytes(uot_tags(), t);
            law_addr_round_trip(uot_tags(), t, body);
            law_addr_round_trip(uot_tags(), t, body + tail);
            lemma_uot_split(head, payload, tail);
            lemma_uot_split(head, payload, Seq::empty());
            assert(packet =~= head + body);
            assert(packet + tail =~= head + (body + tail));
            assert(packet + Seq::<u8>::empty() =~= packet);
            lemma_uot_target_len(packet + tail);
        },
        None => {
            let head = Seq::<u8>::empty();
            lemma_uot_split(head, payload, tail);
            lemma_uot_split(head, payload, Seq::empty());
            assert(packet =~= head + be2_bytes(payload.len() as int) + payload);
            assert(packet + Seq::<u8>::empty() =~= packet);
        },
    }
}

/// The commands have the numbers of the protocol.
pub proof fn law_command_numbers()
    ensures
        command_of(0) == Ok::<Command, UnknownCommand>(Command::Waste),
        command_of(1) == Ok::<Command, UnknownCommand>(Command::Syn),
        command_of(2) == Ok::<Command, UnknownCommand>(Command::Psh),
        command_of(3) == Ok::<Command, UnknownCommand>(Command::Fin),
        command_of(4) == Ok::<Command, UnknownCommand>(Command::Settings),
        command_of(5) == Ok::<Command, UnknownCommand>(Command::Alert),
        command_of(6) == Ok::<Command, UnknownCommand>(Command::UpdatePaddingScheme),
        command_of(7) == Ok::<Command, UnknownCommand>(Command::SynAck),
        command_of(8) == Ok::<Command, UnknownCommand>(Command::HeartRequest),
        command_of(9) == Ok::<Command, UnknownCommand>(Command::HeartResponse),
        command_of(10) == Ok::<Command, UnknownCommand>(Command::ServerSettings),
{
}

/// The form of a frame: the command in one byte, the stream in four, the length of the payload in two,
/// and the payload.
pub proof fn law_frame_form(cmd: Command, stream_id: u32, data: Seq<u8>)
    requires
        data.len() <= 65535,
    ensures
        ({
            let frame = frame_bytes(cmd, stream_id, data);
            &&& frame.len() == 7 + data.len()
            &&& command_of(frame[0]) == Ok::<Command, UnknownCommand>(cmd)
            &&& crate::wire::number(frame.subrange(1, 5)) == stream_id
            &&& crate::wire::number(frame.subrange(5, 7)) == data.len()
            &&& frame.skip(7) == data
        }),
{
    let frame = frame_bytes(cmd, stream_id, data);
    law_command_round_trip(cmd, 0);
    crate::wire::law_big_endian(stream_id as int, Seq::empty());
    crate::wire::law_big_endian(data.len() as int, Seq::empty());
    assert(frame.subrange(1, 5) =~= be4_bytes(stream_id as int));
    assert(frame.subrange(5, 7) =~= be2_bytes(data.len() as int));
    assert(frame.skip(7) =~= data);
}

/// A part of a frame is waited for: more bytes are asked for, and no more than the frame has.
pub proof fn law_part_of_a_frame_is_waited_for(cmd: Command, stream_id: u32, data: Seq<u8>, got: int)
    requires
        data.len() <= 65535,
        0 <= got < 7 + data.len(),
    ensures
        frame_parse(frame_bytes(cmd, stream_id, data).take(got)) matches ReadFrameView::More(n) && got
            < n <= 7 + data.len(),
{
    let frame = frame_bytes(cmd, stream_id, data);
    let part = frame.take(got);
    law_command_round_trip(cmd, 0);
    law_be2_round_trip(data.len() as int, data);
    assert(frame.skip(5) =~= be2_bytes(data.len() as int) + data);
    if got > 0 {
        assert(part[0] == frame[0]);
    }
    if got >= 7 {
        assert(be2(part.skip(5)) == be2(frame.skip(5)));
    }
}

/// The address types of packets over a stream: 0 for IPv4, 1 for IPv6, 2 for a domain.
pub proof fn law_uot_form(addr: crate::proxy::addr::SocketAddr, domain: Seq<char>, port: u16)
    requires
        vstd::utf8::encode_utf8(domain).len() <= 255,
    ensures
        addr.ip matches crate::proxy::addr::IpAddr::V4(ip) ==> addr_bytes(
            uot_tags(),
            TargetView::Ip(addr),
        ) == seq![0u8] + be4_bytes(ip as int) + be2_bytes(addr.port as int),
        addr.ip matches crate::proxy::addr::IpAddr::V6(ip) ==> addr_bytes(
            uot_tags(),
            TargetView::Ip(addr),
        ) == seq![1u8] + crate::wire::be16_bytes(ip as int) + be2_bytes(addr.port as int),
        addr_bytes(uot_tags(), TargetView::Domain(domain, port)) == seq![
            2u8,
            vstd::utf8::encode_utf8(domain).len() as u8,
        ] + vstd::utf8::encode_utf8(domain) + be2_bytes(port as int),
{
}

/// A part of a packet is waited for, and an address of an unknown type is refused.
pub proof fn law_part_of_a_packet_is_waited_for(
    payload: Seq<u8>,
    target: Option<TargetView>,
    got: int,
    data: Seq<u8>,
)
    requires
        payload.len() <= 65535,
        target matches Some(t) ==> wire_safe(t),
        0 <= got < uot_packet_bytes(payload, target).len(),
    ensures
        uot_packet_len(uot_packet_bytes(payload, target).take(got), target is None) == Ok::<
            Option<int>,
            u8,
        >(None),
        data.len() > 0 && data[0] > 2 ==> uot_packet_len(data, false) == Err::<Option<int>, u8>(
            data[0],
        ),
        data.len() > 0 && data[0] > 2 ==> uot_packet_parse(data, false) is Err,
{
    let packet = uot_packet_bytes(payload, target);
    let part = packet.take(got);
    let head = match target {
        Some(t) => addr_bytes(uot_tags(), t),
        None => Seq::<u8>::empty(),
    };
    let h = head.len() as int;
    lemma_uot_split(head, payload, Seq::empty());
    assert(packet =~= head + be2_bytes(payload.len() as int) + payload);
    assert(packet + Seq::<u8>::empty() =~= packet);
    if let Some(t) = target {
        law_addr_round_trip(uot_tags(), t, packet.skip(h));
        assert(packet =~= head + packet.skip(h));
        lemma_uot_target_len(packet);
        if got > 0 {
            assert(part[0] == packet[0]);
            if got > 1 {
                assert(part[1] == packet[1]);
            }
        }
    }
    if got >= h + 2 {
        assert(be2(part.skip(h)) == be2(packet.skip(h)));
    }
}

} // verus!
