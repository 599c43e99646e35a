//! The ShadowQUIC wire format: authentication, request heads, UDP contexts and the extension
//! protocol.

use crate::crypto::{sha256, sha256_of};
use crate::proxy::addr::{
    addr_bytes, dummy_target, law_target_read_back, read_target, socks_tags, wire_safe, ReadTarget,
    ReadTargetView, TargetAddr, TargetView,
};
use crate::wire::{
    be2, be2_bytes, be4_bytes, be8, be8_bytes, bytes_eq, copy_range, get_u16, get_u64,
    law_be2_round_trip, law_be8_round_trip, put_slice, put_u16, put_u32, put_u64,
};
use dashmap::DashMap;
use vstd::prelude::*;
use vstd::utf8::encode_utf8;

verus! {

/// Bytes of an authentication hash.
pub const SUNNY_QUIC_AUTH_LEN: usize = 64;

/// Datagrams that may wait for one UDP session's reader.
pub const UDP_RECEIVE_QUEUE_CAPACITY: usize = 64;

/// Datagrams that may wait until their context is announced.
pub const WAITING_DATAGRAM_QUEUE_CAPACITY: usize = 8;

/// `n` zero bytes.
pub open spec fn zeros(n: int) -> Seq<u8> {
    Seq::new(n as nat, |i: int| 0u8)
}

/// The authentication hash of a user: the digest of `username:password`, filled up with zeros.
pub open spec fn sunny_hash(username: Seq<char>, password: Seq<char>) -> Seq<u8> {
    sha256_of(encode_utf8(username + seq![':'] + password)) + zeros(32)
}

/// Computes the authentication hash of a user.
pub fn gen_sunny_auth_hash(username: &str, password: &str) -> (hash: Vec<u8>)
    ensures
        hash@ == sunny_hash(username@, password@),
        hash@.len() == 64,
{
    let mut text = crate::text::copy_text(username);
    text.push(':');
    crate::text::push_text(&mut text, password);
    assert(text@ =~= username@ + seq![':'] + password@);
    let mut hash = sha256(text.as_str().as_bytes());
    let ghost digest = hash@;
    while hash.len() < 64
        invariant
            32 <= hash@.len() <= 64,
            digest.len() == 32,
            hash@ == digest + zeros(hash@.len() - 32),
        decreases 64 - hash@.len(),
    {
        hash.push(0);
        assert(hash@ =~= digest + zeros(hash@.len() - 32));
    }
    hash
}

/// The packet that authenticates a connection.
pub open spec fn auth_packet_bytes(hash: Seq<u8>) -> Seq<u8> {
    seq![5u8] + hash
}

/// Builds the packet that authenticates a connection.
pub fn auth_packet(hash: &[u8]) -> (out: Vec<u8>)
    ensures
        out@ == auth_packet_bytes(hash@),
{
    let mut out: Vec<u8> = Vec::new();
    out.push(5);
    put_slice(&mut out, hash);
    assert(out@ =~= auth_packet_bytes(hash@));
    out
}

/// What reading the authentication asks for next, given the bytes read so far.
#[derive(Debug, PartialEq, Eq)]
pub enum ReadAuth {
    /// The packet is not complete before this many bytes have been read in all.
    More(usize),
    /// The first byte is not the authentication command.
    WrongCommand,
    /// The received hash.
    Hash(Vec<u8>),
}

/// The mathematical value of a [`ReadAuth`].
pub enum ReadAuthView {
    More(int),
    WrongCommand,
    Hash(Seq<u8>),
}

impl View for ReadAuth {
    type V = ReadAuthView;

    open spec fn view(&self) -> ReadAuthView {
        match self {
            ReadAuth::More(n) => ReadAuthView::More(*n as int),
            ReadAuth::WrongCommand => ReadAuthView::WrongCommand,
            ReadAuth::Hash(h) => ReadAuthView::Hash(h@),
        }
    }
}

/// The step that reading the authentication takes after `data` has arrived.
pub open spec fn auth_parse(data: Seq<u8>) -> ReadAuthView {
    if data.len() == 0 {
        ReadAuthView::More(1)
    } else if data[0] != 5 {
        ReadAuthView::WrongCommand
    } else if data.len() < 65 {
        ReadAuthView::More(65)
    } else {
        ReadAuthView::Hash(data.subrange(1, 65))
    }
}

/// Reads the authentication off the bytes that a stream has delivered so far.
pub fn read_sunny_auth(data: &[u8]) -> (r: ReadAuth)
    ensures
        r@ == auth_parse(data@),
{
    if data.len() == 0 {
        return ReadAuth::More(1);
    }
    if data[0] != 5 {
        return ReadAuth::WrongCommand;
    }
    if data.len() < 65 {
        return ReadAuth::More(65);
    }
    ReadAuth::Hash(copy_range(data, 1, 65))
}

/// Why a connection does not authenticate.
#[derive(Debug, Clone, Copy, PartialEq, Eq, Structural)]
pub enum AuthError {
    /// The first byte is not the authentication command.
    WrongCommand,
    /// The hash is another one.
    InvalidHash,
}

/// Whether the bytes read so far authenticate against the expected hash: `Ok(n)` with `n > 0`
/// asks for `n` bytes in all, `Ok(0)` means that they do.
pub fn auth_sunnyquic(data: &[u8], expected_hash: &[u8]) -> (r: Result<usize, AuthError>)
    ensures
        match auth_parse(data@) {
            ReadAuthView::More(n) => r == Ok::<usize, AuthError>(n as usize) && n > 0,
            ReadAuthView::WrongCommand => r == Err::<usize, AuthError>(AuthError::WrongCommand),
            ReadAuthView::Hash(h) => if h == expected_hash@ {
                r == Ok::<usize, AuthError>(0)
            } else {
                r == Err::<usize, AuthError>(AuthError::InvalidHash)
            },
        },
{
    match read_sunny_auth(data) {
        ReadAuth::More(n) => Ok(n),
        ReadAuth::WrongCommand => Err(AuthError::WrongCommand),
        ReadAuth::Hash(h) => {
            if bytes_eq(h.as_slice(), expected_hash) {
                Ok(0)
            } else {
                Err(AuthError::InvalidHash)
            }
        },
    }
}

/// A client that sends the hash it was configured with authenticates, and no other hash does.
pub proof fn law_auth_round_trip(hash: Seq<u8>, tail: Seq<u8>)
    requires
        hash.len() == 64,
    ensures
        auth_parse(auth_packet_bytes(hash) + tail) == ReadAuthView::Hash(hash),
{
    assert((auth_packet_bytes(hash) + tail).subrange(1, 65) =~= hash);
}

/// What reading the head of a request asks for next, given the bytes read so far.
#[derive(Debug)]
pub enum ReadHead {
    /// The head is not complete before this many bytes have been read in all.
    More(usize),
    /// The command and target, and how many bytes they took.
    Done(u8, TargetAddr, usize),
    /// An address has an unknown type byte.
    InvalidType(u8),
    /// A domain is not UTF-8.
    InvalidDomain,
}

/// The mathematical value of a [`ReadHead`].
pub enum ReadHeadView {
    More(int),
    Done(u8, TargetView, int),
    InvalidType(u8),
    InvalidDomain,
}

impl View for ReadHead {
    type V = ReadHeadView;

    open spec fn view(&self) -> ReadHeadView {
        match self {
            ReadHead::More(n) => ReadHeadView::More(*n as int),
            ReadHead::Done(c, t, n) => ReadHeadView::Done(*c, t@, *n as int),
            ReadHead::InvalidType(b) => ReadHeadView::InvalidType(*b),
            ReadHead::InvalidDomain => ReadHeadView::InvalidDomain,
        }
    }
}

/// The last step of reading a head: the target that starts at `at`.
pub open spec fn head_target(data: Seq<u8>, cmd: u8, at: int) -> ReadHeadView {
    match read_target(data.skip(at)) {
        ReadTargetView::More(n) => ReadHeadView::More(at + n),
        ReadTargetView::InvalidType(b) => ReadHeadView::InvalidType(b),
        ReadTargetView::InvalidDomain => ReadHeadView::InvalidDomain,
        ReadTargetView::Done(t, n) => ReadHeadView::Done(cmd, t, at + n),
    }
}

/// The step that reading a head takes after `data` has arrived. Extension requests carry no
/// target; UDP requests carry a placeholder before the real one.
pub open spec fn head_parse(data: Seq<u8>) -> ReadHeadView {
    if data.len() == 0 {
        ReadHeadView::More(1)
    } else if data[0] == 0xff {
        ReadHeadView::Done(0xff, dummy_target(), 1)
    } else if data[0] == 3 || data[0] == 4 {
        match read_target(data.skip(1)) {
            ReadTargetView::More(n) => ReadHeadView::More(1 + n),
            ReadTargetView::InvalidType(b) => ReadHeadView::InvalidType(b),
            ReadTargetView::InvalidDomain => ReadHeadView::InvalidDomain,
            ReadTargetView::Done(_, n) => head_target(data, data[0], 1 + n),
        }
    } else {
        head_target(data, data[0], 1)
    }
}

fn target_at(data: &[u8], cmd: u8, at: usize) -> (r: ReadHead)
    requires
        at <= data@.len(),
        at <= 0x1_0000,
    ensures
        r@ == head_target(data@, cmd, at as int),
{
    let rest = vstd::slice::slice_subrange(data, at, data.len());
    assert(rest@ =~= data@.skip(at as int));
    match TargetAddr::read_from(rest) {
        ReadTarget::More(n) => ReadHead::More(at + n),
        ReadTarget::InvalidType(b) => ReadHead::InvalidType(b),
        ReadTarget::InvalidDomain => ReadHead::InvalidDomain,
        ReadTarget::Done(t, n) => ReadHead::Done(cmd, t, at + n),
    }
}

/// Reads the head of a request off the bytes that a stream has delivered so far.
pub fn read_request_head(data: &[u8]) -> (r: ReadHead)
    ensures
        r@ == head_parse(data@),
{
    if data.len() == 0 {
        return ReadHead::More(1);
    }
    let cmd: u8 = data[0];
    if cmd == 0xff {
        return ReadHead::Done(cmd, TargetAddr::dummy(), 1);
    }
    if cmd == 3 || cmd == 4 {
        return match target_at(data, cmd, 1) {
            ReadHead::Done(_, _, n) => target_at(data, cmd, n),
            other => other,
        };
    }
    target_at(data, cmd, 1)
}

/// The head of a TCP request.
pub open spec fn tcp_head_bytes(target: TargetView) -> Seq<u8> {
    seq![1u8] + addr_bytes(socks_tags(), target)
}

/// Builds the head of a TCP request.
pub fn tcp_head(target: &TargetAddr) -> (out: Vec<u8>)
    ensures
        out@ == tcp_head_bytes(target@),
{
    let mut out: Vec<u8> = Vec::new();
    out.push(1);
    put_slice(&mut out, target.to_bytes().as_slice());
    assert(out@ =~= tcp_head_bytes(target@));
    out
}

/// How datagrams of a UDP session travel.
#[derive(Debug, Clone, Copy, PartialEq, Eq, Structural)]
pub enum UdpMode {
    OverDatagram,
    OverStream,
}

/// The head of a UDP request: the mode and a placeholder target. The real target follows with
/// its context id.
pub open spec fn udp_head_bytes(mode: UdpMode) -> Seq<u8> {
    seq![
        if mode == UdpMode::OverStream {
            4u8
        } else {
            3u8
        },
    ] + addr_bytes(socks_tags(), dummy_target())
}

/// Builds the head of a UDP request.
pub fn udp_head(mode: UdpMode) -> (out: Vec<u8>)
    ensures
        out@ == udp_head_bytes(mode),
{
    let mut out: Vec<u8> = Vec::new();
    out.push(
        if mode == UdpMode::OverStream {
            4
        } else {
            3
        },
    );
    put_slice(&mut out, TargetAddr::dummy().to_bytes().as_slice());
    assert(out@ =~= udp_head_bytes(mode));
    out
}

/// The message that announces under which id datagrams of a target travel.
pub open spec fn announce_bytes(target: TargetView, context_id: u16) -> Seq<u8> {
    addr_bytes(socks_tags(), target) + be2_bytes(context_id as int)
}

/// Builds the message that announces a context.
pub fn announce(target: &TargetAddr, context_id: u16) -> (out: Vec<u8>)
    ensures
        out@ == announce_bytes(target@, context_id),
{
    let mut out = target.to_bytes();
    put_u16(&mut out, context_id);
    out
}

/// What reading an announcement asks for next, given the bytes read so far.
#[derive(Debug)]
pub enum ReadAnnounce {
    More(usize),
    Done(u16, TargetAddr, usize),
    InvalidType(u8),
    InvalidDomain,
}

/// The mathematical value of a [`ReadAnnounce`].
pub enum ReadAnnounceView {
    More(int),
    Done(u16, TargetView, int),
    InvalidType(u8),
    InvalidDomain,
}

impl View for ReadAnnounce {
    type V = ReadAnnounceView;

    open spec fn view(&self) -> ReadAnnounceView {
        match self {
            ReadAnnounce::More(n) => ReadAnnounceView::More(*n as int),
            ReadAnnounce::Done(id, t, n) => ReadAnnounceView::Done(*id, t@, *n as int),
            ReadAnnounce::InvalidType(b) => ReadAnnounceView::InvalidType(*b),
            ReadAnnounce::InvalidDomain => ReadAnnounceView::InvalidDomain,
        }
    }
}

/// The step that reading an announcement takes after `data` has arrived.
pub open spec fn announce_parse(data: Seq<u8>) -> ReadAnnounceView {
    match read_target(data) {
        ReadTargetView::More(n) => ReadAnnounceView::More(n),
        ReadTargetView::InvalidType(b) => ReadAnnounceView::InvalidType(b),
        ReadTargetView::InvalidDomain => ReadAnnounceView::InvalidDomain,
        ReadTargetView::Done(t, n) => if data.len() < n + 2 {
            ReadAnnounceView::More(n + 2)
        } else {
            ReadAnnounceView::Done(be2(data.skip(n)) as u16, t, n + 2)
        },
    }
}

/// Reads a context announcement off the bytes that a stream has delivered so far.
pub fn read_addr_and_context_id(data: &[u8]) -> (r: ReadAnnounce)
    ensures
        r@ == announce_parse(data@),
{
    match TargetAddr::read_from(data) {
        ReadTarget::More(n) => ReadAnnounce::More(n),
        ReadTarget::InvalidType(b) => ReadAnnounce::InvalidType(b),
        ReadTarget::InvalidDomain => ReadAnnounce::InvalidDomain,
        ReadTarget::Done(t, n) => {
            if data.len() - n < 2 {
                return ReadAnnounce::More(n + 2);
            }
            ReadAnnounce::Done(get_u16(data, n), t, n + 2)
        },
    }
}

proof fn lemma_head_target(data: Seq<u8>, cmd: u8, at: int, target: TargetView, tail: Seq<u8>)
    requires
        wire_safe(target),
        data.skip(at) == addr_bytes(socks_tags(), target) + tail,
    ensures
        head_target(data, cmd, at) == ReadHeadView::Done(
            cmd,
            target,
            at + addr_bytes(socks_tags(), target).len(),
        ),
{
    law_target_read_back(target, tail, 0);
}

/// A TCP request reaches the server with the target that the client named.
pub proof fn law_tcp_request_round_trip(target: TargetView, tail: Seq<u8>)
    requires
        wire_safe(target),
    ensures
        head_parse(tcp_head_bytes(target) + tail) == ReadHeadView::Done(
            1,
            target,
            tcp_head_bytes(target).len() as int,
        ),
{
    let data = tcp_head_bytes(target) + tail;
    assert(data.skip(1) =~= addr_bytes(socks_tags(), target) + tail);
    lemma_head_target(data, 1, 1, target, tail);
}

/// An announced context reaches the peer with its address and id.
pub proof fn law_announce_round_trip(target: TargetView, context_id: u16, tail: Seq<u8>)
    requires
        wire_safe(target),
    ensures
        announce_parse(announce_bytes(target, context_id) + tail) == ReadAnnounceView::Done(
            context_id,
            target,
            announce_bytes(target, context_id).len() as int,
        ),
{
    let addr = addr_bytes(socks_tags(), target);
    let id_tail = be2_bytes(context_id as int) + tail;
    let data = announce_bytes(target, context_id) + tail;
    law_target_read_back(target, id_tail, 0);
    law_be2_round_trip(context_id as int, tail);
    assert(data =~= addr + id_tail);
    assert(data.skip(addr.len() as int) =~= id_tail);
}

/// A UDP request reaches the server with the target of the first announcement, which follows the
/// placeholder; what follows the head is that announcement's context id.
pub proof fn law_udp_request_round_trip(target: TargetView, mode: UdpMode, context_id: u16, tail: Seq<u8>)
    requires
        wire_safe(target),
    ensures
        head_parse(udp_head_bytes(mode) + announce_bytes(target, context_id) + tail)
            == ReadHeadView::Done(
            if mode == UdpMode::OverStream {
                4
            } else {
                3
            },
            target,
            (udp_head_bytes(mode).len() + addr_bytes(socks_tags(), target).len()) as int,
        ),
{
    let data = udp_head_bytes(mode) + announce_bytes(target, context_id) + tail;
    let dummy = addr_bytes(socks_tags(), dummy_target());
    let addr = addr_bytes(socks_tags(), target);
    let id_tail = be2_bytes(context_id as int) + tail;
    assert(data.skip(1) =~= dummy + (addr + id_tail));
    lemma_head_target(data, data[0], 1, dummy_target(), addr + id_tail);
    assert(data.skip(1int + dummy.len()) =~= addr + id_tail);
    lemma_head_target(data, data[0], 1int + dummy.len(), target, id_tail);
}

/// A request of the extension protocol.
#[derive(Debug, Clone, Copy, PartialEq, Eq, Structural)]
pub enum ExtensionRequest {
    /// Statistics of the connection.
    GetConnStats,
    /// User management, which is not available.
    UserExtension,
    /// Anything else.
    Unknown,
}

/// What reading an extension request asks for next: how many bytes in all, or the request.
#[derive(Debug, Clone, Copy, PartialEq, Eq, Structural)]
pub enum ReadExtension {
    More(usize),
    Done(ExtensionRequest),
}

/// The step that reading an extension request takes after `data` has arrived: an eight-byte
/// opcode, and one more byte where the opcode is about the connection.
pub open spec fn extension_parse(data: Seq<u8>) -> ReadExtension {
    if data.len() < 8 {
        ReadExtension::More(8)
    } else if be8(data) == 1 {
        if data.len() < 9 {
            ReadExtension::More(9)
        } else if data[8] == 0 {
            ReadExtension::Done(ExtensionRequest::GetConnStats)
        } else {
            ReadExtension::Done(ExtensionRequest::Unknown)
        }
    } else if be8(data) == 2 {
        ReadExtension::Done(ExtensionRequest::UserExtension)
    } else {
        ReadExtension::Done(ExtensionRequest::Unknown)
    }
}

/// Reads an extension request off the bytes that a stream has delivered so far.
pub fn read_extension_request(data: &[u8]) -> (r: ReadExtension)
    ensures
        r == extension_parse(data@),
{
    if data.len() < 8 {
        return ReadExtension::More(8);
    }
    assert(data@.skip(0) =~= data@);
    let opcode: u64 = get_u64(data, 0);
    if opcode == 1 {
        if data.len() < 9 {
            return ReadExtension::More(9);
        }
        return if data[8] == 0 {
            ReadExtension::Done(ExtensionRequest::GetConnStats)
        } else {
            ReadExtension::Done(ExtensionRequest::Unknown)
        };
    }
    if opcode == 2 {
        return ReadExtension::Done(ExtensionRequest::UserExtension);
    }
    ReadExtension::Done(ExtensionRequest::Unknown)
}

/// The request for connection statistics, without the command byte.
pub open spec fn stats_request_bytes() -> Seq<u8> {
    be8_bytes(1) + seq![0u8]
}

/// Builds the request for connection statistics, with the command byte.
pub fn stats_request() -> (out: Vec<u8>)
    ensures
        out@ == seq![0xffu8] + stats_request_bytes(),
{
    let mut out: Vec<u8> = Vec::new();
    out.push(0xff);
    put_u64(&mut out, 1);
    out.push(0);
    assert(out@ =~= seq![0xffu8] + stats_request_bytes());
    out
}

/// A request for connection statistics is understood as one.
pub proof fn law_stats_request_understood(tail: Seq<u8>)
    ensures
        extension_parse(stats_request_bytes() + tail) == ReadExtension::Done(
            ExtensionRequest::GetConnStats,
        ),
{
    crate::wire::law_be8_round_trip(1, seq![0u8] + tail);
    assert(stats_request_bytes() + tail =~= be8_bytes(1) + (seq![0u8] + tail));
}

/// The reply with connection statistics. The round-trip time is given by the bits of its
/// floating-point form.
pub open spec fn conn_stats_bytes(lost: u64, sent: u64, rtt_bits: u64, mtu: u16) -> Seq<u8> {
    seq![0u8] + be4_bytes(26) + be8_bytes(lost as int) + be8_bytes(sent as int) + be8_bytes(
        rtt_bits as int,
    ) + be2_bytes(mtu as int)
}

/// Builds the reply with connection statistics.
pub fn write_conn_stats_response(
    lost_packets: u64,
    sent_packets: u64,
    rtt_ms_bits: u64,
    current_mtu: u16,
) -> (out: Vec<u8>)
    ensures
        out@ == conn_stats_bytes(lost_packets, sent_packets, rtt_ms_bits, current_mtu),
{
    let mut out: Vec<u8> = Vec::new();
    out.push(0);
    put_u32(&mut out, 26);
    put_u64(&mut out, lost_packets);
    put_u64(&mut out, sent_packets);
    put_u64(&mut out, rtt_ms_bits);
    put_u16(&mut out, current_mtu);
    assert(out@ =~= conn_stats_bytes(lost_packets, sent_packets, rtt_ms_bits, current_mtu));
    out
}

/// Builds the reply that a request is not available.
pub fn write_ext_error_not_available() -> (out: Vec<u8>)
    ensures
        out@ == seq![1u8, 0u8],
{
    let mut out: Vec<u8> = Vec::new();
    out.push(1);
    out.push(0);
    assert(out@ =~= seq![1u8, 0u8]);
    out
}

/// Connection statistics as a peer reported them.
#[derive(Debug, Clone, Copy, PartialEq, Eq, Structural)]
pub struct ConnStats {
    pub lost_packets: u64,
    pub sent_packets: u64,
    pub rtt_ms_bits: u64,
    pub mtu: u16,
}

/// What reading the reply asks for next.
#[derive(Debug, Clone, Copy, PartialEq, Eq, Structural)]
pub enum ReadStats {
    More(usize),
    /// The peer reports an error.
    Refused(u8),
    Done(ConnStats),
}

/// The step that reading the reply takes after `data` has arrived.
pub open spec fn stats_parse(data: Seq<u8>) -> ReadStats {
    if data.len() == 0 {
        ReadStats::More(1)
    } else if data[0] != 0 {
        ReadStats::Refused(data[0])
    } else if data.len() < 31 {
        ReadStats::More(31)
    } else {
        ReadStats::Done(
            ConnStats {
                lost_packets: be8(data.skip(5)) as u64,
                sent_packets: be8(data.skip(13)) as u64,
                rtt_ms_bits: be8(data.skip(21)) as u64,
                mtu: be2(data.skip(29)) as u16,
            },
        )
    }
}

/// Reads the reply to a request for connection statistics.
pub fn read_conn_stats_response(data: &[u8]) -> (r: ReadStats)
    ensures
        r == stats_parse(data@),
{
    if data.len() == 0 {
        return ReadStats::More(1);
    }
    if data[0] != 0 {
        return ReadStats::Refused(data[0]);
    }
    if data.len() < 31 {
        return ReadStats::More(31);
    }
    ReadStats::Done(
        ConnStats {
            lost_packets: get_u64(data, 5),
            sent_packets: get_u64(data, 13),
            rtt_ms_bits: get_u64(data, 21),
            mtu: get_u16(data, 29),
        },
    )
}

/// The client reads the statistics that the server wrote.
pub proof fn law_stats_round_trip(lost: u64, sent: u64, rtt_bits: u64, mtu: u16, tail: Seq<u8>)
    ensures
        stats_parse(conn_stats_bytes(lost, sent, rtt_bits, mtu) + tail) == ReadStats::Done(
            ConnStats { lost_packets: lost, sent_packets: sent, rtt_ms_bits: rtt_bits, mtu },
        ),
{
    let data = conn_stats_bytes(lost, sent, rtt_bits, mtu) + tail;
    let t4 = be2_bytes(mtu as int) + tail;
    let t3 = be8_bytes(rtt_bits as int) + t4;
    let t2 = be8_bytes(sent as int) + t3;
    crate::wire::law_be8_round_trip(lost as int, t2);
    crate::wire::law_be8_round_trip(sent as int, t3);
    crate::wire::law_be8_round_trip(rtt_bits as int, t4);
    law_be2_round_trip(mtu as int, tail);
    assert(data.skip(5) =~= be8_bytes(lost as int) + t2);
    assert(data.skip(13) =~= t2);
    assert(data.skip(21) =~= t3);
    assert(data.skip(29) =~= t4);
}

/// A datagram on the connection: its context id and the payload.
pub open spec fn datagram_bytes(context_id: u16, payload: Seq<u8>) -> Seq<u8> {
    be2_bytes(context_id as int) + payload
}

/// Builds a datagram.
pub fn build_datagram(context_id: u16, payload: &[u8]) -> (out: Vec<u8>)
    ensures
        out@ == datagram_bytes(context_id, payload@),
{
    let mut out: Vec<u8> = Vec::new();
    put_u16(&mut out, context_id);
    put_slice(&mut out, payload);
    assert(out@ =~= datagram_bytes(context_id, payload@));
    out
}

/// A packet on a unidirectional stream: its length modulo 65536 and the payload.
pub open spec fn stream_packet_bytes(payload: Seq<u8>) -> Seq<u8> {
    be2_bytes(payload.len() as int % 0x1_0000) + payload
}

/// Builds a packet for a unidirectional stream.
pub fn build_stream_packet(payload: &[u8]) -> (out: Vec<u8>)
    ensures
        out@ == stream_packet_bytes(payload@),
{
    let mut out: Vec<u8> = Vec::new();
    put_u16(&mut out, (payload.len() % 0x1_0000) as u16);
    put_slice(&mut out, payload);
    assert(out@ =~= stream_packet_bytes(payload@));
    out
}

/// The step that reading a packet off a unidirectional stream takes: `Ok` with the payload and
/// the number of bytes taken, or how many bytes are needed in all.
pub open spec fn stream_packet_parse(data: Seq<u8>) -> Result<(Seq<u8>, int), int> {
    if data.len() < 2 {
        Err(2)
    } else if data.len() < 2 + be2(data) {
        Err(2 + be2(data))
    } else {
        Ok((data.subrange(2, 2 + be2(data)), 2 + be2(data)))
    }
}

/// Reads a packet off the bytes that a unidirectional stream has delivered so far.
pub fn read_stream_packet(data: &[u8]) -> (r: Result<(Vec<u8>, usize), usize>)
    ensures
        match r {
            Ok((p, n)) => stream_packet_parse(data@) == Ok::<(Seq<u8>, int), int>((p@, n as int)),
            Err(n) => stream_packet_parse(data@) == Err::<(Seq<u8>, int), int>(n as int),
        },
{
    if data.len() < 2 {
        return Err(2);
    }
    assert(data@.skip(0) =~= data@);
    let len: usize = get_u16(data, 0) as usize;
    if data.len() < 2 + len {
        return Err(2 + len);
    }
    Ok((copy_range(data, 2, 2 + len), 2 + len))
}

/// A packet of up to 65535 bytes comes out of the stream as it went in.
pub proof fn law_stream_packet_round_trip(payload: Seq<u8>, tail: Seq<u8>)
    requires
        payload.len() <= 65535,
    ensures
        stream_packet_parse(stream_packet_bytes(payload) + tail) == Ok::<(Seq<u8>, int), int>(
            (payload, stream_packet_bytes(payload).len() as int),
        ),
{
    let data = stream_packet_bytes(payload) + tail;
    law_be2_round_trip(payload.len() as int, payload + tail);
    assert(data =~= be2_bytes(payload.len() as int) + (payload + tail));
    assert(data.subrange(2, 2int + payload.len()) =~= payload);
}

/// A context: the session it belongs to and the address its datagrams are for.
#[derive(Debug)]
pub struct Binding {
    pub session: u64,
    pub target: TargetAddr,
}

/// The mathematical value of a [`Binding`].
pub struct BindingView {
    pub session: u64,
    pub target: TargetView,
}

impl View for Binding {
    type V = BindingView;

    open spec fn view(&self) -> BindingView {
        BindingView { session: self.session, target: self.target@ }
    }
}

impl Binding {
    /// A copy of the binding.
    pub fn copy(&self) -> (out: Binding)
        ensures
            out@ == self@,
    {
        Binding { session: self.session, target: self.target.copy() }
    }
}

/// What a context table holds: each context id with its binding.
pub uninterp spec fn contexts_in(table: DashMap<u16, Binding>) -> Map<u16, BindingView>;

/// A table without contexts.
pub open spec fn no_contexts() -> Map<u16, BindingView> {
    Map::empty()
}

/// Calls `DashMap::new`, which makes a map without entries.
#[verifier::external_body]
fn new_contexts() -> (table: DashMap<u16, Binding>)
    ensures
        contexts_in(table) == no_contexts(),
{
    DashMap::new()
}

/// Calls `DashMap::insert`, which sets the key's value whether or not the key was there.
#[verifier::external_body]
fn contexts_insert(table: &mut DashMap<u16, Binding>, id: u16, binding: Binding)
    ensures
        contexts_in(*final(table)) == contexts_in(*old(table)).insert(id, binding@),
{
    table.insert(id, binding);
}

/// Calls `DashMap::remove`, which takes the key's entry out if there is one.
#[verifier::external_body]
fn contexts_remove(table: &mut DashMap<u16, Binding>, id: u16)
    ensures
        contexts_in(*final(table)) == contexts_in(*old(table)).remove(id),
{
    table.remove(&id);
}

/// Calls `DashMap::get`, which finds the key's value.
#[verifier::external_body]
fn contexts_get(table: &DashMap<u16, Binding>, id: u16) -> (binding: Option<Binding>)
    ensures
        match binding {
            Some(b) => contexts_in(*table).contains_key(id) && contexts_in(*table)[id] == b@,
            None => !contexts_in(*table).contains_key(id),
        },
{
    table.get(&id).map(|entry| entry.value().copy())
}

/// What the owner of a connection has to do with a datagram.
#[derive(Debug)]
pub enum DatagramAction {
    /// Too short to carry anything: ignore it.
    Ignore,
    /// Hand the payload to the session, as coming from the address.
    Feed(u64, TargetAddr, Vec<u8>),
    /// Keep the payload until the context is announced; the flag says that nothing waits for that
    /// context yet, so a waiter has to be started.
    Park(u16, Vec<u8>, bool),
}

/// The mathematical value of a [`DatagramAction`].
pub enum DatagramView {
    Ignore,
    Feed(u64, TargetView, Seq<u8>),
    Park(u16, Seq<u8>, bool),
}

impl View for DatagramAction {
    type V = DatagramView;

    open spec fn view(&self) -> DatagramView {
        match self {
            DatagramAction::Ignore => DatagramView::Ignore,
            DatagramAction::Feed(s, t, p) => DatagramView::Feed(*s, t@, p@),
            DatagramAction::Park(id, p, new) => DatagramView::Park(*id, p@, *new),
        }
    }
}

/// What happens to a datagram, given the known contexts and those that something waits for.
pub open spec fn on_datagram(
    contexts: Map<u16, BindingView>,
    waiting: Seq<u16>,
    datagram: Seq<u8>,
) -> DatagramView {
    if datagram.len() <= 2 {
        DatagramView::Ignore
    } else {
        let id = be2(datagram) as u16;
        let payload = datagram.skip(2);
        if contexts.contains_key(id) {
            DatagramView::Feed(contexts[id].session, contexts[id].target, payload)
        } else {
            DatagramView::Park(id, payload, !waiting.contains(id))
        }
    }
}

/// The UDP contexts of one connection. `waiting` lists the contexts that datagrams wait for.
pub struct PerConnectionState {
    next_context_id: u32,
    contexts: DashMap<u16, Binding>,
    waiting: Vec<u16>,
}

impl PerConnectionState {
    /// The known contexts.
    pub closed spec fn contexts(self) -> Map<u16, BindingView> {
        contexts_in(self.contexts)
    }

    /// The contexts that datagrams wait for.
    pub closed spec fn waiting(self) -> Seq<u16> {
        self.waiting@
    }

    /// The id that the next context gets.
    pub closed spec fn next_id(self) -> u32 {
        self.next_context_id
    }

    /// A connection without contexts; ids start at 1.
    pub fn new() -> (s: PerConnectionState)
        ensures
            s.contexts() == no_contexts(),
            s.waiting() == Seq::<u16>::empty(),
            s.next_id() == 1,
    {
        PerConnectionState { next_context_id: 1, contexts: new_contexts(), waiting: Vec::new() }
    }

    /// Announces under which id a session's datagrams from or for an address come in. Whoever
    /// waits for the context can go on.
    pub fn bind_context_id(&mut self, session: u64, target: &TargetAddr, context_id: u16)
        ensures
            final(self).contexts() == old(self).contexts().insert(
                context_id,
                (BindingView { session, target: target@ }),
            ),
            final(self).waiting() == old(self).waiting(),
            final(self).next_id() == old(self).next_id(),
    {
        contexts_insert(&mut self.contexts, context_id, Binding { session, target: target.copy() });
    }

    /// Finds the address of a context, as a worker for its stream needs it.
    pub fn context(&self, context_id: u16) -> (r: Option<Binding>)
        ensures
            match r {
                Some(b) => self.contexts().contains_key(context_id) && self.contexts()[context_id]
                    == b@,
                None => !self.contexts().contains_key(context_id),
            },
    {
        contexts_get(&self.contexts, context_id)
    }

    /// Forgets the contexts that a session announced.
    pub fn clean(&mut self, announced: &Vec<u16>)
        ensures
            final(self).contexts() == old(self).contexts().remove_keys(announced@.to_set()),
            final(self).waiting() == old(self).waiting(),
            final(self).next_id() == old(self).next_id(),
    {
        let mut i: usize = 0;
        assert(old(self).contexts() =~= old(self).contexts().remove_keys(
            announced@.take(0).to_set(),
        ));
        while i < announced.len()
            invariant
                i <= announced@.len(),
                self.contexts() == old(self).contexts().remove_keys(
                    announced@.take(i as int).to_set(),
                ),
                self.waiting() == old(self).waiting(),
                self.next_id() == old(self).next_id(),
            decreases announced@.len() - i,
        {
            contexts_remove(&mut self.contexts, announced[i]);
            let ghost before = announced@.take(i as int);
            let ghost after = announced@.take(i + 1);
            assert(after =~= before.push(announced@[i as int]));
            assert forall|k: u16| after.to_set().contains(k) <==> (before.to_set().contains(k) || k
                == announced@[i as int]) by {
                if before.contains(k) {
                    let j = choose|j: int| 0 <= j < before.len() && before[j] == k;
                    assert(after[j] == k);
                }
                if k == announced@[i as int] {
                    assert(after[i as int] == k);
                }
                if after.contains(k) && k != announced@[i as int] {
                    let j = choose|j: int| 0 <= j < after.len() && after[j] == k;
                    assert(before[j] == k);
                }
            }
            assert(self.contexts() =~= old(self).contexts().remove_keys(after.to_set()));
            i += 1;
        }
        assert(announced@.take(announced@.len() as int) =~= announced@);
    }

    /// Handles a datagram of the connection. A context that is not known yet is noted as waited
    /// for.
    pub fn handle_datagram(&mut self, datagram: &[u8]) -> (action: DatagramAction)
        ensures
            action@ == on_datagram(old(self).contexts(), old(self).waiting(), datagram@),
            final(self).contexts() == old(self).contexts(),
            final(self).next_id() == old(self).next_id(),
            final(self).waiting() == match action@ {
                DatagramView::Park(id, _, true) => old(self).waiting().push(id),
                _ => old(self).waiting(),
            },
    {
        if datagram.len() <= 2 {
            return DatagramAction::Ignore;
        }
        assert(datagram@.skip(0) =~= datagram@);
        let id: u16 = get_u16(datagram, 0);
        let payload = copy_range(datagram, 2, datagram.len());
        assert(payload@ =~= datagram@.skip(2));
        if let Some(binding) = contexts_get(&self.contexts, id) {
            return DatagramAction::Feed(binding.session, binding.target, payload);
        }
        let mut i: usize = 0;
        while i < self.waiting.len()
            invariant
                i <= self.waiting@.len(),
                forall|k: int| 0 <= k < i ==> self.waiting@[k] != id,
                self.waiting@ == old(self).waiting@,
                self.contexts == old(self).contexts,
                self.next_context_id == old(self).next_context_id,
                !contexts_in(old(self).contexts).contains_key(id),
                datagram@.len() > 2,
                id == be2(datagram@),
                payload@ == datagram@.skip(2),
            decreases self.waiting@.len() - i,
        {
            if self.waiting[i] == id {
                assert(self.waiting@.contains(id));
                return DatagramAction::Park(id, payload, false);
            }
            i += 1;
        }
        self.waiting.push(id);
        DatagramAction::Park(id, payload, true)
    }

    /// The waiter for a context is done, with or without success.
    pub fn waiter_done(&mut self, context_id: u16)
        ensures
            final(self).contexts() == old(self).contexts(),
            final(self).next_id() == old(self).next_id(),
            forall|k: u16|
                #[trigger] final(self).waiting().contains(k) <==> old(self).waiting().contains(k)
                    && k != context_id,
    {
        let mut kept: Vec<u16> = Vec::new();
        let mut i: usize = 0;
        while i < self.waiting.len()
            invariant
                i <= self.waiting@.len(),
                *self == *old(self),
                forall|k: u16|
                    #[trigger] kept@.contains(k) <==> self.waiting@.take(i as int).contains(k) && k
                        != context_id,
            decreases self.waiting@.len() - i,
        {
            let w: u16 = self.waiting[i];
            let ghost before = kept@;
            let ghost seen = self.waiting@.take(i as int);
            let ghost now = self.waiting@.take(i + 1);
            assert(now =~= seen.push(w));
            if w != context_id {
                kept.push(w);
            }
            assert forall|k: u16| #[trigger]
                kept@.contains(k) <==> now.contains(k) && k != context_id by {
                broadcast use vstd::seq_lib::group_seq_properties;

                assert(before.contains(k) <==> seen.contains(k) && k != context_id);
            }
            i += 1;
        }
        assert(self.waiting@.take(self.waiting@.len() as int) =~= self.waiting@);
        self.waiting = kept;
    }

    /// Takes the next context id. Ids count up and are never given out again: once all are used,
    /// there is none.
    pub fn take_context_id(&mut self) -> (id: Option<u16>)
        ensures
            id == id_given(old(self).next_id()),
            final(self).next_id() == next_after(old(self).next_id()),
            final(self).contexts() == old(self).contexts(),
            final(self).waiting() == old(self).waiting(),
            id is None ==> *final(self) == *old(self),
    {
        let id: u32 = self.next_context_id;
        if id > 0xffff {
            return None;
        }
        self.next_context_id = id + 1;
        Some(id as u16)
    }

    /// How many ids have been handed out, as far as the counter tells.
    pub fn used_context_ids(&self) -> (n: u32)
        ensures
            n == self.next_id(),
    {
        self.next_context_id
    }
}

/// The id that is given out where the counter stands there: ids have 16 bits.
pub open spec fn id_given(next: u32) -> Option<u16> {
    if next <= 0xffff {
        Some(next as u16)
    } else {
        None
    }
}

/// Where the counter stands after an id was asked for.
pub open spec fn next_after(next: u32) -> u32 {
    if next <= 0xffff {
        (next + 1) as u32
    } else {
        next
    }
}

/// The counter of a connection over time: at each step an id is asked for, or something else is
/// done, which leaves the counter as it is.
pub open spec fn counter_history(counters: Seq<u32>, asked: Seq<bool>) -> bool {
    &&& counters.len() == asked.len()
    &&& forall|k: int|
        0 <= k < counters.len() - 1 ==> counters[k + 1] == if #[trigger] asked[k] {
            next_after(counters[k])
        } else {
            counters[k]
        }
}

proof fn lemma_counter_grows(counters: Seq<u32>, asked: Seq<bool>, i: int, j: int)
    requires
        counter_history(counters, asked),
        0 <= i <= j < counters.len(),
    ensures
        counters[i] <= counters[j],
    decreases j - i,
{
    if i < j {
        lemma_counter_grows(counters, asked, i, j - 1);
        let step = asked[j - 1];
        assert(counters[j - 1 + 1] == counters[j]);
    }
}

/// No context id is given out twice on a connection, whatever happens between the two times that
/// one is asked for.
pub proof fn law_context_ids_are_not_reused(
    counters: Seq<u32>,
    asked: Seq<bool>,
    i: int,
    j: int,
)
    requires
        counter_history(counters, asked),
        0 <= i < j < counters.len(),
        asked[i],
        asked[j],
        id_given(counters[i]) is Some,
        id_given(counters[j]) is Some,
    ensures
        id_given(counters[i]) != id_given(counters[j]),
{
    lemma_counter_grows(counters, asked, i + 1, j);
}

/// Whether a connection has room for another UDP session: its id counter, which is never turned
/// back, has to stay clear of the end by `margin`.
pub open spec fn has_context_capacity(used: u32, margin: u32) -> bool {
    used < 65535 - margin
}

/// Whether a connection has room for another UDP session.
pub fn context_capacity(used: u32, margin: u32) -> (r: bool)
    ensures
        r == has_context_capacity(used, margin),
{
    margin < 65535 && used < 65535 - margin
}

/// A datagram reaches the session that announced its context, with the address that was
/// announced and the payload that was sent.
pub proof fn law_datagram_reaches_its_session(
    contexts: Map<u16, BindingView>,
    waiting: Seq<u16>,
    session: u64,
    target: TargetView,
    context_id: u16,
    payload: Seq<u8>,
)
    requires
        payload.len() > 0,
    ensures
        on_datagram(
            contexts.insert(context_id, BindingView { session, target }),
            waiting,
            datagram_bytes(context_id, payload),
        ) == DatagramView::Feed(session, target, payload),
{
    law_be2_round_trip(context_id as int, payload);
    assert(datagram_bytes(context_id, payload).skip(2) =~= payload);
}

/// The contexts that one UDP session sends under: each address has one.
#[derive(Debug)]
pub struct SenderTable {
    entries: Vec<(TargetAddr, u16)>,
}

impl View for SenderTable {
    type V = Seq<(TargetView, u16)>;

    closed spec fn view(&self) -> Seq<(TargetView, u16)> {
        self.entries@.map_values(|e: (TargetAddr, u16)| (e.0@, e.1))
    }
}

/// The id under which an address is listed from the `i`-th entry on.
pub open spec fn sender_id(entries: Seq<(TargetView, u16)>, i: int, target: TargetView) -> Option<u16>
    decreases entries.len() - i,
{
    if i < 0 || i >= entries.len() {
        None
    } else if entries[i].0 == target {
        Some(entries[i].1)
    } else {
        sender_id(entries, i + 1, target)
    }
}

impl SenderTable {
    /// A table without contexts.
    pub fn new() -> (t: SenderTable)
        ensures
            t@ == Seq::<(TargetView, u16)>::empty(),
    {
        let t = SenderTable { entries: Vec::new() };
        assert(t@ =~= Seq::<(TargetView, u16)>::empty());
        t
    }

    fn find(&self, target: &TargetAddr) -> (r: Option<u16>)
        ensures
            r == sender_id(self@, 0, target@),
    {
        let mut i: usize = 0;
        while i < self.entries.len()
            invariant
                i <= self.entries@.len(),
                sender_id(self@, 0, target@) == sender_id(self@, i as int, target@),
            decreases self.entries@.len() - i,
        {
            assert(self@[i as int] == (self.entries@[i as int].0@, self.entries@[i as int].1));
            if self.entries[i].0.same(target) {
                return Some(self.entries[i].1);
            }
            i += 1;
        }
        None
    }

    /// The context that datagrams for an address travel under. The flag says that the context is
    /// new and has to be announced. There is none where a new one is needed and the ids of the
    /// connection are used up: the connection then has to be closed.
    pub fn get_send_context_id(
        &mut self,
        target: &TargetAddr,
        ids: &mut PerConnectionState,
    ) -> (r: Option<(u16, bool)>)
        ensures
            match (sender_id(old(self)@, 0, target@), id_given(old(ids).next_id())) {
                (Some(id), _) => {
                    &&& r == Some((id, false))
                    &&& final(self)@ == old(self)@
                    &&& *final(ids) == *old(ids)
                },
                (None, Some(id)) => {
                    &&& r == Some((id, true))
                    &&& final(self)@ == old(self)@.push((target@, id))
                    &&& final(ids).next_id() == next_after(old(ids).next_id())
                    &&& final(ids).contexts() == old(ids).contexts()
                    &&& final(ids).waiting() == old(ids).waiting()
                },
                (None, None) => {
                    &&& r is None
                    &&& final(self)@ == old(self)@
                    &&& *final(ids) == *old(ids)
                },
            },
    {
        if let Some(id) = self.find(target) {
            return Some((id, false));
        }
        match ids.take_context_id() {
            None => None,
            Some(id) => {
                self.entries.push((target.copy(), id));
                assert(self@ =~= old(self)@.push((target@, id)));
                Some((id, true))
            },
        }
    }
}

proof fn lemma_sender_id_push(entries: Seq<(TargetView, u16)>, i: int, target: TargetView, id: u16)
    requires
        0 <= i <= entries.len(),
        sender_id(entries, i, target) is None,
    ensures
        sender_id(entries.push((target, id)), i, target) == Some(id),
    decreases entries.len() - i,
{
    if i < entries.len() {
        lemma_sender_id_push(entries, i + 1, target, id);
    }
}

/// An address keeps the context that it was given: asking again gives the same id and announces
/// nothing.
pub proof fn law_send_context_is_stable(entries: Seq<(TargetView, u16)>, target: TargetView, id: u16)
    requires
        sender_id(entries, 0, target) is None,
    ensures
        sender_id(entries.push((target, id)), 0, target) == Some(id),
{
    lemma_sender_id_push(entries, 0, target, id);
}

/// The address whose context a packet travels under: clients go by where it is going, servers by
/// where it came from.
pub fn context_address(is_client: bool, from: &TargetAddr, target: &TargetAddr) -> (out: TargetAddr)
    ensures
        out@ == if is_client {
            target@
        } else {
            from@
        },
{
    if is_client {
        target.copy()
    } else {
        from.copy()
    }
}

/// The two ends of a received packet: a client sees the announced address as the source; a server
/// sees the connection's peer as the source and the announced address as the destination.
pub fn packet_ends(is_client: bool, announced: &TargetAddr, peer: &TargetAddr) -> (r: (
    TargetAddr,
    TargetAddr,
))
    ensures
        (r.0@, r.1@) == if is_client {
            (announced@, dummy_target())
        } else {
            (peer@, announced@)
        },
{
    if is_client {
        (announced.copy(), TargetAddr::dummy())
    } else {
        (peer.copy(), announced.copy())
    }
}

/// A request to connect begins with 1, one for packets with 3 or 4 as they travel in datagrams or in
/// streams, and an authentication with 5; an extension request is told by 255 alone.
pub proof fn law_request_commands(target: TargetView, hash: Seq<u8>, data: Seq<u8>)
    ensures
        tcp_head_bytes(target)[0] == 1,
        tcp_head_bytes(target).skip(1) == addr_bytes(socks_tags(), target),
        udp_head_bytes(UdpMode::OverDatagram)[0] == 3,
        udp_head_bytes(UdpMode::OverStream)[0] == 4,
        auth_packet_bytes(hash)[0] == 5,
        auth_packet_bytes(hash).skip(1) == hash,
        data.len() > 0 && data[0] == 255 ==> (head_parse(data) matches ReadHeadView::Done(cmd, _, used)
            && cmd == 255 && used == 1),
{
    assert(tcp_head_bytes(target).skip(1) =~= addr_bytes(socks_tags(), target));
    assert(auth_packet_bytes(hash).skip(1) =~= hash);
}

/// An authentication is 65 bytes: less is waited for, and another command is none.
pub proof fn law_part_of_an_authentication(hash: Seq<u8>, got: int, data: Seq<u8>)
    requires
        hash.len() == 64,
        0 <= got < 65,
    ensures
        auth_parse(auth_packet_bytes(hash).take(got)) matches ReadAuthView::More(n) && got < n <= 65,
        data.len() > 0 && data[0] != 5 ==> auth_parse(data) == ReadAuthView::WrongCommand,
{
}

/// A part of a request is waited for, and no more is asked for than the request has.
pub proof fn law_part_of_a_request_is_waited_for(target: TargetView, context_id: u16, got: int)
    requires
        wire_safe(target),
        0 <= got,
    ensures
        got < tcp_head_bytes(target).len() ==> (head_parse(tcp_head_bytes(target).take(got)) matches
            ReadHeadView::More(n) && got < n <= tcp_head_bytes(target).len()),
        got < announce_bytes(target, context_id).len() ==> (announce_parse(
            announce_bytes(target, context_id).take(got),
        ) matches ReadAnnounceView::More(n) && got < n <= announce_bytes(target, context_id).len()),
{
    let addr = addr_bytes(socks_tags(), target);
    let head = tcp_head_bytes(target);
    if 0 < got < head.len() {
        law_target_read_back(target, Seq::empty(), got - 1);
        assert(head.take(got).skip(1) =~= addr.take(got - 1));
        assert(head.take(got)[0] == 1);
    }
    let all = announce_bytes(target, context_id);
    if got < all.len() {
        if got < addr.len() {
            law_target_read_back(target, Seq::empty(), got);
            assert(all.take(got) =~= addr.take(got));
        } else {
            law_target_read_back(target, all.take(got).skip(addr.len() as int), 0);
            assert(all.take(got) =~= addr + all.take(got).skip(addr.len() as int));
        }
    }
}

/// A datagram goes to the session that announced its context, and to no other; one whose context is not
/// announced yet is kept, and the first such one starts the waiting. A datagram without a payload is
/// dropped.
pub proof fn law_datagrams_are_sorted_by_context(
    contexts: Map<u16, BindingView>,
    waiting: Seq<u16>,
    context_id: u16,
    payload: Seq<u8>,
)
    ensures
        payload.len() == 0 ==> on_datagram(contexts, waiting, datagram_bytes(context_id, payload))
            is Ignore,
        payload.len() > 0 && contexts.contains_key(context_id) ==> on_datagram(
            contexts,
            waiting,
            datagram_bytes(context_id, payload),
        ) == DatagramView::Feed(contexts[context_id].session, contexts[context_id].target, payload),
        payload.len() > 0 && !contexts.contains_key(context_id) ==> on_datagram(
            contexts,
            waiting,
            datagram_bytes(context_id, payload),
        ) == DatagramView::Park(context_id, payload, !waiting.contains(context_id)),
{
    law_be2_round_trip(context_id as int, payload);
    assert(datagram_bytes(context_id, payload).skip(2) =~= payload);
}

/// Context ids are given out one after the other, from 1 to the last that two bytes hold.
pub proof fn law_every_context_id_is_given_once(next: u32)
    requires
        1 <= next <= 65536,
    ensures
        next <= 65535 ==> (id_given(next) matches Some(id) && id == next) && next_after(next) == next
            + 1,
        next == 65536 ==> id_given(next) is None && next_after(next) == next,
{
}

/// A connection takes new sessions while its used ids and the margin together stay below 65535.
pub proof fn law_capacity(used: u32, margin: u32)
    ensures
        has_context_capacity(used, margin) <==> used + margin < 65535,
{
}

/// Each address is sent to under the first context that was opened for it, and opening one for another
/// address changes nothing for it.
pub proof fn law_contexts_of_addresses(
    entries: Seq<(TargetView, u16)>,
    target: TargetView,
    other: TargetView,
    id: u16,
    i: int,
)
    requires
        0 <= i <= entries.len(),
        other != target,
    ensures
        sender_id(entries.push((other, id)), i, target) == sender_id(entries, i, target),
        sender_id(entries, i, target) is None <==> forall|k: int|
            i <= k < entries.len() ==> (#[trigger] entries[k]).0 != target,
        sender_id(entries, i, target) matches Some(found) ==> exists|k: int|
            i <= k < entries.len() && #[trigger] entries[k] == (target, found) && forall|j: int|
                i <= j < k ==> (#[trigger] entries[j]).0 != target,
    decreases entries.len() - i,
{
    let more = entries.push((other, id));
    if i < entries.len() {
        law_contexts_of_addresses(entries, target, other, id, i + 1);
        assert(more[i] == entries[i]);
        if entries[i].0 == target {
            assert(entries[i] == (target, entries[i].1));
        } else if sender_id(entries, i + 1, target) is Some {
            let found = sender_id(entries, i + 1, target)->0;
            let k = choose|k: int|
                i + 1 <= k < entries.len() && #[trigger] entries[k] == (target, found) && forall|j: int|
                    i + 1 <= j < k ==> (#[trigger] entries[j]).0 != target;
            assert(entries[k] == (target, found));
            assert forall|j: int| i <= j < k implies (#[trigger] entries[j]).0 != target by {}
        }
    } else {
        assert(more[i] == (other, id));
        assert(sender_id(more, i + 1, target) is None);
    }
}

/// An extension request of eight bytes and, for the statistics, one more: 1 and 0 ask for them, 2 is a
/// user's own, anything else is unknown; less is waited for.
pub proof fn law_extension_requests(n: u64, kind: u8, tail: Seq<u8>, part: Seq<u8>)
    ensures
        n == 1 && kind == 0 ==> extension_parse(be8_bytes(n as int) + seq![kind] + tail)
            == ReadExtension::Done(ExtensionRequest::GetConnStats),
        n == 1 && kind != 0 ==> extension_parse(be8_bytes(n as int) + seq![kind] + tail)
            == ReadExtension::Done(ExtensionRequest::Unknown),
        n == 2 ==> extension_parse(be8_bytes(n as int) + seq![kind] + tail) == ReadExtension::Done(
            ExtensionRequest::UserExtension,
        ),
        n != 1 && n != 2 ==> extension_parse(be8_bytes(n as int) + seq![kind] + tail)
            == ReadExtension::Done(ExtensionRequest::Unknown),
        part.len() < 8 ==> (extension_parse(part) matches ReadExtension::More(m) && m == 8),
        extension_parse(be8_bytes(1)) matches ReadExtension::More(m) && m == 9,
{
    law_be8_round_trip(n as int, seq![kind] + tail);
    assert(be8_bytes(n as int) + seq![kind] + tail =~= be8_bytes(n as int) + (seq![kind] + tail));
    law_be8_round_trip(1, Seq::empty());
    assert(be8_bytes(1) + Seq::<u8>::empty() =~= be8_bytes(1));
}

/// A refusal is told from statistics by the first byte, and a part of either is waited for.
pub proof fn law_statistics_answers(data: Seq<u8>)
    ensures
        data.len() == 0 ==> (stats_parse(data) matches ReadStats::More(n) && n == 1),
        data.len() > 0 && data[0] != 0 ==> stats_parse(data) == ReadStats::Refused(data[0]),
        0 < data.len() < 31 && data[0] == 0 ==> (stats_parse(data) matches ReadStats::More(n) && n == 31),
{
}

/// A part of a packet in a stream is waited for.
pub proof fn law_part_of_a_stream_packet(payload: Seq<u8>, got: int)
    requires
        payload.len() <= 65535,
        0 <= got < 2 + payload.len(),
    ensures
        stream_packet_parse(stream_packet_bytes(payload).take(got)) matches Err(n) && got < n <= 2
            + payload.len(),
{
    let all = stream_packet_bytes(payload);
    law_be2_round_trip(payload.len() as int, payload);
    if got >= 2 {
        assert(be2(all.take(got)) == be2(all));
    }
}

/// The hash that a user authenticates with: the digest of both names with a colon between them, filled
/// up with zeros to 64 bytes.
pub proof fn law_authentication_hash(username: Seq<char>, password: Seq<char>)
    ensures
        sunny_hash(username, password).len() == sha256_of(
            encode_utf8(username.push(':') + password),
        ).len() + 32,
        forall|i: int|
            sunny_hash(username, password).len() - 32 <= i < sunny_hash(username, password).len()
                ==> #[trigger] sunny_hash(username, password)[i] == 0,
        sunny_hash(username, password).take(sunny_hash(username, password).len() - 32) == sha256_of(
            encode_utf8(username.push(':') + password),
        ),
{
    let digest = sha256_of(encode_utf8(username.push(':') + password));
    assert(username.push(':') + password =~= username + seq![':'] + password);
    assert(sunny_hash(username, password).take(digest.len() as int) =~= digest);
}

} // verus!
