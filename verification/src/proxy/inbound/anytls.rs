//! The server side of AnyTLS: the opening handshake and the multiplexed streams of a session.

use crate::config::{opt_text, secs_or, InboundConfig};
use crate::crypto::{sha256, sha256_of};
use crate::ip::{parse_socket_addr, socket_addr_of};
use crate::proxy::addr::{
    addr_bytes, addr_parse, host_port_text, law_addr_round_trip, socks_tags, wire_safe, IpAddr,
    SocketAddr, TargetAddr, TargetView,
};
use crate::proxy::anytls_proto::{
    build_frame, frame_bytes, frame_parse, law_frame_round_trip, read_frame, socksaddr_decode_target,
    Command, ReadFrame, ReadFrameView,
};
use crate::proxy::tls::{
    inbound_jls_incomplete, serves_tls, verify_jls_connection, IncompleteJls, JlsState, TlsConfig,
};
use crate::text::{
    chars_of, copy_text, dec_text, find_char, find_from, is_digit, is_white_space,
    law_decimal_round_trip, law_only_numbers_are_read, lemma_dec_text, lemma_find_char, lossy_utf8,
    parse_decimal, parse_uint, push_decimal, push_text, str_eq, trim, trim_end, trim_start, trimmed,
    utf8_text, utf8_text_lossy,
};
use crate::time::{secs, Duration};
use crate::wire::{
    be2, be2_bytes, bytes_eq, copy_range, get_u128, get_u16, get_u32, law_be2_round_trip,
    law_be4_round_trip,
};
use dashmap::DashMap;
use vstd::prelude::*;
use vstd::utf8::{encode_utf8, encode_utf8_valid_utf8, valid_utf8};

verus! {

/// The version that one line of a settings text announces.
pub open spec fn line_version(line: Seq<char>) -> Option<u8> {
    let at = find_char(line, '=');
    if at < line.len() && trim(line.take(at)) == seq!['v'] {
        Some(
            match parse_uint(trim(line.skip(at + 1)), 255) {
                Some(v) => v as u8,
                None => 1u8,
            },
        )
    } else {
        None
    }
}

/// The version that a settings text announces: that of the first line whose key is `v`, and 1
/// where there is none or its value is no number.
pub open spec fn settings_version(text: Seq<char>) -> u8
    decreases text.len(),
{
    let end = find_char(text, '\n');
    if 0 <= end < text.len() {
        match line_version(text.take(end)) {
            Some(v) => v,
            None => settings_version(text.skip(end + 1)),
        }
    } else {
        match line_version(text) {
            Some(v) => v,
            None => 1,
        }
    }
}

fn version_of_line(chars: &[char], from: usize, to: usize) -> (v: Option<u8>)
    requires
        from <= to <= chars@.len(),
    ensures
        v == line_version(chars@.subrange(from as int, to as int)),
{
    let at: usize = find_from(chars, from, to, '=');
    if at == to {
        return None;
    }
    let ghost line = chars@.subrange(from as int, to as int);
    assert(line.take(at - from) =~= chars@.subrange(from as int, at as int));
    assert(line.skip(at - from + 1) =~= chars@.subrange(at + 1, to as int));
    let key = trimmed(chars, from, at);
    proof {
        reveal_strlit("v");
        assert("v"@ =~= seq!['v']);
    }
    if !str_eq(key.as_str(), "v") {
        return None;
    }
    let value = trimmed(chars, at + 1, to);
    match parse_decimal(value.as_str(), 255) {
        Some(v) => Some(v as u8),
        None => Some(1),
    }
}

/// The protocol version that a client announces in its settings.
pub fn parse_version(data: &[u8]) -> (v: u8)
    ensures
        v == settings_version(lossy_utf8(data@)),
{
    let text = utf8_text_lossy(data);
    let chars = chars_of(text.as_str());
    let mut at: usize = 0;
    assert(chars@.skip(0) =~= chars@);
    loop
        invariant
            at <= chars@.len(),
            chars@ == lossy_utf8(data@),
            settings_version(chars@) == settings_version(chars@.skip(at as int)),
        decreases chars@.len() - at,
    {
        let end: usize = find_from(chars.as_slice(), at, chars.len(), '\n');
        let ghost rest = chars@.skip(at as int);
        assert(rest =~= chars@.subrange(at as int, chars@.len() as int));
        assert(rest.take(end - at) =~= chars@.subrange(at as int, end as int));
        match version_of_line(chars.as_slice(), at, end) {
            Some(v) => {
                assert(end == chars@.len() ==> rest.take(end - at) =~= rest);
                return v;
            },
            None => {
                if end == chars.len() {
                    assert(rest.take(end - at) =~= rest);
                    return 1;
                }
                assert(rest.skip(end - at + 1) =~= chars@.skip(end + 1));
                at = end + 1;
            },
        }
    }
}

/// Why the target of a new stream could not be read.
#[derive(Debug, Clone, Copy, PartialEq, Eq, Structural)]
pub enum SynError {
    Empty,
    Ipv4TooShort,
    DomainTooShort,
    Ipv6TooShort,
    InvalidDomain,
    UnsupportedType(u8),
}

/// What [`parse_target_from_syn`] returns.
pub open spec fn syn_target(data: Seq<u8>) -> Result<TargetView, SynError> {
    if data.len() == 0 {
        Err(SynError::Empty)
    } else if data[0] == 1 {
        if data.len() < 7 {
            Err(SynError::Ipv4TooShort)
        } else {
            Ok(addr_parse(socks_tags(), data)->Ok_0.0)
        }
    } else if data[0] == 3 {
        if data.len() < 2 || data.len() < 4 + data[1] {
            Err(SynError::DomainTooShort)
        } else if !valid_utf8(data.subrange(2, 2 + data[1])) {
            Err(SynError::InvalidDomain)
        } else {
            Ok(addr_parse(socks_tags(), data)->Ok_0.0)
        }
    } else if data[0] == 4 {
        if data.len() < 19 {
            Err(SynError::Ipv6TooShort)
        } else {
            Ok(addr_parse(socks_tags(), data)->Ok_0.0)
        }
    } else {
        Err(SynError::UnsupportedType(data[0]))
    }
}

/// Reads the target in a stream's first payload: an address in SOCKS5 form. What follows the
/// address is ignored.
pub fn parse_target_from_syn(data: &[u8]) -> (r: Result<TargetAddr, SynError>)
    ensures
        match r {
            Ok(t) => syn_target(data@) == Ok::<TargetView, SynError>(t@),
            Err(e) => syn_target(data@) == Err::<TargetView, SynError>(e),
        },
{
    if data.len() == 0 {
        return Err(SynError::Empty);
    }
    match data[0] {
        1 => {
            if data.len() < 7 {
                return Err(SynError::Ipv4TooShort);
            }
            let ip = IpAddr::V4(get_u32(data, 1));
            Ok(TargetAddr::Ip(SocketAddr { ip, port: get_u16(data, 5), scope_id: 0 }))
        },
        3 => {
            if data.len() < 2 {
                return Err(SynError::DomainTooShort);
            }
            let len: usize = data[1] as usize;
            if data.len() < 4 + len {
                return Err(SynError::DomainTooShort);
            }
            match utf8_text(copy_range(data, 2, 2 + len)) {
                Some(domain) => Ok(TargetAddr::Domain(domain, get_u16(data, 2 + len))),
                None => Err(SynError::InvalidDomain),
            }
        },
        4 => {
            if data.len() < 19 {
                return Err(SynError::Ipv6TooShort);
            }
            let ip = IpAddr::V6(get_u128(data, 1));
            Ok(TargetAddr::Ip(SocketAddr { ip, port: get_u16(data, 17), scope_id: 0 }))
        },
        other => Err(SynError::UnsupportedType(other)),
    }
}

/// A target that a client writes with `to_bytes` is the target that the server reads.
pub proof fn law_syn_target_round_trip(target: TargetView, tail: Seq<u8>)
    requires
        wire_safe(target),
    ensures
        syn_target(addr_bytes(socks_tags(), target) + tail) == Ok::<TargetView, SynError>(target),
{
    let data = addr_bytes(socks_tags(), target) + tail;
    law_addr_round_trip(socks_tags(), target, tail);
    if let TargetView::Domain(domain, port) = target {
        assert(data.subrange(2, 2 + data[1]) =~= encode_utf8(domain));
        encode_utf8_valid_utf8(domain);
    }
}

/// Where one multiplexed stream stands.
#[derive(Debug)]
pub enum StreamState {
    /// Opened; its first payload names the target.
    Pending,
    /// A UDP-over-TCP stream whose request header has not arrived yet.
    WaitingUotRequest(TargetAddr),
    /// Connected: payloads are forwarded.
    Active,
}

/// The mathematical value of a [`StreamState`].
pub enum StreamPhase {
    Pending,
    WaitingUotRequest(TargetView),
    Active,
}

impl View for StreamState {
    type V = StreamPhase;

    open spec fn view(&self) -> StreamPhase {
        match self {
            StreamState::Pending => StreamPhase::Pending,
            StreamState::WaitingUotRequest(t) => StreamPhase::WaitingUotRequest(t@),
            StreamState::Active => StreamPhase::Active,
        }
    }
}

impl StreamState {
    /// A copy of the state.
    pub fn copy(&self) -> (out: StreamState)
        ensures
            out@ == self@,
    {
        match self {
            StreamState::Pending => StreamState::Pending,
            StreamState::WaitingUotRequest(t) => StreamState::WaitingUotRequest(t.copy()),
            StreamState::Active => StreamState::Active,
        }
    }
}

/// `dashmap::DashMap`, a hash map.
#[verifier::external_type_specification]
#[verifier::external_body]
#[verifier::reject_recursive_types(K)]
#[verifier::reject_recursive_types(V)]
#[verifier::reject_recursive_types(S)]
pub struct ExDashMap<K, V, S>(DashMap<K, V, S>);

/// What a stream table holds: each stream id with its state.
pub uninterp spec fn streams_in(table: DashMap<u32, StreamState>) -> Map<u32, StreamPhase>;

/// A table without streams.
pub open spec fn no_streams() -> Map<u32, StreamPhase> {
    Map::empty()
}

/// Calls `DashMap::new`, which makes a map without entries.
#[verifier::external_body]
fn new_table() -> (table: DashMap<u32, StreamState>)
    ensures
        streams_in(table) == no_streams(),
{
    DashMap::new()
}

/// Calls `DashMap::insert`, which sets the key's value whether or not the key was there.
#[verifier::external_body]
fn table_insert(table: &mut DashMap<u32, StreamState>, id: u32, state: StreamState)
    ensures
        streams_in(*final(table)) == streams_in(*old(table)).insert(id, state@),
{
    table.insert(id, state);
}

/// Calls `DashMap::remove`, which takes the key's entry out if there is one.
#[verifier::external_body]
fn table_remove(table: &mut DashMap<u32, StreamState>, id: u32)
    ensures
        streams_in(*final(table)) == streams_in(*old(table)).remove(id),
{
    table.remove(&id);
}

/// Calls `DashMap::get`, which finds the key's value.
#[verifier::external_body]
fn table_get(table: &DashMap<u32, StreamState>, id: u32) -> (state: Option<StreamState>)
    ensures
        match state {
            Some(s) => streams_in(*table).contains_key(id) && streams_in(*table)[id] == s@,
            None => !streams_in(*table).contains_key(id),
        },
{
    table.get(&id).map(|entry| entry.value().copy())
}

/// Calls `DashMap::clear`, which removes every entry.
#[verifier::external_body]
fn table_clear(table: &mut DashMap<u32, StreamState>)
    ensures
        streams_in(*final(table)) == no_streams(),
{
    table.clear();
}

/// What the session's owner has to do after a frame.
#[derive(Debug)]
pub enum SessionAction {
    /// Nothing.
    Idle,
    /// Queue an empty frame for the peer.
    Send(u32, Command),
    /// Open a TCP stream to the target and hand it to the router.
    OpenTcp(u32, TargetAddr),
    /// Open a UDP session and hand it to the router. The flag says whether packets leave out the
    /// address; the bytes are what already arrived of the first packets.
    OpenUdp(u32, bool, TargetAddr, Vec<u8>),
    /// Pass the payload to the stream.
    Deliver(u32, Vec<u8>),
    /// The peer gave up: end the session.
    End,
}

/// The mathematical value of a [`SessionAction`].
pub enum ActionView {
    Idle,
    Send(u32, Command),
    OpenTcp(u32, TargetView),
    OpenUdp(u32, bool, TargetView, Seq<u8>),
    Deliver(u32, Seq<u8>),
    End,
}

impl View for SessionAction {
    type V = ActionView;

    open spec fn view(&self) -> ActionView {
        match self {
            SessionAction::Idle => ActionView::Idle,
            SessionAction::Send(id, cmd) => ActionView::Send(*id, *cmd),
            SessionAction::OpenTcp(id, t) => ActionView::OpenTcp(*id, t@),
            SessionAction::OpenUdp(id, c, t, rest) => ActionView::OpenUdp(*id, *c, t@, rest@),
            SessionAction::Deliver(id, data) => ActionView::Deliver(*id, data@),
            SessionAction::End => ActionView::End,
        }
    }
}

/// The domain that opens a UDP-over-TCP stream instead of a TCP one.
pub open spec fn uot_domain() -> Seq<char> {
    "sp.v2.udp-over-tcp.arpa"@
}

/// What the first payload of a stream leads to.
pub open spec fn on_first_payload(
    streams: Map<u32, StreamPhase>,
    id: u32,
    data: Seq<u8>,
) -> (Map<u32, StreamPhase>, ActionView) {
    match syn_target(data) {
        Err(_) => (streams.remove(id), ActionView::Send(id, Command::Fin)),
        Ok(target) => if target matches TargetView::Domain(domain, _) && domain == uot_domain() {
            (streams.insert(id, StreamPhase::WaitingUotRequest(target)), ActionView::Idle)
        } else {
            (streams.insert(id, StreamPhase::Active), ActionView::OpenTcp(id, target))
        },
    }
}

/// What the request header of a UDP-over-TCP stream leads to.
pub open spec fn on_uot_request(
    streams: Map<u32, StreamPhase>,
    id: u32,
    data: Seq<u8>,
) -> (Map<u32, StreamPhase>, ActionView) {
    if data.len() == 0 {
        (streams.remove(id), ActionView::Send(id, Command::Fin))
    } else {
        match addr_parse(socks_tags(), data.skip(1)) {
            Err(_) => (streams.remove(id), ActionView::Send(id, Command::Fin)),
            Ok((target, n)) => (
                streams.insert(id, StreamPhase::Active),
                ActionView::OpenUdp(id, data[0] != 0, target, data.skip(1 + n)),
            ),
        }
    }
}

/// What a frame does to the streams of a session, and what it leads to.
pub open spec fn on_frame(
    streams: Map<u32, StreamPhase>,
    cmd: Command,
    id: u32,
    data: Seq<u8>,
) -> (Map<u32, StreamPhase>, ActionView) {
    match cmd {
        Command::Syn => (
            streams.insert(id, StreamPhase::Pending),
            ActionView::Send(id, Command::SynAck),
        ),
        Command::Psh => if !streams.contains_key(id) {
            (streams, ActionView::Idle)
        } else {
            match streams[id] {
                StreamPhase::Pending => on_first_payload(streams, id, data),
                StreamPhase::WaitingUotRequest(_) => on_uot_request(streams, id, data),
                StreamPhase::Active => (streams, ActionView::Deliver(id, data)),
            }
        },
        Command::Fin => (streams.remove(id), ActionView::Idle),
        Command::HeartRequest => (streams, ActionView::Send(0, Command::HeartResponse)),
        Command::Alert => (streams, ActionView::End),
        _ => (streams, ActionView::Idle),
    }
}

/// The streams of one TLS connection.
pub struct InboundSession {
    streams: DashMap<u32, StreamState>,
}

impl View for InboundSession {
    type V = Map<u32, StreamPhase>;

    closed spec fn view(&self) -> Map<u32, StreamPhase> {
        streams_in(self.streams)
    }
}

impl InboundSession {
    /// A session without streams.
    pub fn new() -> (s: InboundSession)
        ensures
            s@ == no_streams(),
    {
        InboundSession { streams: new_table() }
    }

    /// Handles the first payload of a stream.
    fn handle_target(&mut self, id: u32, data: &[u8]) -> (action: SessionAction)
        ensures
            (final(self)@, action@) == on_first_payload(old(self)@, id, data@),
    {
        match parse_target_from_syn(data) {
            Err(_) => {
                table_remove(&mut self.streams, id);
                SessionAction::Send(id, Command::Fin)
            },
            Ok(target) => {
                let is_uot = match &target {
                    TargetAddr::Domain(domain, _) => str_eq(
                        domain.as_str(),
                        "sp.v2.udp-over-tcp.arpa",
                    ),
                    TargetAddr::Ip(_) => false,
                };
                if is_uot {
                    table_insert(&mut self.streams, id, StreamState::WaitingUotRequest(target));
                    SessionAction::Idle
                } else {
                    table_insert(&mut self.streams, id, StreamState::Active);
                    SessionAction::OpenTcp(id, target)
                }
            },
        }
    }

    /// Handles the request header of a UDP-over-TCP stream.
    fn handle_uot_request(&mut self, id: u32, data: &[u8]) -> (action: SessionAction)
        ensures
            (final(self)@, action@) == on_uot_request(old(self)@, id, data@),
    {
        if data.len() == 0 {
            table_remove(&mut self.streams, id);
            return SessionAction::Send(id, Command::Fin);
        }
        let is_connect = data[0] != 0;
        let rest = vstd::slice::slice_subrange(data, 1, data.len());
        assert(rest@ =~= data@.skip(1));
        match socksaddr_decode_target(rest) {
            Err(_) => {
                table_remove(&mut self.streams, id);
                SessionAction::Send(id, Command::Fin)
            },
            Ok((target, used)) => {
                let remaining = copy_range(data, 1 + used, data.len());
                assert(remaining@ =~= data@.skip(1 + used));
                table_insert(&mut self.streams, id, StreamState::Active);
                SessionAction::OpenUdp(id, is_connect, target, remaining)
            },
        }
    }

    /// Handles one frame from the peer.
    pub fn read_loop(&mut self, cmd: Command, id: u32, data: Vec<u8>) -> (action: SessionAction)
        ensures
            (final(self)@, action@) == on_frame(old(self)@, cmd, id, data@),
    {
        match cmd {
            Command::Syn => {
                table_insert(&mut self.streams, id, StreamState::Pending);
                SessionAction::Send(id, Command::SynAck)
            },
            Command::Psh => match table_get(&self.streams, id) {
                None => SessionAction::Idle,
                Some(StreamState::Pending) => self.handle_target(id, data.as_slice()),
                Some(StreamState::WaitingUotRequest(_)) => self.handle_uot_request(
                    id,
                    data.as_slice(),
                ),
                Some(StreamState::Active) => SessionAction::Deliver(id, data),
            },
            Command::Fin => {
                table_remove(&mut self.streams, id);
                SessionAction::Idle
            },
            Command::HeartRequest => SessionAction::Send(0, Command::HeartResponse),
            Command::Alert => SessionAction::End,
            _ => SessionAction::Idle,
        }
    }

    /// A payload could not be delivered because the stream's queue is full or gone: the stream is
    /// dropped and the peer is told.
    pub fn delivery_failed(&mut self, id: u32) -> (action: SessionAction)
        ensures
            final(self)@ == old(self)@.remove(id),
            action@ == ActionView::Send(id, Command::Fin),
    {
        table_remove(&mut self.streams, id);
        SessionAction::Send(id, Command::Fin)
    }

    /// The local end of a stream is gone.
    pub fn stream_dropped(&mut self, id: u32)
        ensures
            final(self)@ == old(self)@.remove(id),
    {
        table_remove(&mut self.streams, id);
    }

    /// The session is over.
    pub fn close(&mut self)
        ensures
            final(self)@ == no_streams(),
    {
        table_clear(&mut self.streams);
    }
}

/// A frame touches no other stream than its own.
pub proof fn law_frame_is_local(
    streams: Map<u32, StreamPhase>,
    cmd: Command,
    id: u32,
    data: Seq<u8>,
    other: u32,
)
    requires
        other != id,
    ensures
        on_frame(streams, cmd, id, data).0.contains_key(other) == streams.contains_key(other),
        on_frame(streams, cmd, id, data).0[other] == streams[other],
{
}

/// Payloads are only ever delivered to streams that were opened and whose target is known, and
/// that leaves every stream as it is.
pub proof fn law_deliver_only_to_active(
    streams: Map<u32, StreamPhase>,
    cmd: Command,
    id: u32,
    data: Seq<u8>,
)
    ensures
        on_frame(streams, cmd, id, data).1 matches ActionView::Deliver(to, payload) ==> to == id
            && payload == data && streams.contains_key(id) && streams[id] is Active && on_frame(
            streams,
            cmd,
            id,
            data,
        ).0 == streams,
{
}

/// Opening a stream and naming a target connects it: the client's open and first payload are
/// answered with an acknowledgement and a connection to exactly that target.
pub proof fn law_open_stream(
    streams: Map<u32, StreamPhase>,
    id: u32,
    target: TargetView,
    tail: Seq<u8>,
)
    requires
        wire_safe(target),
        !(target matches TargetView::Domain(domain, _) && domain == uot_domain()),
    ensures
        ({
            let (opened, first) = on_frame(streams, Command::Syn, id, Seq::empty());
            let (connected, second) = on_frame(
                opened,
                Command::Psh,
                id,
                addr_bytes(socks_tags(), target) + tail,
            );
            &&& first == ActionView::Send(id, Command::SynAck)
            &&& second == ActionView::OpenTcp(id, target)
            &&& connected == streams.insert(id, StreamPhase::Active)
        }),
{
    law_syn_target_round_trip(target, tail);
    assert(streams.insert(id, StreamPhase::Pending).insert(id, StreamPhase::Active)
        =~= streams.insert(id, StreamPhase::Active));
}

/// The name of a command, as alerts show it.
pub open spec fn command_name(cmd: Command) -> Seq<char> {
    match cmd {
        Command::Waste => "Waste"@,
        Command::Syn => "Syn"@,
        Command::Psh => "Psh"@,
        Command::Fin => "Fin"@,
        Command::Settings => "Settings"@,
        Command::Alert => "Alert"@,
        Command::UpdatePaddingScheme => "UpdatePaddingScheme"@,
        Command::SynAck => "SynAck"@,
        Command::HeartRequest => "HeartRequest"@,
        Command::HeartResponse => "HeartResponse"@,
        Command::ServerSettings => "ServerSettings"@,
    }
}

fn name_of(cmd: Command) -> (name: &'static str)
    ensures
        name@ == command_name(cmd),
{
    match cmd {
        Command::Waste => "Waste",
        Command::Syn => "Syn",
        Command::Psh => "Psh",
        Command::Fin => "Fin",
        Command::Settings => "Settings",
        Command::Alert => "Alert",
        Command::UpdatePaddingScheme => "UpdatePaddingScheme",
        Command::SynAck => "SynAck",
        Command::HeartRequest => "HeartRequest",
        Command::HeartResponse => "HeartResponse",
        Command::ServerSettings => "ServerSettings",
    }
}

/// What opening a session asks for next, given the bytes read so far.
#[derive(Debug)]
pub enum HandshakeStep {
    /// The opening is not complete before this many bytes have been read in all.
    More(usize),
    /// The password hash is wrong: close.
    AuthFailed,
    /// The first frame has an unknown command: close.
    UnknownCommand(u8),
    /// The first frame is no settings frame: send the alert text in a frame and close.
    Unexpected(String),
    /// The session is open: the client's version, whether the server's settings have to be sent,
    /// and how many bytes the opening took.
    Ready(u8, bool, usize),
}

/// The mathematical value of a [`HandshakeStep`].
pub enum HandshakeView {
    More(int),
    AuthFailed,
    UnknownCommand(u8),
    Unexpected(Seq<char>),
    Ready(u8, bool, int),
}

impl View for HandshakeStep {
    type V = HandshakeView;

    open spec fn view(&self) -> HandshakeView {
        match self {
            HandshakeStep::More(n) => HandshakeView::More(*n as int),
            HandshakeStep::AuthFailed => HandshakeView::AuthFailed,
            HandshakeStep::UnknownCommand(b) => HandshakeView::UnknownCommand(*b),
            HandshakeStep::Unexpected(s) => HandshakeView::Unexpected(s@),
            HandshakeStep::Ready(v, reply, n) => HandshakeView::Ready(*v, *reply, *n as int),
        }
    }
}

/// The step that opening a session takes after `data` has arrived: the password hash, a padding
/// of announced length, then a settings frame.
pub open spec fn handshake(data: Seq<u8>, password_hash: Seq<u8>) -> HandshakeView {
    if data.len() < 32 {
        HandshakeView::More(32)
    } else if data.take(32) != password_hash {
        HandshakeView::AuthFailed
    } else if data.len() < 34 {
        HandshakeView::More(34)
    } else {
        let start = 34 + be2(data.skip(32));
        if data.len() < start {
            HandshakeView::More(start)
        } else {
            match frame_parse(data.skip(start)) {
                ReadFrameView::More(n) => HandshakeView::More(start + n),
                ReadFrameView::Unknown(b) => HandshakeView::UnknownCommand(b),
                ReadFrameView::Frame(cmd, _, payload, used) => if cmd != Command::Settings {
                    HandshakeView::Unexpected(
                        "expected cmdSettings, got cmd="@ + command_name(cmd),
                    )
                } else {
                    let version = settings_version(lossy_utf8(payload));
                    HandshakeView::Ready(version, version >= 2, start + used)
                },
            }
        }
    }
}

/// Opens a session from the bytes that the TLS stream has delivered so far.
pub fn open_session(data: &[u8], password_hash: &[u8]) -> (step: HandshakeStep)
    ensures
        step@ == handshake(data@, password_hash@),
{
    if data.len() < 32 {
        return HandshakeStep::More(32);
    }
    let given = vstd::slice::slice_subrange(data, 0, 32);
    assert(given@ =~= data@.take(32));
    if !bytes_eq(given, password_hash) {
        return HandshakeStep::AuthFailed;
    }
    if data.len() < 34 {
        return HandshakeStep::More(34);
    }
    let start: usize = 34 + get_u16(data, 32) as usize;
    if data.len() < start {
        return HandshakeStep::More(start);
    }
    let rest = vstd::slice::slice_subrange(data, start, data.len());
    assert(rest@ =~= data@.skip(start as int));
    match read_frame(rest) {
        ReadFrame::More(n) => HandshakeStep::More(start + n),
        ReadFrame::Unknown(b) => HandshakeStep::UnknownCommand(b),
        ReadFrame::Frame(cmd, _, payload, used) => {
            if cmd != Command::Settings {
                let mut alert = copy_text("expected cmdSettings, got cmd=");
                push_text(&mut alert, name_of(cmd));
                return HandshakeStep::Unexpected(alert);
            }
            let version: u8 = parse_version(payload.as_slice());
            HandshakeStep::Ready(version, version >= 2, start + used)
        },
    }
}

/// The settings frame that the server sends to clients of version 2 and later.
pub fn server_settings() -> (frame: Vec<u8>)
    ensures
        frame@ == frame_bytes(Command::ServerSettings, 0, encode_utf8("v=2\n"@)),
{
    proof {
        reveal_strlit("v=2\n");
        vstd::utf8::is_ascii_chars_encode_utf8("v=2\n"@);
    }
    match build_frame(Command::ServerSettings, 0, "v=2\n".as_bytes()) {
        Ok(frame) => frame,
        Err(_) => Vec::new(),
    }
}

/// A session opens only for a client that presents the password hash.
pub proof fn law_session_needs_password(data: Seq<u8>, password_hash: Seq<u8>)
    ensures
        handshake(data, password_hash) is Ready ==> data.len() >= 32 && data.take(32)
            == password_hash,
        data.len() >= 32 && data.take(32) != password_hash ==> handshake(data, password_hash)
            == HandshakeView::AuthFailed,
{
}

/// The part of a write that goes into one frame: at most 65535 bytes.
pub fn write_chunk(buf: &[u8]) -> (chunk: Vec<u8>)
    ensures
        chunk@ == buf@.take(
            if buf@.len() < 65535 {
                buf@.len() as int
            } else {
                65535
            },
        ),
{
    let len: usize = if buf.len() < 65535 {
        buf.len()
    } else {
        65535
    };
    let chunk = copy_range(buf, 0, len);
    assert(chunk@ =~= buf@.take(len as int));
    chunk
}

/// The write side of a stream: whether its end has been announced.
#[derive(Debug)]
pub struct StreamWriter {
    fin_sent: bool,
}

impl View for StreamWriter {
    type V = bool;

    closed spec fn view(&self) -> bool {
        self.fin_sent
    }
}

impl StreamWriter {
    /// A stream that is open for writing.
    pub fn new() -> (w: StreamWriter)
        ensures
            !w@,
    {
        StreamWriter { fin_sent: false }
    }

    /// Shuts the stream down and says whether a frame has to announce it: exactly once.
    pub fn shutdown(&mut self) -> (announce: bool)
        ensures
            announce == !old(self)@,
            final(self)@,
    {
        let announce = !self.fin_sent;
        self.fin_sent = true;
        announce
    }
}

/// Settings of an AnyTLS server.
#[derive(Debug)]
pub struct AnytlsInbound {
    pub tag: String,
    pub address: SocketAddr,
    pub idle_timeout: Duration,
    pub password_hash: Vec<u8>,
    pub tls: TlsConfig,
}

/// Why an AnyTLS server cannot be set up.
#[derive(Debug, Clone, Copy, PartialEq, Eq, Structural)]
pub enum AnytlsConfigError {
    MissingPassword,
    Tls(IncompleteJls),
    MissingAddress,
    MissingPort,
    InvalidAddress,
}

impl AnytlsInbound {
    /// Sets a server up: a password, an address and a port are required; sessions idle for 60
    /// seconds unless configured otherwise.
    pub fn new(tag: String, cfg: &InboundConfig) -> (r: Result<AnytlsInbound, AnytlsConfigError>)
        ensures
            match r {
                Ok(s) => {
                    &&& s.tag@ == tag@
                    &&& cfg.password is Some && s.password_hash@ == sha256_of(
                        encode_utf8(cfg.password->0@),
                    )
                    &&& !inbound_jls_incomplete(cfg.tls)
                    &&& serves_tls(cfg.tls, s.tls)
                    &&& cfg.address is Some && cfg.port is Some && socket_addr_of(
                        host_port_text(cfg.address->0@, cfg.port->0),
                    ) == Some(s.address)
                    &&& s.idle_timeout == secs_or(cfg.idle_timeout, secs(60))
                },
                Err(e) => e == if cfg.password is None {
                    AnytlsConfigError::MissingPassword
                } else if inbound_jls_incomplete(cfg.tls) {
                    AnytlsConfigError::Tls(IncompleteJls)
                } else if cfg.address is None {
                    AnytlsConfigError::MissingAddress
                } else if cfg.port is None {
                    AnytlsConfigError::MissingPort
                } else {
                    AnytlsConfigError::InvalidAddress
                },
            },
            r matches Err(AnytlsConfigError::InvalidAddress) ==> socket_addr_of(
                host_port_text(cfg.address->0@, cfg.port->0),
            ) is None,
    {
        let password_hash = match &cfg.password {
            Some(password) => sha256(password.as_str().as_bytes()),
            None => {
                return Err(AnytlsConfigError::MissingPassword);
            },
        };
        let tls = match TlsConfig::from_inbound(cfg) {
            Ok(tls) => tls,
            Err(e) => {
                return Err(AnytlsConfigError::Tls(e));
            },
        };
        let address = match &cfg.address {
            Some(a) => a,
            None => {
                return Err(AnytlsConfigError::MissingAddress);
            },
        };
        let port: u16 = match cfg.port {
            Some(p) => p,
            None => {
                return Err(AnytlsConfigError::MissingPort);
            },
        };
        let mut text = copy_text(address.as_str());
        text.push(':');
        push_decimal(&mut text, port as u64);
        assert(text@ =~= host_port_text(address@, port));
        match parse_socket_addr(text.as_str()) {
            Some(addr) => Ok(
                AnytlsInbound {
                    tag,
                    address: addr,
                    idle_timeout: cfg.idle_timeout_or(Duration::from_secs(60)),
                    password_hash,
                    tls,
                },
            ),
            None => Err(AnytlsConfigError::InvalidAddress),
        }
    }
}

/// Where an AnyTLS server has its certificate from.
#[derive(Debug)]
pub enum AnytlsCertificate {
    /// From a certificate file and a key file.
    Files { cert: String, key: String },
    /// A throwaway certificate for that host.
    SelfSigned(String),
}

/// How many seconds a TLS handshake may take.
pub const TLS_ACCEPT_SECS: u64 = 30;

/// How a TLS handshake with a client ended.
#[derive(Debug)]
pub enum TlsOutcome {
    /// TLS is up; JLS ended like this.
    Accepted(JlsState),
    /// The handshake failed, with the complaint.
    Failed(String),
    /// The handshake took too long.
    TimedOut,
}

/// The complaint about a client whose handshake came to nothing; `None` for one that gets a session.
pub open spec fn refusal(enable_jls: bool, peer: Seq<char>, outcome: TlsOutcome) -> Option<Seq<char>> {
    match outcome {
        TlsOutcome::Accepted(state) => if enable_jls && state != JlsState::AuthSuccess {
            Some("Anytls inbound JLS error from "@ + peer + ": JLS authentication failed"@)
        } else {
            None
        },
        TlsOutcome::Failed(e) => Some("Anytls inbound TLS error from "@ + peer + ": "@ + e@),
        TlsOutcome::TimedOut => Some("Anytls inbound TLS timeout from "@ + peer),
    }
}

impl AnytlsInbound {
    /// Where the certificate comes from: from files where both are configured.
    pub fn certificate(&self) -> (c: AnytlsCertificate)
        ensures
            match c {
                AnytlsCertificate::Files { cert, key } => opt_text(self.tls.cert) == Some(cert@)
                    && opt_text(self.tls.key) == Some(key@),
                AnytlsCertificate::SelfSigned(host) => (self.tls.cert is None || self.tls.key is None)
                    && host@ == "localhost"@,
            },
    {
        match (&self.tls.cert, &self.tls.key) {
            (Some(cert), Some(key)) => AnytlsCertificate::Files {
                cert: copy_text(cert.as_str()),
                key: copy_text(key.as_str()),
            },
            _ => AnytlsCertificate::SelfSigned(copy_text("localhost")),
        }
    }

    /// Decides on a client whose TLS handshake ended: a session is opened, or the complaint is
    /// reported.
    pub fn listen_tcp(&self, peer: &str, outcome: TlsOutcome) -> (r: Result<(), String>)
        ensures
            match r {
                Ok(()) => refusal(self.tls.enable_jls, peer@, outcome) is None,
                Err(e) => refusal(self.tls.enable_jls, peer@, outcome) == Some(e@),
            },
    {
        match outcome {
            TlsOutcome::Accepted(state) => match verify_jls_connection(&self.tls, state) {
                Ok(()) => Ok(()),
                Err(_) => {
                    let mut e = copy_text("Anytls inbound JLS error from ");
                    push_text(&mut e, peer);
                    push_text(&mut e, ": JLS authentication failed");
                    Err(e)
                },
            },
            TlsOutcome::Failed(cause) => {
                let mut e = copy_text("Anytls inbound TLS error from ");
                push_text(&mut e, peer);
                push_text(&mut e, ": ");
                push_text(&mut e, cause.as_str());
                Err(e)
            },
            TlsOutcome::TimedOut => {
                let mut e = copy_text("Anytls inbound TLS timeout from ");
                push_text(&mut e, peer);
                Err(e)
            },
        }
    }
}

/// A client with the right password gets its session: after the hash comes a padding of any length and
/// content, which is thrown away, and then the settings, whose version counts. Exactly the opening is
/// taken off the stream.
pub proof fn law_session_opens(hash: Seq<u8>, padding: Seq<u8>, id: u32, settings: Seq<u8>, tail: Seq<u8>)
    requires
        hash.len() == 32,
        padding.len() <= 65535,
        settings.len() <= 65535,
    ensures
        ({
            let version = settings_version(lossy_utf8(settings));
            handshake(
                hash + be2_bytes(padding.len() as int) + padding + frame_bytes(
                    Command::Settings,
                    id,
                    settings,
                ) + tail,
                hash,
            ) == HandshakeView::Ready(
                version,
                version >= 2,
                34int + padding.len() + 7 + settings.len(),
            )
        }),
{
    let frame = frame_bytes(Command::Settings, id, settings);
    lemma_after_padding(hash, padding, frame + tail);
    law_frame_round_trip(Command::Settings, id, settings, tail);
    let data = hash + be2_bytes(padding.len() as int) + padding + frame + tail;
    assert(data =~= hash + be2_bytes(padding.len() as int) + padding + (frame + tail));
}

proof fn lemma_after_padding(hash: Seq<u8>, padding: Seq<u8>, rest: Seq<u8>)
    requires
        hash.len() == 32,
        padding.len() <= 65535,
    ensures
        ({
            let data = hash + be2_bytes(padding.len() as int) + padding + rest;
            &&& data.len() == 34 + padding.len() + rest.len()
            &&& data.take(32) == hash
            &&& be2(data.skip(32)) == padding.len()
            &&& data.skip(34 + padding.len() as int) == rest
        }),
{
    let data = hash + be2_bytes(padding.len() as int) + padding + rest;
    law_be2_round_trip(padding.len() as int, padding + rest);
    assert(data.take(32) =~= hash);
    assert(data.skip(32) =~= be2_bytes(padding.len() as int) + (padding + rest));
    assert(data.skip(34 + padding.len() as int) =~= rest);
}

/// A client that begins with another frame than its settings is told so, and one whose first command is
/// none is turned away.
pub proof fn law_settings_come_first(
    hash: Seq<u8>,
    padding: Seq<u8>,
    cmd: Command,
    id: u32,
    payload: Seq<u8>,
    tail: Seq<u8>,
    unknown: u8,
)
    requires
        hash.len() == 32,
        padding.len() <= 65535,
        cmd != Command::Settings,
        payload.len() <= 65535,
        unknown > 10,
    ensures
        handshake(
            hash + be2_bytes(padding.len() as int) + padding + (frame_bytes(cmd, id, payload) + tail),
            hash,
        ) == HandshakeView::Unexpected("expected cmdSettings, got cmd="@ + command_name(cmd)),
        handshake(
            hash + be2_bytes(padding.len() as int) + padding + (seq![unknown] + tail),
            hash,
        ) == HandshakeView::UnknownCommand(unknown),
{
    lemma_after_padding(hash, padding, frame_bytes(cmd, id, payload) + tail);
    law_frame_round_trip(cmd, id, payload, tail);
    lemma_after_padding(hash, padding, seq![unknown] + tail);
    crate::proxy::anytls_proto::law_command_round_trip(cmd, unknown);
}

/// While an opening is not complete, more bytes are asked for, and no more than the opening has.
pub proof fn law_part_of_an_opening_is_waited_for(
    hash: Seq<u8>,
    padding: Seq<u8>,
    id: u32,
    settings: Seq<u8>,
    got: int,
)
    requires
        hash.len() == 32,
        padding.len() <= 65535,
        settings.len() <= 65535,
        0 <= got < 34 + padding.len() + 7 + settings.len(),
    ensures
        handshake(
            (hash + be2_bytes(padding.len() as int) + padding + frame_bytes(
                Command::Settings,
                id,
                settings,
            )).take(got),
            hash,
        ) matches HandshakeView::More(n) && got < n <= 34 + padding.len() + 7 + settings.len(),
{
    let frame = frame_bytes(Command::Settings, id, settings);
    let all = hash + be2_bytes(padding.len() as int) + padding + frame;
    let part = all.take(got);
    lemma_after_padding(hash, padding, frame);
    law_frame_round_trip(Command::Settings, id, settings, Seq::empty());
    assert(frame + Seq::<u8>::empty() =~= frame);
    if got >= 32 {
        assert(part.take(32) =~= hash);
    }
    if got >= 34 {
        assert(be2(part.skip(32)) == be2(all.skip(32)));
        let start = 34 + padding.len() as int;
        if got >= start {
            let rest = part.skip(start);
            assert(rest =~= frame.take(got - start));
            law_be4_round_trip(id as int, Seq::empty());
            law_be2_round_trip(settings.len() as int, settings);
            assert(frame.skip(5) =~= be2_bytes(settings.len() as int) + settings);
            if rest.len() >= 7 {
                assert(be2(rest.skip(5)) == be2(frame.skip(5)));
            }
        }
    }
}

/// The settings are lines of names and values. The version is the number that the first line named `v`
/// holds; lines of other names before it, and whatever follows it, do not matter.
pub proof fn law_version_line_counts(before: Seq<Seq<char>>, version: nat, after: Seq<char>)
    requires
        version <= 255,
        forall|i: int| 0 <= i < before.len() ==> is_other_line(#[trigger] before[i]),
    ensures
        settings_version(lines_of(before) + seq!['v', '='] + dec_text(version) + (seq!['\n'] + after))
            == version,
        settings_version(lines_of(before) + seq!['v', '='] + dec_text(version)) == version,
    decreases before.len(),
{
    let line = version_line(version);
    if before.len() == 0 {
        lemma_version_line(version);
        let more = lines_of(before) + seq!['v', '='] + dec_text(version) + (seq!['\n'] + after);
        let alone = lines_of(before) + seq!['v', '='] + dec_text(version);
        assert(more =~= line + (seq!['\n'] + after));
        assert(alone =~= line);
        lemma_find_behind(line, '\n', after);
        lemma_find_none(line, '\n');
        assert(more.take(line.len() as int) =~= line);
    } else {
        let rest = before.drop_first();
        assert forall|i: int| 0 <= i < rest.len() implies is_other_line(#[trigger] rest[i]) by {
            assert(rest[i] == before[i + 1]);
        }
        law_version_line_counts(rest, version, after);
        let first = before[0];
        assert(is_other_line(first));
        let tail_a = lines_of(rest) + seq!['v', '='] + dec_text(version) + (seq!['\n'] + after);
        let tail_b = lines_of(rest) + seq!['v', '='] + dec_text(version);
        let a = lines_of(before) + seq!['v', '='] + dec_text(version) + (seq!['\n'] + after);
        let b = lines_of(before) + seq!['v', '='] + dec_text(version);
        assert(a =~= first + (seq!['\n'] + tail_a));
        assert(b =~= first + (seq!['\n'] + tail_b));
        lemma_other_line(first);
        lemma_find_behind(first, '\n', tail_a);
        lemma_find_behind(first, '\n', tail_b);
        assert(a.take(first.len() as int) =~= first);
        assert(b.take(first.len() as int) =~= first);
        assert(a.skip(first.len() as int + 1) =~= tail_a);
        assert(b.skip(first.len() as int + 1) =~= tail_b);
    }
}

/// Lines one after the other.
pub open spec fn lines_of(lines: Seq<Seq<char>>) -> Seq<char>
    decreases lines.len(),
{
    if lines.len() == 0 {
        Seq::empty()
    } else {
        lines[0] + seq!['\n'] + lines_of(lines.drop_first())
    }
}

/// Whether a text is one line that does not begin with a lone `v`: it starts with a letter other than
/// that, such as the lines that name the client or its padding scheme.
pub open spec fn is_other_line(line: Seq<char>) -> bool {
    &&& line.len() > 0
    &&& 'a' <= line[0] <= 'z'
    &&& line[0] != 'v'
    &&& forall|i: int| 0 <= i < line.len() ==> #[trigger] line[i] != '\n'
}

proof fn lemma_find_behind(s: Seq<char>, c: char, rest: Seq<char>)
    requires
        forall|i: int| 0 <= i < s.len() ==> #[trigger] s[i] != c,
    ensures
        find_char(s + (seq![c] + rest), c) == s.len(),
    decreases s.len(),
{
    let all = s + (seq![c] + rest);
    if s.len() > 0 {
        assert(all[0] == s[0]);
        assert(all.skip(1) =~= s.skip(1) + (seq![c] + rest));
        assert forall|i: int| 0 <= i < s.skip(1).len() implies #[trigger] s.skip(1)[i] != c by {
            assert(s.skip(1)[i] == s[i + 1]);
        }
        lemma_find_behind(s.skip(1), c, rest);
    } else {
        assert(all[0] == c);
    }
}

proof fn lemma_find_none(s: Seq<char>, c: char)
    requires
        forall|i: int| 0 <= i < s.len() ==> #[trigger] s[i] != c,
    ensures
        find_char(s, c) == s.len(),
    decreases s.len(),
{
    if s.len() > 0 {
        assert(s[0] != c);
        assert forall|i: int| 0 <= i < s.skip(1).len() implies #[trigger] s.skip(1)[i] != c by {
            assert(s.skip(1)[i] == s[i + 1]);
        }
        lemma_find_none(s.skip(1), c);
    }
}

spec fn version_line(version: nat) -> Seq<char> {
    seq!['v', '='] + dec_text(version)
}

proof fn lemma_version_line(version: nat)
    requires
        version <= 255,
    ensures
        line_version(version_line(version)) == Some(version as u8),
        forall|i: int|
            0 <= i < version_line(version).len() ==> #[trigger] version_line(version)[i] != '\n',
{
    let digits = dec_text(version);
    let line = version_line(version);
    lemma_dec_text(version);
    law_decimal_round_trip(version, 255);
    assert(line =~= seq!['v'] + (seq!['='] + digits));
    lemma_find_behind(seq!['v'], '=', digits);
    assert(line.take(1) =~= seq!['v']);
    assert(line.skip(2) =~= digits);
    assert(is_digit(digits[0]));
    assert(is_digit(digits[digits.len() - 1]));
    assert(trim_start(digits) == digits);
    assert(trim_end(digits) == digits);
    assert forall|i: int| 0 <= i < line.len() implies #[trigger] line[i] != '\n' by {
        if i >= 2 {
            assert(is_digit(digits[i - 2]));
        }
    }
}

proof fn lemma_trim_end_keeps_first(s: Seq<char>)
    requires
        s.len() > 0,
        !is_white_space(s[0]),
    ensures
        trim_end(s).len() > 0,
        trim_end(s)[0] == s[0],
    decreases s.len(),
{
    if is_white_space(s.last()) {
        assert(s.len() > 1);
        lemma_trim_end_keeps_first(s.drop_last());
    }
}

proof fn lemma_other_line(line: Seq<char>)
    requires
        is_other_line(line),
    ensures
        line_version(line) is None,
{
    let at = find_char(line, '=');
    lemma_find_char(line, '=');
    if at < line.len() {
        let key = line.take(at);
        assert(line[0] != '=');
        assert(at > 0);
        assert(key[0] == line[0]);
        assert(trim_start(key) == key);
        lemma_trim_end_keeps_first(key);
        assert(trim(key)[0] != 'v');
    }
}

/// Settings without a version are those of the first version.
pub proof fn law_version_defaults_to_one(lines: Seq<Seq<char>>)
    requires
        forall|i: int| 0 <= i < lines.len() ==> is_other_line(#[trigger] lines[i]),
    ensures
        settings_version(lines_of(lines)) == 1,
    decreases lines.len(),
{
    if lines.len() > 0 {
        let rest = lines.drop_first();
        assert forall|i: int| 0 <= i < rest.len() implies is_other_line(#[trigger] rest[i]) by {
            assert(rest[i] == lines[i + 1]);
        }
        law_version_defaults_to_one(rest);
        let first = lines[0];
        assert(is_other_line(first));
        let all = lines_of(lines);
        assert(all =~= first + (seq!['\n'] + lines_of(rest)));
        lemma_other_line(first);
        lemma_find_behind(first, '\n', lines_of(rest));
        assert(all.take(first.len() as int) =~= first);
        assert(all.skip(first.len() as int + 1) =~= lines_of(rest));
    }
}

/// A stream lives from its opening to its end: the client's open frame is acknowledged, what follows the
/// target is delivered to it, a heartbeat is answered, and after its end nothing is delivered any more.
pub proof fn law_life_of_a_stream(
    streams: Map<u32, StreamPhase>,
    id: u32,
    other: u32,
    data: Seq<u8>,
)
    ensures
        on_frame(streams, Command::Syn, id, data) == (
            streams.insert(id, StreamPhase::Pending),
            ActionView::Send(id, Command::SynAck),
        ),
        streams.contains_key(id) && streams[id] is Active ==> on_frame(
            streams,
            Command::Psh,
            id,
            data,
        ) == (streams, ActionView::Deliver(id, data)),
        !streams.contains_key(id) ==> on_frame(streams, Command::Psh, id, data) == (
            streams,
            ActionView::Idle,
        ),
        !on_frame(streams, Command::Fin, id, data).0.contains_key(id),
        on_frame(streams, Command::Fin, id, data).1 == ActionView::Idle,
        on_frame(streams, Command::HeartRequest, id, data) == (
            streams,
            ActionView::Send(0, Command::HeartResponse),
        ),
        on_frame(streams, Command::Alert, id, data) == (streams, ActionView::End),
        on_frame(streams, Command::Waste, id, data) == (streams, ActionView::Idle),
        on_frame(streams, Command::Settings, id, data) == (streams, ActionView::Idle),
        on_frame(streams, Command::HeartResponse, id, data) == (streams, ActionView::Idle),
{
}

/// A UDP session over a stream: the client names the special domain as its target, and then sends the
/// request header with the mode and the destination. What follows the header are the first packets.
pub proof fn law_open_packets(
    streams: Map<u32, StreamPhase>,
    id: u32,
    port: u16,
    mode: u8,
    target: TargetView,
    packets: Seq<u8>,
)
    requires
        wire_safe(target),
    ensures
        ({
            let opened = on_frame(streams, Command::Syn, id, Seq::empty()).0;
            let (waiting, first) = on_frame(
                opened,
                Command::Psh,
                id,
                addr_bytes(socks_tags(), TargetView::Domain("sp.v2.udp-over-tcp.arpa"@, port)),
            );
            let (connected, second) = on_frame(
                waiting,
                Command::Psh,
                id,
                seq![mode] + addr_bytes(socks_tags(), target) + packets,
            );
            &&& first == ActionView::Idle
            &&& second == ActionView::OpenUdp(id, mode != 0, target, packets)
            &&& connected == streams.insert(id, StreamPhase::Active)
        }),
{
    let domain = TargetView::Domain("sp.v2.udp-over-tcp.arpa"@, port);
    reveal_strlit("sp.v2.udp-over-tcp.arpa");
    vstd::utf8::is_ascii_chars_encode_utf8("sp.v2.udp-over-tcp.arpa"@);
    law_syn_target_round_trip(domain, Seq::empty());
    assert(addr_bytes(socks_tags(), domain) + Seq::<u8>::empty() =~= addr_bytes(
        socks_tags(),
        domain,
    ));
    let opened = on_frame(streams, Command::Syn, id, Seq::empty()).0;
    let waiting = on_frame(opened, Command::Psh, id, addr_bytes(socks_tags(), domain)).0;
    let request = seq![mode] + addr_bytes(socks_tags(), target) + packets;
    law_addr_round_trip(socks_tags(), target, packets);
    assert(request.skip(1) =~= addr_bytes(socks_tags(), target) + packets);
    let n = addr_bytes(socks_tags(), target).len() as int;
    assert(request.skip(1 + n) =~= packets);
    assert(on_frame(waiting, Command::Psh, id, request).0 =~= streams.insert(
        id,
        StreamPhase::Active,
    ));
}

/// A stream whose target or request header cannot be read is ended, and the client is told.
pub proof fn law_unreadable_targets_end_the_stream(
    streams: Map<u32, StreamPhase>,
    id: u32,
    data: Seq<u8>,
)
    requires
        streams.contains_key(id),
    ensures
        streams[id] is Pending && (data.len() == 0 || !(data[0] == 1 || data[0] == 3 || data[0] == 4))
            ==> on_frame(streams, Command::Psh, id, data) == (
            streams.remove(id),
            ActionView::Send(id, Command::Fin),
        ),
        streams[id] is WaitingUotRequest && (data.len() < 2 || !(data[1] == 1 || data[1] == 3
            || data[1] == 4)) ==> on_frame(streams, Command::Psh, id, data) == (
            streams.remove(id),
            ActionView::Send(id, Command::Fin),
        ),
{
    if data.len() >= 2 {
        assert(data.skip(1)[0] == data[1]);
    }
}

/// A client whose TLS handshake succeeded gets a session, unless JLS is on and it did not authenticate;
/// one whose handshake failed or took too long gets none.
pub proof fn law_only_good_handshakes_get_a_session(enable_jls: bool, peer: Seq<char>, outcome: TlsOutcome)
    ensures
        refusal(enable_jls, peer, outcome) is None <==> (outcome matches TlsOutcome::Accepted(state)
            && (enable_jls ==> state == JlsState::AuthSuccess)),
{
}

/// A version that is no number, or one above 255, counts as the first. White space round it does
/// not matter.
pub proof fn law_unreadable_versions_count_as_one(value: Seq<char>, i: int, n: nat)
    requires
        forall|k: int| 0 <= k < value.len() ==> #[trigger] value[k] != '\n',
    ensures
        trim(value).len() == 0 ==> settings_version(seq!['v', '='] + value) == 1,
        0 <= i < trim(value).len() && !('0' <= trim(value)[i] <= '9') && (i > 0 || trim(value)[0]
            != '+') ==> settings_version(seq!['v', '='] + value) == 1,
        trim(value) == dec_text(n) ==> settings_version(seq!['v', '='] + value) == if n <= 255 {
            n as u8
        } else {
            1u8
        },
{
    let line = seq!['v', '='] + value;
    let v = seq!['v'];
    lemma_find_none(line, '\n');
    assert(line =~= v + (seq!['='] + value));
    lemma_find_behind(v, '=', value);
    assert(line.take(1) =~= v);
    assert(line.skip(2) =~= value);
    assert(trim_start(v) == v);
    assert(trim_end(v) == v);
    law_only_numbers_are_read(trim(value), i, n, 255);
    if trim(value).len() == 0 {
        assert(trim(value) =~= Seq::<char>::empty());
    }
    if n <= 255 {
        law_decimal_round_trip(n, 255);
    }
}

} // verus!
