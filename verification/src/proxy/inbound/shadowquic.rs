//! The server side of ShadowQUIC: who may use a connection and what its streams ask for.

use crate::config::{
    missing_text, opt_str, opt_text, secs_or, texts, user_views, AuthUser, AuthUserView,
    InboundConfig,
};
use crate::ip::{ip_of, parse_ip};
use crate::proxy::addr::{SocketAddr, TargetAddr, TargetView};
use crate::proxy::connections::exactly;
use crate::proxy::inbound::live::{
    connected_as, identified_as, without_peers_of, LiveConnections,
};
use crate::proxy::inbound::users::{with_user, without_user};
use crate::proxy::shadowquic_udp::{
    announce, announce_bytes, context_capacity, datagram_bytes, gen_sunny_auth_hash,
    has_context_capacity, law_datagram_reaches_its_session, on_datagram, sender_id, sunny_hash,
    write_ext_error_not_available, BindingView, DatagramView, ExtensionRequest, PerConnectionState,
    SenderTable, UdpMode,
};
use crate::proxy::tls::{inbound_jls_incomplete, serves_tls, IncompleteJls, TlsConfig};
use crate::text::{copy_text, dec_text, push_decimal, push_text};
use crate::time::{secs, Duration};
use crate::wire::bytes_eq;
use vstd::prelude::*;

verus! {

/// The code that connections are closed with.
pub const SHADOWQUIC_CLOSE_CODE: u32 = 263;

/// Settings, users and live connections of a ShadowQUIC server.
pub struct ShadowQuicInbound {
    pub tag: String,
    pub address: String,
    pub port: u16,
    pub tls: TlsConfig,
    pub users: Vec<AuthUser>,
    pub enable_gso: bool,
    pub enable_mtudis: bool,
    pub min_mtu: u16,
    pub initial_mtu: u16,
    pub congestion_controller: Option<String>,
    pub idle_timeout: Duration,
    pub conns: LiveConnections,
}

/// Why a server cannot be set up.
#[derive(Debug)]
pub enum ShadowQuicConfigError {
    /// JLS lacks credentials.
    Tls(IncompleteJls),
    /// Neither TLS nor JLS is on.
    TlsDisabled,
    /// Without JLS there has to be a user.
    NoUsers,
    /// The address or port is missing.
    Endpoint(String),
}

/// Whether a server runs neither TLS nor JLS.
pub open spec fn tls_disabled(cfg: InboundConfig) -> bool {
    cfg.tls matches Some(t) && !t.enable && !t.enable_jls
}

/// Whether a server runs JLS.
pub open spec fn jls_on(cfg: InboundConfig) -> bool {
    cfg.tls matches Some(t) && t.enable_jls
}

impl ShadowQuicInbound {
    /// Whether two servers are set up alike, whatever their users and connections are.
    pub open spec fn same_settings(self, other: ShadowQuicInbound) -> bool {
        &&& self.tag == other.tag
        &&& self.address == other.address
        &&& self.port == other.port
        &&& self.tls == other.tls
        &&& self.enable_gso == other.enable_gso
        &&& self.enable_mtudis == other.enable_mtudis
        &&& self.min_mtu == other.min_mtu
        &&& self.initial_mtu == other.initial_mtu
        &&& self.congestion_controller == other.congestion_controller
        &&& self.idle_timeout == other.idle_timeout
    }

    /// Sets a server up. TLS or JLS has to be on, and without JLS there has to be a user.
    pub fn new(tag: String, cfg: &InboundConfig, users: Vec<AuthUser>) -> (r: Result<
        ShadowQuicInbound,
        ShadowQuicConfigError,
    >)
        ensures
            match r {
                Ok(s) => {
                    &&& !inbound_jls_incomplete(cfg.tls) && !tls_disabled(*cfg)
                    &&& jls_on(*cfg) || users@.len() > 0
                    &&& s.tag@ == tag@
                    &&& opt_text(cfg.address) == Some(s.address@)
                    &&& cfg.port == Some(s.port)
                    &&& s.users == users
                    &&& serves_tls(cfg.tls, s.tls)
                    &&& s.enable_gso == cfg.gso
                    &&& s.enable_mtudis == cfg.mtu_discoveriy
                    &&& s.min_mtu == cfg.min_mtu
                    &&& s.initial_mtu == cfg.initial_mtu
                    &&& opt_text(s.congestion_controller) == opt_text(cfg.congestion_controller)
                    &&& s.idle_timeout == secs_or(cfg.idle_timeout, secs(30))
                    &&& s.conns.wf()
                    &&& s.conns@ == Map::<Seq<char>, Option<Seq<char>>>::empty()
                },
                Err(ShadowQuicConfigError::Tls(_)) => inbound_jls_incomplete(cfg.tls),
                Err(ShadowQuicConfigError::TlsDisabled) => !inbound_jls_incomplete(cfg.tls)
                    && tls_disabled(*cfg),
                Err(ShadowQuicConfigError::NoUsers) => !inbound_jls_incomplete(cfg.tls)
                    && !tls_disabled(*cfg) && !jls_on(*cfg) && users@.len() == 0,
                Err(ShadowQuicConfigError::Endpoint(e)) => {
                    &&& !inbound_jls_incomplete(cfg.tls) && !tls_disabled(*cfg)
                    &&& jls_on(*cfg) || users@.len() > 0
                    &&& {
                        ||| cfg.address is None && e@ == missing_text(cfg.name(tag@), "address"@)
                        ||| cfg.address is Some && cfg.port is None && e@ == missing_text(
                            cfg.name(tag@),
                            "port"@,
                        )
                    }
                },
            },
    {
        let tls = match TlsConfig::from_inbound(cfg) {
            Ok(tls) => tls,
            Err(e) => {
                return Err(ShadowQuicConfigError::Tls(e));
            },
        };
        if !tls.enable && !tls.enable_jls {
            return Err(ShadowQuicConfigError::TlsDisabled);
        }
        if !tls.enable_jls && users.len() == 0 {
            return Err(ShadowQuicConfigError::NoUsers);
        }
        let (address, port): (String, u16) = match cfg.endpoint(tag.as_str()) {
            Ok((a, p)) => (copy_text(a), p),
            Err(e) => {
                return Err(ShadowQuicConfigError::Endpoint(e));
            },
        };
        Ok(
            ShadowQuicInbound {
                tag,
                address,
                port,
                tls,
                users,
                enable_gso: cfg.gso,
                enable_mtudis: cfg.mtu_discoveriy,
                min_mtu: cfg.min_mtu,
                initial_mtu: cfg.initial_mtu,
                congestion_controller: crate::config::copy_opt(&cfg.congestion_controller),
                idle_timeout: cfg.idle_timeout(),
                conns: LiveConnections::new(),
            },
        )
    }

    /// The endpoint to listen on; the address has to be an IP address.
    pub fn listen_addr(&self) -> (r: Option<SocketAddr>)
        ensures
            r == match ip_of(self.address@) {
                Some(ip) => Some(SocketAddr { ip, port: self.port, scope_id: 0 }),
                None => None,
            },
    {
        match parse_ip(self.address.as_str()) {
            Some(ip) => Some(SocketAddr { ip, port: self.port, scope_id: 0 }),
            None => None,
        }
    }

    /// Adds a user or updates the password of a listed one.
    pub fn add_user(&mut self, user: &AuthUser)
        ensures
            user_views(final(self).users@) == with_user(user_views(old(self).users@), user@),
            final(self).same_settings(*old(self)),
            final(self).conns == old(self).conns,
    {
        crate::proxy::inbound::users::add_user(&mut self.users, user);
    }

    /// Removes a user. What the user has open is forgotten, and has to be closed: the peers are
    /// listed.
    pub fn remove_user(&mut self, username: &str) -> (stale: Vec<String>)
        requires
            old(self).conns.wf(),
        ensures
            user_views(final(self).users@) == without_user(user_views(old(self).users@), username@),
            final(self).same_settings(*old(self)),
            final(self).conns.wf(),
            final(self).conns@ == without_peers_of(old(self).conns@, username@),
            exactly(
                texts(stale@),
                |peer: Seq<char>| connected_as(old(self).conns@, peer, username@),
            ),
    {
        crate::proxy::inbound::users::remove_user(&mut self.users, username);
        self.conns.disconnect(username)
    }
}

/// Whether a hash is that of one of the users from the `i`-th on.
pub open spec fn known_hash(users: Seq<AuthUserView>, i: int, hash: Seq<u8>) -> bool
    decreases users.len() - i,
{
    if i < 0 || i >= users.len() {
        false
    } else {
        sunny_hash(users[i].username, users[i].password) == hash || known_hash(users, i + 1, hash)
    }
}

fn knows_hash(users: &Vec<AuthUser>, hash: &[u8]) -> (r: bool)
    ensures
        r == known_hash(user_views(users@), 0, hash@),
{
    let mut i: usize = 0;
    while i < users.len()
        invariant
            i <= users@.len(),
            known_hash(user_views(users@), 0, hash@) == known_hash(
                user_views(users@),
                i as int,
                hash@,
            ),
        decreases users@.len() - i,
    {
        assert(user_views(users@)[i as int] == users@[i as int]@);
        let own = gen_sunny_auth_hash(users[i].username.as_str(), users[i].password.as_str());
        if bytes_eq(own.as_slice(), hash) {
            return true;
        }
        i += 1;
    }
    false
}

/// What to do with a stream that the peer opened.
#[derive(Debug, Clone, Copy, PartialEq, Eq, Structural)]
pub enum StreamAction {
    /// Read the authentication off it.
    ReadAuth,
    /// Start the connection's UDP services, then read a request off it.
    StartServicesAndServe,
    /// Read a request off it.
    Serve,
}

/// The hash of a peer is unknown: the connection has to be closed.
#[derive(Debug, Clone, Copy, PartialEq, Eq, Structural)]
pub struct InvalidAuthHash;

/// Where one connection stands: whether its peer has authenticated and as whom, and whether its
/// UDP services run.
#[derive(Debug)]
pub struct ConnectionState {
    is_authed: bool,
    services_started: bool,
    user: Option<String>,
}

/// The value of a [`ConnectionState`].
#[verifier::ext_equal]
pub struct ConnectionView {
    pub is_authed: bool,
    pub services_started: bool,
    pub user: Option<Seq<char>>,
}

impl View for ConnectionState {
    type V = ConnectionView;

    closed spec fn view(&self) -> ConnectionView {
        ConnectionView {
            is_authed: self.is_authed,
            services_started: self.services_started,
            user: opt_text(self.user),
        }
    }
}

/// What is done with a stream, given where its connection stands.
pub open spec fn stream_action(conn: ConnectionView) -> StreamAction {
    if !conn.is_authed {
        StreamAction::ReadAuth
    } else if !conn.services_started {
        StreamAction::StartServicesAndServe
    } else {
        StreamAction::Serve
    }
}

impl ConnectionState {
    /// A fresh connection. JLS peers have authenticated in the handshake; without any users
    /// nobody has to.
    pub fn new(is_jls: bool, has_users: bool, jls_user: Option<String>) -> (s: ConnectionState)
        ensures
            s@ == (ConnectionView {
                is_authed: is_jls || !has_users,
                services_started: false,
                user: if is_jls {
                    opt_text(jls_user)
                } else {
                    None
                },
            }),
    {
        ConnectionState {
            is_authed: is_jls || !has_users,
            services_started: false,
            user: if is_jls {
                jls_user
            } else {
                None
            },
        }
    }

    /// The user that the peer authenticated as, if that is known.
    pub fn user(&self) -> (user: Option<&str>)
        ensures
            opt_str(user) == self@.user,
    {
        match &self.user {
            Some(user) => Some(user.as_str()),
            None => None,
        }
    }

    /// The peer opened a stream.
    pub fn on_stream(&mut self) -> (action: StreamAction)
        ensures
            action == stream_action(old(self)@),
            final(self)@ == (ConnectionView {
                services_started: old(self)@.services_started || old(self)@.is_authed,
                ..old(self)@
            }),
    {
        if !self.is_authed {
            return StreamAction::ReadAuth;
        }
        if !self.services_started {
            self.services_started = true;
            return StreamAction::StartServicesAndServe;
        }
        StreamAction::Serve
    }

    /// The peer sent a hash. It authenticates if the observer knows whose it is or if it is that
    /// of a listed user.
    pub fn on_auth(
        &mut self,
        received: &[u8],
        observed: Option<String>,
        users: &Vec<AuthUser>,
    ) -> (r: Result<(), InvalidAuthHash>)
        ensures
            r is Err <==> observed is None && !known_hash(user_views(users@), 0, received@),
            r is Err ==> final(self)@ == old(self)@,
            r is Ok ==> final(self)@ == (ConnectionView {
                is_authed: true,
                user: opt_text(observed),
                ..old(self)@
            }),
    {
        if observed.is_none() && !knows_hash(users, received) {
            return Err(InvalidAuthHash);
        }
        self.user = observed;
        self.is_authed = true;
        Ok(())
    }
}

/// Why no further stream came in on a connection.
#[derive(Debug, Clone, Copy, PartialEq, Eq, Structural)]
pub enum AcceptFault {
    ApplicationClosed,
    ConnectionClosed,
    TimedOut,
    LocallyClosed,
    Reset,
    /// Anything else: an error.
    Other,
}

/// What happened on a connection.
#[derive(Debug)]
pub enum ListenEvent {
    /// The peer opened a stream.
    Stream,
    /// A hash was read off a stream; the observer knows it as this user's.
    Auth(Vec<u8>, Option<String>),
    /// No hash could be read off a stream, with the complaint.
    AuthUnread(String),
    /// No further stream comes, with the complaint.
    NoStream(AcceptFault, String),
}

/// The value of a [`ListenEvent`].
pub enum ListenEventView {
    Stream,
    Auth(Seq<u8>, Option<Seq<char>>),
    AuthUnread(Seq<char>),
    NoStream(AcceptFault, Seq<char>),
}

impl View for ListenEvent {
    type V = ListenEventView;

    open spec fn view(&self) -> ListenEventView {
        match self {
            ListenEvent::Stream => ListenEventView::Stream,
            ListenEvent::Auth(hash, user) => ListenEventView::Auth(hash@, opt_text(*user)),
            ListenEvent::AuthUnread(e) => ListenEventView::AuthUnread(e@),
            ListenEvent::NoStream(fault, e) => ListenEventView::NoStream(*fault, e@),
        }
    }
}

/// What a connection's task does next.
#[derive(Debug)]
pub enum ListenAction {
    /// Wait for the next stream.
    Accept,
    /// Deal with the stream that came in.
    Handle(StreamAction),
    /// Close the connection; where there is a complaint, report it.
    Close(Option<String>),
}

/// The value of a [`ListenAction`].
pub enum ListenActionView {
    Accept,
    Handle(StreamAction),
    Close(Option<Seq<char>>),
}

impl View for ListenAction {
    type V = ListenActionView;

    open spec fn view(&self) -> ListenActionView {
        match self {
            ListenAction::Accept => ListenActionView::Accept,
            ListenAction::Handle(a) => ListenActionView::Handle(*a),
            ListenAction::Close(e) => ListenActionView::Close(opt_text(*e)),
        }
    }
}

/// A server's list of live connections and one connection among them.
#[verifier::ext_equal]
pub struct Served {
    pub live: Map<Seq<char>, Option<Seq<char>>>,
    pub conn: ConnectionView,
}

/// How a connection goes on after an event, and what is done.
pub open spec fn listen_step(
    users: Seq<AuthUserView>,
    peer: Seq<char>,
    s: Served,
    event: ListenEventView,
) -> (Served, ListenActionView) {
    let gone = Served { live: s.live.remove(peer), ..s };
    match event {
        ListenEventView::Stream => (
            Served {
                conn: ConnectionView {
                    services_started: s.conn.services_started || s.conn.is_authed,
                    ..s.conn
                },
                ..s
            },
            ListenActionView::Handle(stream_action(s.conn)),
        ),
        ListenEventView::Auth(hash, user) => if user is None && !known_hash(users, 0, hash) {
            (gone, ListenActionView::Close(Some("Invalid auth hash"@)))
        } else {
            (
                Served {
                    live: identified_as(s.live, peer, user),
                    conn: ConnectionView { is_authed: true, user, ..s.conn },
                },
                ListenActionView::Accept,
            )
        },
        ListenEventView::AuthUnread(e) => (
            gone,
            ListenActionView::Close(Some("auth failed: "@ + e)),
        ),
        ListenEventView::NoStream(fault, e) => (
            gone,
            ListenActionView::Close(
                if fault == AcceptFault::Other {
                    Some("QUIC accept_bi error: "@ + e)
                } else {
                    None
                },
            ),
        ),
    }
}

impl ShadowQuicInbound {
    /// A peer connected; with JLS, the handshake may have shown as whom.
    pub fn accept(&mut self, peer: &str, jls_user: Option<String>) -> (conn: ConnectionState)
        requires
            old(self).conns.wf(),
        ensures
            final(self).conns.wf(),
            final(self).conns@ == old(self).conns@.insert(peer@, conn@.user),
            conn@ == (ConnectionView {
                is_authed: old(self).tls.enable_jls || old(self).users@.len() == 0,
                services_started: false,
                user: if old(self).tls.enable_jls {
                    opt_text(jls_user)
                } else {
                    None
                },
            }),
            final(self).users == old(self).users,
            final(self).same_settings(*old(self)),
    {
        self.conns.opened(peer);
        let has_users = self.users.len() > 0;
        let conn = ConnectionState::new(self.tls.enable_jls, has_users, jls_user);
        if conn.user().is_some() {
            self.conns.identified(peer, conn.user());
        }
        assert(self.conns@ =~= old(self).conns@.insert(peer@, conn@.user));
        conn
    }

    /// One turn of a connection's task: streams are handled once the peer has authenticated, and
    /// whatever goes wrong closes the connection.
    pub fn listen(&mut self, peer: &str, conn: &mut ConnectionState, event: ListenEvent) -> (action:
        ListenAction)
        requires
            old(self).conns.wf(),
        ensures
            final(self).conns.wf(),
            (Served { live: final(self).conns@, conn: final(conn)@ }, action@) == listen_step(
                user_views(old(self).users@),
                peer@,
                Served { live: old(self).conns@, conn: old(conn)@ },
                event@,
            ),
            final(self).users == old(self).users,
            final(self).same_settings(*old(self)),
    {
        match event {
            ListenEvent::Stream => ListenAction::Handle(conn.on_stream()),
            ListenEvent::Auth(hash, user) => match conn.on_auth(
                hash.as_slice(),
                user,
                &self.users,
            ) {
                Ok(()) => {
                    self.conns.identified(peer, conn.user());
                    ListenAction::Accept
                },
                Err(InvalidAuthHash) => {
                    self.conns.ended(peer);
                    ListenAction::Close(Some(copy_text("Invalid auth hash")))
                },
            },
            ListenEvent::AuthUnread(e) => {
                self.conns.ended(peer);
                let mut text = copy_text("auth failed: ");
                push_text(&mut text, e.as_str());
                ListenAction::Close(Some(text))
            },
            ListenEvent::NoStream(fault, e) => {
                self.conns.ended(peer);
                if fault == AcceptFault::Other {
                    let mut text = copy_text("QUIC accept_bi error: ");
                    push_text(&mut text, e.as_str());
                    ListenAction::Close(Some(text))
                } else {
                    ListenAction::Close(None)
                }
            },
        }
    }
}

/// Only a peer that has authenticated is served, and a peer authenticates only with the hash of a
/// user that the observer or the server knows.
pub proof fn law_only_authenticated_peers_are_served(
    users: Seq<AuthUserView>,
    peer: Seq<char>,
    s: Served,
    event: ListenEventView,
)
    ensures
        listen_step(users, peer, s, event).1 matches ListenActionView::Handle(action) && action
            != StreamAction::ReadAuth ==> s.conn.is_authed,
        !s.conn.is_authed && listen_step(users, peer, s, event).0.conn.is_authed ==> (event matches
            ListenEventView::Auth(hash, user) && (user is Some || known_hash(users, 0, hash))),
{
}

/// The UDP services of a connection are started with the first stream that is served, and once.
pub proof fn law_services_start_once(
    users: Seq<AuthUserView>,
    peer: Seq<char>,
    s: Served,
    event: ListenEventView,
)
    ensures
        s.conn.services_started ==> listen_step(users, peer, s, event).0.conn.services_started
            && listen_step(users, peer, s, event).1 != ListenActionView::Handle(
            StreamAction::StartServicesAndServe,
        ),
        listen_step(users, peer, s, event).1 matches ListenActionView::Handle(action) && action
            != StreamAction::ReadAuth ==> listen_step(users, peer, s, event).0.conn.services_started,
{
}

/// A connection is listed under the user that it authenticated as for as long as it is served, and
/// not after it was closed.
pub proof fn law_listing_follows_the_connection(
    users: Seq<AuthUserView>,
    peer: Seq<char>,
    s: Served,
    event: ListenEventView,
)
    requires
        s.live.contains_key(peer),
        s.live[peer] == s.conn.user,
    ensures
        match listen_step(users, peer, s, event) {
            (after, ListenActionView::Close(_)) => !after.live.contains_key(peer),
            (after, _) => after.live.contains_key(peer) && after.live[peer] == after.conn.user,
        },
{
}

/// What a request asks for.
#[derive(Debug, Clone, Copy, PartialEq, Eq, Structural)]
pub enum RequestKind {
    Tcp,
    Udp(UdpMode),
    Extension,
    /// The command is unknown: drop the stream.
    Wrong,
}

/// What the command byte of a request asks for.
pub fn request_kind(cmd: u8) -> (kind: RequestKind)
    ensures
        kind == match cmd {
            0x01u8 => RequestKind::Tcp,
            0x03u8 => RequestKind::Udp(UdpMode::OverDatagram),
            0x04u8 => RequestKind::Udp(UdpMode::OverStream),
            0xffu8 => RequestKind::Extension,
            _ => RequestKind::Wrong,
        },
{
    match cmd {
        0x01 => RequestKind::Tcp,
        0x03 => RequestKind::Udp(UdpMode::OverDatagram),
        0x04 => RequestKind::Udp(UdpMode::OverStream),
        0xff => RequestKind::Extension,
        _ => RequestKind::Wrong,
    }
}

/// A UDP session that a peer asked for.
#[derive(Debug)]
pub struct UdpStart {
    /// The context that the first destination's datagrams are sent under.
    pub context_id: u16,
    /// What is written to the stream to announce it.
    pub announcement: Vec<u8>,
    /// The contexts that the session sends under.
    pub senders: SenderTable,
}

/// The complaint about a connection without room for another UDP session.
pub open spec fn exhausted_text(used: u32) -> Seq<char> {
    "UDP context-id space nearly exhausted on this connection ("@ + dec_text(used as nat)
        + " used), refusing new UDP session"@
}

impl ShadowQuicInbound {
    /// Starts a UDP session: what the peer sends under its context reaches the session, and the
    /// context for what is sent back is announced. A connection whose ids run out by `margin` takes
    /// no further session.
    pub fn handle_udp(
        per_conn: &mut PerConnectionState,
        session: u64,
        target: &TargetAddr,
        recv_context_id: u16,
        margin: u32,
    ) -> (r: Result<UdpStart, String>)
        ensures
            !has_context_capacity(old(per_conn).next_id(), margin) ==> {
                &&& r matches Err(e) && e@ == exhausted_text(old(per_conn).next_id())
                &&& *final(per_conn) == *old(per_conn)
            },
            has_context_capacity(old(per_conn).next_id(), margin) ==> {
                &&& r matches Ok(start) && start.context_id == old(per_conn).next_id()
                    && start.announcement@ == announce_bytes(target@, start.context_id)
                    && start.senders@ == seq![(target@, start.context_id)]
                &&& final(per_conn).next_id() == old(per_conn).next_id() + 1
                &&& final(per_conn).contexts() == old(per_conn).contexts().insert(
                    recv_context_id,
                    (BindingView { session, target: target@ }),
                )
                &&& final(per_conn).waiting() == old(per_conn).waiting()
            },
    {
        let used: u32 = per_conn.used_context_ids();
        if context_capacity(used, margin) {
            let mut senders = SenderTable::new();
            if let Some((context_id, _)) = senders.get_send_context_id(target, per_conn) {
                per_conn.bind_context_id(session, target, recv_context_id);
                assert(senders@ =~= seq![(target@, context_id)]);
                return Ok(
                    UdpStart { context_id, announcement: announce(target, context_id), senders },
                );
            }
        }
        let mut e = copy_text("UDP context-id space nearly exhausted on this connection (");
        push_decimal(&mut e, used as u64);
        push_text(&mut e, " used), refusing new UDP session");
        Err(e)
    }
}

/// A session that was started receives what its peer sends under the context that it bound, and
/// sends to its destination under the context that was announced.
pub proof fn law_started_session_is_reachable(
    contexts: Map<u16, BindingView>,
    waiting: Seq<u16>,
    session: u64,
    target: TargetView,
    recv_context_id: u16,
    context_id: u16,
    payload: Seq<u8>,
)
    requires
        payload.len() > 0,
    ensures
        on_datagram(
            contexts.insert(recv_context_id, BindingView { session, target }),
            waiting,
            datagram_bytes(recv_context_id, payload),
        ) == DatagramView::Feed(session, target, payload),
        sender_id(seq![(target, context_id)], 0, target) == Some(context_id),
{
    law_datagram_reaches_its_session(
        contexts,
        waiting,
        session,
        target,
        recv_context_id,
        payload,
    );
}

/// How an extension request is answered: with statistics, or with this error.
pub fn extension_error(request: ExtensionRequest) -> (r: Option<Vec<u8>>)
    ensures
        match r {
            None => request == ExtensionRequest::GetConnStats,
            Some(reply) => request != ExtensionRequest::GetConnStats && reply@ == seq![1u8, 0u8],
        },
{
    match request {
        ExtensionRequest::GetConnStats => None,
        _ => Some(write_ext_error_not_available()),
    }
}

/// A hash is known exactly when it is the one of some user's name and password.
pub proof fn law_hashes_of_users_are_known(users: Seq<AuthUserView>, hash: Seq<u8>)
    ensures
        known_hash(users, 0, hash) <==> exists|i: int|
            0 <= i < users.len() && #[trigger] sunny_hash(users[i].username, users[i].password)
                == hash,
{
    lemma_known_from(users, 0, hash);
}

proof fn lemma_known_from(users: Seq<AuthUserView>, from: int, hash: Seq<u8>)
    requires
        0 <= from,
    ensures
        known_hash(users, from, hash) <==> exists|i: int|
            from <= i < users.len() && #[trigger] sunny_hash(users[i].username, users[i].password)
                == hash,
    decreases users.len() - from,
{
    if from < users.len() {
        lemma_known_from(users, from + 1, hash);
        if sunny_hash(users[from].username, users[from].password) == hash {
            assert(known_hash(users, from, hash));
        }
    }
}

/// The first streams of a connection are read for an authentication. Once one came, the next
/// stream starts the services of the connection and is served, and every stream after it is
/// served. Nothing of this changes who is listed.
pub proof fn law_streams_of_a_connection(
    users: Seq<AuthUserView>,
    peer: Seq<char>,
    s: Served,
)
    ensures
        ({
            let (after, action) = listen_step(users, peer, s, ListenEventView::Stream);
            &&& after.live == s.live
            &&& after.conn.is_authed == s.conn.is_authed
            &&& after.conn.user == s.conn.user
            &&& !s.conn.is_authed ==> action == ListenActionView::Handle(StreamAction::ReadAuth)
                && after.conn.services_started == s.conn.services_started
            &&& s.conn.is_authed && !s.conn.services_started ==> action == ListenActionView::Handle(
                StreamAction::StartServicesAndServe,
            )
            &&& s.conn.is_authed && s.conn.services_started ==> action == ListenActionView::Handle(
                StreamAction::Serve,
            )
        }),
{
}

/// An authentication that names a user, or whose hash is one of the users', is accepted: the
/// connection is then the user's, and the peer is listed as the user. With an unknown hash the
/// connection is closed, and so it is where no authentication or no further stream could be
/// read. A closed connection is listed no more, and the others stay listed as they were.
pub proof fn law_authentication_decides(
    users: Seq<AuthUserView>,
    peer: Seq<char>,
    other: Seq<char>,
    s: Served,
    hash: Seq<u8>,
    user: Option<Seq<char>>,
    e: Seq<char>,
)
    requires
        s.live.contains_key(peer),
        other != peer,
    ensures
        ({
            let (after, action) = listen_step(users, peer, s, ListenEventView::Auth(hash, user));
            let good = user is Some || exists|i: int|
                0 <= i < users.len() && #[trigger] sunny_hash(users[i].username, users[i].password)
                    == hash;
            &&& good ==> action == ListenActionView::Accept && after.conn.is_authed
                && after.conn.user == user && after.conn.services_started == s.conn.services_started
                && after.live.contains_key(peer) && after.live[peer] == user
            &&& !good ==> action == ListenActionView::Close(Some("Invalid auth hash"@)) && after.conn
                == s.conn && !after.live.contains_key(peer)
            &&& after.live.contains_key(other) == s.live.contains_key(other)
            &&& s.live.contains_key(other) ==> after.live[other] == s.live[other]
        }),
        listen_step(users, peer, s, ListenEventView::AuthUnread(e)) == (
            Served { live: s.live.remove(peer), conn: s.conn },
            ListenActionView::Close(Some("auth failed: "@ + e)),
        ),
        forall|fault: AcceptFault|
            #[trigger] listen_step(users, peer, s, ListenEventView::NoStream(fault, e)) == (
                Served { live: s.live.remove(peer), conn: s.conn },
                ListenActionView::Close(
                    if fault is Other {
                        Some("QUIC accept_bi error: "@ + e)
                    } else {
                        None
                    },
                ),
            ),
{
    law_hashes_of_users_are_known(users, hash);
}

} // verus!
