use quicproxy::config::{AuthUser, InboundConfig, InboundTlsConfig};
use quicproxy::proxy::addr::TargetAddr;
use quicproxy::proxy::inbound::init::{
    apply_user_change, change_failed, enroll_inbound, inbound_kind, init_inbounds, merge_users,
    register_inbound, shutdown_inbounds, AnyInbound, InboundEntry, InboundKind, InboundRegistry,
};
use quicproxy::proxy::inbound::links::{
    build_sub_links, encode_uri_component, uri_host, RegisteredInbound,
};
use quicproxy::proxy::inbound::shadowquic::{
    extension_error, request_kind, AcceptFault, ConnectionState, ListenAction, ListenEvent,
    RequestKind, ShadowQuicConfigError, ShadowQuicInbound, StreamAction,
};
use quicproxy::proxy::observe::Observer;
use quicproxy::proxy::shadowquic_udp::{
    gen_sunny_auth_hash, ExtensionRequest, PerConnectionState, UdpMode,
};
use quicproxy::proxy::tls::{
    configure_jls_client, configure_jls_server, validate_jls, verify_jls_connection, JlsState,
    TlsConfig,
};

fn user(username: &str, password: &str) -> AuthUser {
    AuthUser {
        username: username.to_string(),
        password: password.to_string(),
    }
}

fn config() -> InboundConfig {
    InboundConfig {
        protocol_type: "shadowquic".to_string(),
        address: Some("127.0.0.1".to_string()),
        port: Some(0),
        set_system_proxy: false,
        tls: Some(InboundTlsConfig {
            enable: true,
            server_name: None,
            cert: None,
            key: None,
            alpn: None,
            enable_jls: false,
            jls_username: None,
            jls_password: None,
        }),
        transport: None,
        idle_timeout: None,
        username: Some("seed".to_string()),
        password: Some("pw".to_string()),
        udp_mod: None,
        congestion_controller: None,
        gso: true,
        mtu_discoveriy: true,
        mtu: None,
        min_mtu: 1400,
        initial_mtu: 1400,
        auto_route: None,
        strict_route: false,
        block_ipv6: false,
        tun_name: None,
        tun_address: None,
        tun_fd: None,
    }
}

fn test_inbound(users: Vec<AuthUser>) -> ShadowQuicInbound {
    ShadowQuicInbound::new("sq_in".to_string(), &config(), users).unwrap()
}

fn usernames(inbound: &ShadowQuicInbound) -> Vec<String> {
    inbound.users.iter().map(|u| u.username.clone()).collect()
}

#[test]
fn uri_component_encodes_reserved_characters() {
    assert_eq!(encode_uri_component("my tag"), "my%20tag");
    assert_eq!(encode_uri_component("a&b=c"), "a%26b%3Dc");
    assert_eq!(encode_uri_component("cdn.example.com"), "cdn.example.com");
}

#[test]
fn uri_host_brackets_ipv6_only() {
    assert_eq!(uri_host("2001:db8::1"), "[2001:db8::1]");
    assert_eq!(uri_host("1.2.3.4"), "1.2.3.4");
    assert_eq!(uri_host("[2001:db8::1]"), "[2001:db8::1]");
}

#[test]
fn everything_but_unreserved_characters_is_encoded() {
    assert_eq!(encode_uri_component("a-b_c.d~e"), "a-b_c.d~e");
    assert_eq!(encode_uri_component("<ä>"), "%3C%C3%A4%3E");
}

#[test]
fn share_links_come_ipv6_first_and_by_tag() {
    let inbounds = vec![
        RegisteredInbound { tag: "b_inbound".to_string(), protocol: "trojan".to_string() },
        RegisteredInbound { tag: "a".to_string(), protocol: "vmess".to_string() },
    ];
    let hosts = vec!["1.2.3.4".to_string(), "2001:db8::1".to_string()];
    let links = build_sub_links(&hosts, &inbounds, None);
    let seen: Vec<(&str, &str)> =
        links.iter().map(|l| (l.host.as_str(), l.name.as_str())).collect();
    assert_eq!(
        seen,
        vec![
            ("2001:db8::1", "a-IPv6"),
            ("2001:db8::1", "b-IPv6"),
            ("1.2.3.4", "a-IPv4"),
            ("1.2.3.4", "b-IPv4"),
        ]
    );
    let named = build_sub_links(&hosts, &inbounds, Some("home"));
    assert_eq!(named[0].name, "home-vmess-IPv6");

    let turned: Vec<RegisteredInbound> = inbounds
        .iter()
        .rev()
        .map(|i| RegisteredInbound { tag: i.tag.clone(), protocol: i.protocol.clone() })
        .collect();
    let again = build_sub_links(&hosts, &turned, None);
    let stable: Vec<(&str, &str)> =
        again.iter().map(|l| (l.host.as_str(), l.name.as_str())).collect();
    assert_eq!(stable, seen);
}

#[test]
fn add_user_appends_and_updates() {
    let mut inbound = test_inbound(vec![user("seed", "pw")]);

    inbound.add_user(&user("alice", "a1"));
    assert_eq!(usernames(&inbound), vec!["seed", "alice"]);

    inbound.add_user(&user("alice", "a2"));
    assert_eq!(inbound.users.len(), 2);
    assert_eq!(
        inbound.users.iter().find(|u| u.username == "alice").unwrap().password,
        "a2"
    );
}

#[test]
fn remove_user_drops_only_the_target() {
    let mut inbound = test_inbound(vec![user("seed", "pw"), user("alice", "a1")]);

    inbound.remove_user("alice");

    assert_eq!(usernames(&inbound), vec!["seed"]);
}

#[test]
fn connections_of_removed_users_are_closed() {
    let mut inbound = test_inbound(vec![user("seed", "pw"), user("alice", "a1")]);
    let hash = gen_sunny_auth_hash("alice", "a1");
    let mut conn = inbound.accept("1.2.3.4:5", None);
    let mut other = inbound.accept("1.2.3.4:6", None);
    assert!(matches!(
        inbound.listen("1.2.3.4:5", &mut conn, ListenEvent::Stream),
        ListenAction::Handle(StreamAction::ReadAuth)
    ));
    let known = ListenEvent::Auth(hash.clone(), Some("alice".to_string()));
    assert!(matches!(inbound.listen("1.2.3.4:5", &mut conn, known), ListenAction::Accept));
    let unnamed = ListenEvent::Auth(hash, None);
    assert!(matches!(inbound.listen("1.2.3.4:6", &mut other, unnamed), ListenAction::Accept));
    assert!(matches!(
        inbound.listen("1.2.3.4:5", &mut conn, ListenEvent::Stream),
        ListenAction::Handle(StreamAction::StartServicesAndServe)
    ));

    assert_eq!(inbound.remove_user("alice"), vec!["1.2.3.4:5"]);

    assert!(!inbound.conns.contains("1.2.3.4:5"));
    assert!(inbound.conns.contains("1.2.3.4:6"));
    assert_eq!(conn.user(), Some("alice"));
    assert_eq!(other.user(), None);
}

#[test]
fn failures_close_connections() {
    let mut inbound = test_inbound(vec![user("seed", "pw")]);
    let mut conn = inbound.accept("p", None);
    let wrong = ListenEvent::Auth(vec![0; 64], None);
    let refused = inbound.listen("p", &mut conn, wrong);
    assert!(matches!(refused, ListenAction::Close(Some(e)) if e == "Invalid auth hash"));
    assert!(!inbound.conns.contains("p"));

    let mut conn = inbound.accept("p", None);
    let unread = inbound.listen("p", &mut conn, ListenEvent::AuthUnread("eof".to_string()));
    assert!(matches!(unread, ListenAction::Close(Some(e)) if e == "auth failed: eof"));
    let ended = ListenEvent::NoStream(AcceptFault::TimedOut, "timed out".to_string());
    assert!(matches!(inbound.listen("p", &mut conn, ended), ListenAction::Close(None)));
    let broken = ListenEvent::NoStream(AcceptFault::Other, "x".to_string());
    assert!(matches!(
        inbound.listen("p", &mut conn, broken),
        ListenAction::Close(Some(e)) if e == "QUIC accept_bi error: x"
    ));
}

#[test]
fn udp_sessions_need_room_on_their_connection() {
    let target = TargetAddr::Domain("a.b".to_string(), 53);
    let mut state = PerConnectionState::new();
    let start = ShadowQuicInbound::handle_udp(&mut state, 9, &target, 77, 100).unwrap();
    assert_eq!(start.context_id, 1);
    assert_eq!(start.announcement, vec![3, 3, b'a', b'.', b'b', 0, 53, 0, 1]);
    assert_eq!(state.context(77).unwrap().session, 9);
    let full = ShadowQuicInbound::handle_udp(&mut state, 9, &target, 78, 65533).unwrap_err();
    assert_eq!(
        full,
        "UDP context-id space nearly exhausted on this connection (2 used), refusing new UDP session"
    );
}

#[test]
fn servers_without_tls_or_users_are_refused() {
    assert!(matches!(
        ShadowQuicInbound::new("s".to_string(), &config(), Vec::new()),
        Err(ShadowQuicConfigError::NoUsers)
    ));
    let mut cfg = config();
    cfg.tls.as_mut().unwrap().enable = false;
    assert!(matches!(
        ShadowQuicInbound::new("s".to_string(), &cfg, vec![user("a", "b")]),
        Err(ShadowQuicConfigError::TlsDisabled)
    ));
    cfg.tls.as_mut().unwrap().enable_jls = true;
    assert!(matches!(
        ShadowQuicInbound::new("s".to_string(), &cfg, vec![user("a", "b")]),
        Err(ShadowQuicConfigError::Tls(_))
    ));
    let mut cfg = config();
    cfg.port = None;
    assert!(matches!(
        ShadowQuicInbound::new("s".to_string(), &cfg, vec![user("a", "b")]),
        Err(ShadowQuicConfigError::Endpoint(_))
    ));
}

#[test]
fn connections_authenticate_before_they_are_served() {
    let users = vec![user("alice", "pw")];
    let mut conn = ConnectionState::new(false, true, None);
    assert_eq!(conn.on_stream(), StreamAction::ReadAuth);
    assert!(conn.on_auth(&[0; 64], None, &users).is_err());
    assert!(conn.on_auth(&gen_sunny_auth_hash("alice", "pw"), None, &users).is_ok());
    assert_eq!(conn.on_stream(), StreamAction::StartServicesAndServe);
    assert_eq!(conn.on_stream(), StreamAction::Serve);
    assert_eq!(request_kind(1), RequestKind::Tcp);
    assert_eq!(request_kind(3), RequestKind::Udp(UdpMode::OverDatagram));
    assert_eq!(request_kind(0), RequestKind::Wrong);
    assert!(extension_error(ExtensionRequest::GetConnStats).is_none());
    assert!(extension_error(ExtensionRequest::UserExtension).is_some());
}

#[test]
fn enabled_jls_rejects_an_unauthenticated_connection() {
    let tls = TlsConfig {
        enable_jls: true,
        ..TlsConfig::default()
    };

    assert!(verify_jls_connection(&tls, JlsState::NotAuthed).is_err());
    assert!(verify_jls_connection(&tls, JlsState::AuthSuccess).is_ok());
}

#[test]
fn jls_accounts_reach_both_peers() {
    let tls = TlsConfig {
        enable_jls: true,
        jls_username: "jls-user".to_string(),
        jls_password: "jls-password".to_string(),
        sni: Some("localhost".to_string()),
        ..TlsConfig::default()
    };
    let client = configure_jls_client(&tls).unwrap();
    let server = configure_jls_server(&tls).unwrap();
    assert_eq!(client.username, "jls-user");
    assert_eq!(client.username, server.username);
    assert_eq!(client.password, server.password);
    assert!(configure_jls_client(&TlsConfig::default()).is_none());
    assert!(validate_jls(true, "u", "").is_err());
    assert!(validate_jls(false, "", "").is_ok());
}

#[test]
fn kinds_go_by_protocol_in_any_case() {
    let prepared = init_inbounds("ShadowQUIC", vec![user("a", "b")], &Vec::new()).unwrap();
    assert_eq!(prepared.kind, InboundKind::ShadowQuic);
    assert_eq!(prepared.protocol, "shadowquic");
    assert_eq!(inbound_kind("trojan").unwrap(), InboundKind::Trojan);
    assert_eq!(
        init_inbounds("Gopher", Vec::new(), &Vec::new()).unwrap_err(),
        "Unknown inbound type: gopher"
    );
    assert!(inbound_kind("tun").unwrap_err().starts_with("TUN support"));
}

#[test]
fn users_of_earlier_runs_are_added() {
    let merged = merge_users(
        vec![user("a", "configured")],
        &vec![user("a", "stored"), user("b", "stored")],
        "trojan",
    );
    assert_eq!(merged.len(), 2);
    assert_eq!(merged[0].password, "configured");
    assert_eq!(merged[1].username, "b");
    assert_eq!(merge_users(Vec::new(), &vec![user("b", "x")], "socks5").len(), 0);
    assert_eq!(merge_users(Vec::new(), &vec![user("b", "x")], "vmess").len(), 0);
}

#[test]
fn enrolled_users_are_let_in() {
    let mut observer = Observer::new();
    enroll_inbound(&mut observer, "t", "trojan", true, &vec![user("a", "pw")]);
    let credential = quicproxy::proxy::credentials::credential_hash("trojan", "a", "pw").unwrap();
    assert_eq!(observer.authenticate("t", &credential).unwrap().0, "a");
    assert!(observer.get_inbound_stats("t").is_some());
    enroll_inbound(&mut observer, "s", "socks5", false, &vec![user("c", "pw")]);
    assert!(!observer.has_user("c"));
}

#[test]
fn changes_reach_servers_with_users() {
    let mut registry = InboundRegistry::new();
    for (tag, supports_users) in [("a", true), ("b", false), ("c", true)] {
        register_inbound(
            &mut registry,
            tag,
            InboundEntry { protocol: "trojan".to_string(), supports_users },
        );
    }
    let mut tags = apply_user_change(&registry);
    tags.sort();
    assert_eq!(tags, vec!["a", "c"]);
    assert_eq!(change_failed("a", "no"), "apply user to inbound 'a' failed: no");
    shutdown_inbounds(&mut registry);
    assert!(apply_user_change(&registry).is_empty());

    let mut inbound = test_inbound(vec![user("seed", "pw")]);
    assert_eq!(AnyInbound::protocol(&inbound), "shadowquic");
    assert!(AnyInbound::supports_users(&inbound));
    assert!(AnyInbound::add_user(&mut inbound, &user("x", "y")).is_ok());
    AnyInbound::remove_user(&mut inbound, "seed");
    assert_eq!(usernames(&inbound), vec!["x"]);
}

#[test]
fn servers_take_their_tls_settings_over() {
    let mut cfg = config();
    let tls = cfg.tls.as_mut().unwrap();
    tls.server_name = Some("example.org".to_string());
    tls.cert = Some("c.pem".to_string());
    tls.key = Some("k.pem".to_string());
    tls.alpn = Some(vec!["h3".to_string()]);
    tls.enable_jls = true;
    tls.jls_username = Some("alice".to_string());
    tls.jls_password = Some("pw".to_string());
    let mut server = ShadowQuicInbound::new("s".to_string(), &cfg, Vec::new()).unwrap();
    server.add_user(&user("bob", "pw"));
    let tls = &server.tls;
    assert_eq!(tls.sni.as_deref(), Some("example.org"));
    assert_eq!(tls.cert.as_deref(), Some("c.pem"));
    assert_eq!(tls.key.as_deref(), Some("k.pem"));
    assert_eq!(tls.alpns, Some(vec!["h3".to_string()]));
    assert_eq!((tls.jls_username.as_str(), tls.jls_password.as_str()), ("alice", "pw"));
    assert!(tls.enable_jls && !tls.insecure && !tls.zero_rtt);
}
