use quicproxy::proxy::addr::{IpAddr, SocketAddr, TargetAddr, TargetTextError};
use quicproxy::proxy::shadowquic_udp::{
    announce, auth_packet, auth_sunnyquic, build_datagram, build_stream_packet, context_address,
    context_capacity, gen_sunny_auth_hash, packet_ends, read_addr_and_context_id,
    read_conn_stats_response, read_extension_request, read_request_head, read_stream_packet,
    read_sunny_auth, stats_request, tcp_head, udp_head, write_conn_stats_response, AuthError,
    DatagramAction, ExtensionRequest, PerConnectionState, ReadAnnounce, ReadAuth, ReadExtension,
    ReadHead, ReadStats, SenderTable, UdpMode,
};

fn domain(name: &str, port: u16) -> TargetAddr {
    TargetAddr::Domain(name.to_string(), port)
}

fn ip(ip: IpAddr, port: u16) -> TargetAddr {
    TargetAddr::Ip(SocketAddr { ip, port, scope_id: 0 })
}

#[test]
fn targets_are_read_back_from_their_text() {
    let targets = [
        ip(IpAddr::V4(0xc000_0201), 443),
        ip(IpAddr::V6(0x2001_0db8_0000_0000_0000_0000_0000_0001), 53),
        ip(IpAddr::V6(0xffff_c000_0201), 1),
        ip(IpAddr::V6(0), 65535),
        ip(IpAddr::V6(u128::MAX), 7),
        domain("example.com", 80),
    ];
    let texts = [
        "192.0.2.1:443",
        "[2001:db8::1]:53",
        "[::ffff:192.0.2.1]:1",
        "[::]:65535",
        "[ffff:ffff:ffff:ffff:ffff:ffff:ffff:ffff]:7",
        "example.com:80",
    ];
    for (target, text) in targets.iter().zip(texts) {
        assert_eq!(target.to_text(), text);
        assert_eq!(&TargetAddr::from_str(text).unwrap(), target);
    }
    let zoned = TargetAddr::from_str("[fe80::1%3]:9").unwrap();
    assert_eq!(
        zoned,
        TargetAddr::Ip(SocketAddr {
            ip: IpAddr::V6(0xfe80_0000_0000_0000_0000_0000_0000_0001),
            port: 9,
            scope_id: 3,
        })
    );
    assert_eq!(zoned.to_text(), "[fe80::1%3]:9");
    assert_eq!(TargetAddr::from_str("nowhere").unwrap_err(), TargetTextError::NoPort);
    assert_eq!(TargetAddr::from_str("host:x").unwrap_err(), TargetTextError::InvalidPort);
    assert_eq!(TargetAddr::from_str(":1").unwrap_err(), TargetTextError::EmptyHost);
}

#[test]
fn hashes_authenticate() {
    let hash = gen_sunny_auth_hash("alice", "pw");
    assert_eq!(hash.len(), 64);
    let packet = auth_packet(&hash);
    assert_eq!(packet[0], 5);
    assert!(matches!(read_sunny_auth(&packet), ReadAuth::Hash(h) if h == hash));
    assert!(matches!(read_sunny_auth(&packet[..10]), ReadAuth::More(65)));
    assert!(matches!(read_sunny_auth(&[1; 65]), ReadAuth::WrongCommand));
    assert_eq!(auth_sunnyquic(&packet, &hash), Ok(0));
    let other = gen_sunny_auth_hash("alice", "other");
    assert_eq!(auth_sunnyquic(&packet, &other), Err(AuthError::InvalidHash));
    assert_eq!(auth_sunnyquic(&[1; 65], &hash), Err(AuthError::WrongCommand));
}

#[test]
fn request_heads_are_read_back() {
    let target = domain("example.com", 443);
    let head = tcp_head(&target);
    assert_eq!(head[0], 1);
    let used = head.len();
    match read_request_head(&[head, b"more".to_vec()].concat()) {
        ReadHead::Done(1, t, n) => {
            assert_eq!(t, target);
            assert_eq!(n, used);
        }
        other => panic!("{other:?}"),
    }
    let request = [udp_head(UdpMode::OverStream), announce(&target, 7)].concat();
    match read_request_head(&request) {
        ReadHead::Done(4, t, n) => {
            assert_eq!(t, target);
            assert_eq!(&request[n..], [0, 7]);
        }
        other => panic!("{other:?}"),
    }
    assert!(matches!(read_request_head(&[]), ReadHead::More(1)));
    assert!(matches!(read_request_head(&[1, 9]), ReadHead::InvalidType(9)));
    assert!(matches!(read_request_head(&[1, 3, 1, 0xff, 0, 1]), ReadHead::InvalidDomain));
    match read_addr_and_context_id(&announce(&target, 513)) {
        ReadAnnounce::Done(id, t, _) => {
            assert_eq!(t, target);
            assert_eq!(id, 513);
        }
        other => panic!("{other:?}"),
    }
}

#[test]
fn statistics_are_exchanged() {
    let request = stats_request();
    assert!(matches!(read_request_head(&request), ReadHead::Done(0xff, _, 1)));
    assert_eq!(
        read_extension_request(&request[1..]),
        ReadExtension::Done(ExtensionRequest::GetConnStats)
    );
    assert_eq!(read_extension_request(&[0; 4]), ReadExtension::More(8));
    let rtt = 12.5f64.to_bits();
    let reply = write_conn_stats_response(3, 400, rtt, 1400);
    match read_conn_stats_response(&reply) {
        ReadStats::Done(stats) => {
            assert_eq!((stats.lost_packets, stats.sent_packets, stats.mtu), (3, 400, 1400));
            assert_eq!(f64::from_bits(stats.rtt_ms_bits), 12.5);
        }
        other => panic!("{other:?}"),
    }
    assert_eq!(read_conn_stats_response(&[1, 0]), ReadStats::Refused(1));
}

#[test]
fn packets_are_framed() {
    assert_eq!(build_datagram(258, b"x"), vec![1, 2, b'x']);
    let framed = build_stream_packet(b"abc");
    assert_eq!(framed, vec![0, 3, b'a', b'b', b'c']);
    assert_eq!(read_stream_packet(&framed).unwrap(), (b"abc".to_vec(), 5));
    assert_eq!(read_stream_packet(&framed[..3]).unwrap_err(), 5);
}

#[test]
fn datagrams_wait_for_their_context() {
    let mut state = PerConnectionState::new();
    let target = domain("a.example", 53);
    assert!(matches!(state.handle_datagram(&[0, 9]), DatagramAction::Ignore));
    assert!(matches!(state.handle_datagram(&[0, 9, 1]), DatagramAction::Park(9, _, true)));
    assert!(matches!(state.handle_datagram(&[0, 9, 2]), DatagramAction::Park(9, _, false)));
    state.bind_context_id(4, &target, 9);
    state.waiter_done(9);
    match state.handle_datagram(&[0, 9, 3]) {
        DatagramAction::Feed(4, t, payload) => {
            assert_eq!(t, target);
            assert_eq!(payload, vec![3]);
        }
        other => panic!("{other:?}"),
    }
    state.clean(&vec![9]);
    assert!(state.context(9).is_none());
}

#[test]
fn context_ids_run_out() {
    let mut ids = PerConnectionState::new();
    let mut senders = SenderTable::new();
    let (a, b) = (domain("a", 1), domain("b", 2));
    assert_eq!(senders.get_send_context_id(&a, &mut ids), Some((1, true)));
    for id in 2..=65535u16 {
        assert_eq!(ids.take_context_id(), Some(id));
    }
    assert_eq!(ids.take_context_id(), None);
    assert_eq!(senders.get_send_context_id(&b, &mut ids), None);
    assert_eq!(senders.get_send_context_id(&a, &mut ids), Some((1, false)));
    assert_eq!(ids.used_context_ids(), 65536);
}

#[test]
fn every_destination_has_one_context() {
    let mut ids = PerConnectionState::new();
    let mut senders = SenderTable::new();
    let (a, b) = (domain("a", 1), domain("b", 2));
    assert_eq!(senders.get_send_context_id(&a, &mut ids), Some((1, true)));
    assert_eq!(senders.get_send_context_id(&b, &mut ids), Some((2, true)));
    assert_eq!(senders.get_send_context_id(&a, &mut ids), Some((1, false)));
    assert_eq!(ids.used_context_ids(), 3);
    assert!(context_capacity(10, 100));
    assert!(!context_capacity(65500, 100));
    assert_eq!(context_address(true, &a, &b), b);
    assert_eq!(context_address(false, &a, &b), a);
    assert_eq!(packet_ends(false, &a, &b), (b.copy(), a.copy()));
    assert_eq!(packet_ends(true, &a, &b), (a, TargetAddr::dummy()));
}
