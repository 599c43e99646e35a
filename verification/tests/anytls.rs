use quicproxy::config::InboundConfig;
use quicproxy::proxy::addr::{IpAddr, SocketAddr, TargetAddr};
use quicproxy::proxy::anytls_proto::{
    build_frame, decode_uot_packet, encode_uot_packet, read_frame, Command, ReadFrame,
    StreamReadBuffer, UotReadBuffer,
};
use quicproxy::proxy::inbound::anytls::{
    open_session, parse_target_from_syn, parse_version, server_settings, AnytlsCertificate,
    AnytlsConfigError, AnytlsInbound, HandshakeStep, InboundSession, SessionAction, TlsOutcome,
};
use quicproxy::proxy::tls::JlsState;

fn ip(ip: IpAddr, port: u16) -> TargetAddr {
    TargetAddr::Ip(SocketAddr { ip, port, scope_id: 0 })
}

#[test]
fn rejects_unknown_command_without_panicking() {
    assert!(Command::try_from(255).is_err());
}

#[test]
fn stream_read_buffer_preserves_frame_tail() {
    let mut pending = StreamReadBuffer::default();
    let mut first = Vec::new();
    pending.copy_from(b"abcdef".to_vec(), &mut first, 3);
    assert_eq!(&first, b"abc");

    let mut second = Vec::new();
    assert!(pending.copy_to(&mut second, 3));
    assert_eq!(&second, b"def");
}

#[test]
fn uot_decoder_handles_fragmented_long_domain() {
    let target = TargetAddr::Domain("a".repeat(255), 53);
    let packet = encode_uot_packet(b"dns", Some(&target)).unwrap();
    let mut decoder = UotReadBuffer::default();
    decoder.push(&packet[..257]);
    assert!(decoder.next_packet(false).unwrap().is_none());
    decoder.push(&packet[257..]);

    let decoded = decoder.next_packet(false).unwrap().unwrap();
    let (decoded_target, payload) = decode_uot_packet(&decoded, false).unwrap();
    assert_eq!(decoded_target, Some(target));
    assert_eq!(payload.as_slice(), b"dns");
}

#[test]
fn test_parse_target_ipv4() {
    let data = [1u8, 192, 168, 1, 1, 0x1f, 0x90];
    let result = parse_target_from_syn(&data).expect("parse IPv4 SYN");
    assert_eq!(result, ip(IpAddr::V4(u32::from_be_bytes([192, 168, 1, 1])), 8080));
}

#[test]
fn test_parse_target_domain() {
    let domain = b"localhost";
    let mut data = vec![3u8, domain.len() as u8];
    data.extend_from_slice(domain);
    data.extend_from_slice(&443u16.to_be_bytes());
    let result = parse_target_from_syn(&data).expect("parse domain SYN");
    assert_eq!(result, TargetAddr::Domain("localhost".to_string(), 443));
}

#[test]
fn test_parse_target_domain_long() {
    let domain = b"a.test.domain.example.com";
    let mut data = vec![3u8, domain.len() as u8];
    data.extend_from_slice(domain);
    data.extend_from_slice(&80u16.to_be_bytes());
    let result = parse_target_from_syn(&data).expect("parse long domain SYN");
    assert_eq!(
        result,
        TargetAddr::Domain("a.test.domain.example.com".to_string(), 80)
    );
}

#[test]
fn test_parse_target_ipv6() {
    let ipv6: u128 = 0x2001_0db8_0000_0000_0000_0000_0000_0001;
    let mut data = vec![4u8];
    data.extend_from_slice(&ipv6.to_be_bytes());
    data.extend_from_slice(&9000u16.to_be_bytes());
    let result = parse_target_from_syn(&data).expect("parse IPv6 SYN");
    assert_eq!(result, ip(IpAddr::V6(ipv6), 9000));
}

#[test]
fn test_parse_target_empty() {
    let result = parse_target_from_syn(&[]);
    assert!(result.is_err(), "empty data should error");
}

#[test]
fn test_parse_target_ipv4_too_short() {
    let data = [1u8, 192, 168, 1];
    let result = parse_target_from_syn(&data);
    assert!(result.is_err(), "truncated IPv4 should error");
}

#[test]
fn test_parse_target_domain_too_short() {
    let data = [3u8, 10, b'h', b'e', b'l', b'l', b'o'];
    let result = parse_target_from_syn(&data);
    assert!(result.is_err(), "truncated domain should error");
}

#[test]
fn test_parse_target_ipv6_too_short() {
    let data = [4u8, 0, 0, 0, 0, 0, 0, 0, 0];
    let result = parse_target_from_syn(&data);
    assert!(result.is_err(), "truncated IPv6 should error");
}

#[test]
fn test_parse_target_unknown_atyp() {
    let data = [99u8, 0, 0, 0, 0, 0, 0];
    let result = parse_target_from_syn(&data);
    assert!(result.is_err(), "unknown ATYP should error");
}

#[test]
fn test_parse_version_from_settings() {
    let v = parse_version(b"v=2\nclient=test\n");
    assert_eq!(v, 2);

    let v_default = parse_version(b"no version here\n");
    assert_eq!(v_default, 1);

    let v_empty = parse_version(b"");
    assert_eq!(v_empty, 1);
}

#[test]
fn test_target_addr_to_bytes_roundtrip() {
    let addr = ip(IpAddr::V4(u32::from_be_bytes([10, 0, 0, 1])), 8080);
    let bytes = addr.to_bytes();
    let parsed = parse_target_from_syn(&bytes).expect("roundtrip IPv4");
    assert_eq!(parsed, addr);

    let daddr = TargetAddr::Domain("test.example.com".to_string(), 443);
    let dbytes = daddr.to_bytes();
    let dparsed = parse_target_from_syn(&dbytes).expect("roundtrip domain");
    assert_eq!(dparsed, daddr);
}

#[test]
fn frames_are_read_back() {
    let frame = build_frame(Command::Psh, 7, b"data").unwrap();
    assert_eq!(&frame[..7], &[2, 0, 0, 0, 7, 0, 4]);
    match read_frame(&frame) {
        ReadFrame::Frame(cmd, stream_id, data, used) => {
            assert_eq!((cmd, stream_id, data.as_slice()), (Command::Psh, 7, b"data".as_slice()));
            assert_eq!(used, frame.len());
        }
        other => panic!("no frame: {:?}", other),
    }
    assert!(build_frame(Command::Psh, 7, &vec![0; 65_536]).is_err());
}

#[test]
fn sessions_open_streams_in_order() {
    let mut session = InboundSession::new();
    let _ = session.read_loop(Command::Syn, 1, Vec::new());
    let target = TargetAddr::Domain("example.com".to_string(), 80);
    let opened = session.read_loop(Command::Psh, 1, target.to_bytes());
    assert!(matches!(opened, SessionAction::OpenTcp(1, TargetAddr::Domain(_, 80))));
    let delivered = session.read_loop(Command::Psh, 1, b"payload".to_vec());
    assert!(matches!(delivered, SessionAction::Deliver(1, _)));
    let unknown = session.read_loop(Command::Psh, 9, b"payload".to_vec());
    assert!(!matches!(unknown, SessionAction::Deliver(_, _)));
}

#[test]
fn sessions_need_the_password() {
    let mut hello = vec![7u8; 32];
    hello.extend_from_slice(&[0, 0]);
    hello.extend_from_slice(&build_frame(Command::Settings, 0, b"v=2").unwrap());
    let len = hello.len();
    match open_session(&hello, &[7; 32]) {
        HandshakeStep::Ready(version, _, used) => assert_eq!((version, used), (2, len)),
        other => panic!("the session should be open: {:?}", other),
    }
    assert!(matches!(open_session(&hello, &[8; 32]), HandshakeStep::AuthFailed));
    assert!(matches!(open_session(&hello[..33], &[7; 32]), HandshakeStep::More(_)));
    let mut wrong = hello[..34].to_vec();
    wrong.extend_from_slice(&build_frame(Command::Syn, 0, b"").unwrap());
    assert!(matches!(open_session(&wrong, &[7; 32]), HandshakeStep::Unexpected(_)));
    wrong[34] = 200;
    assert!(matches!(open_session(&wrong, &[7; 32]), HandshakeStep::UnknownCommand(200)));
    assert_eq!(server_settings()[0], 10);
}

#[test]
fn servers_need_a_password_and_an_address() {
    let mut cfg = InboundConfig {
        protocol_type: "anytls".to_string(),
        address: None,
        port: None,
        set_system_proxy: false,
        tls: None,
        transport: None,
        idle_timeout: None,
        username: None,
        password: None,
        udp_mod: None,
        congestion_controller: None,
        gso: true,
        mtu_discoveriy: true,
        mtu: None,
        min_mtu: 1400,
        initial_mtu: 1400,
        auto_route: None,
        strict_route: false,
        block_ipv6: false,
        tun_name: None,
        tun_address: None,
        tun_fd: None,
    };
    assert_eq!(
        AnytlsInbound::new("a".to_string(), &cfg).unwrap_err(),
        AnytlsConfigError::MissingPassword
    );
    cfg.password = Some("secret".to_string());
    assert_eq!(
        AnytlsInbound::new("a".to_string(), &cfg).unwrap_err(),
        AnytlsConfigError::MissingAddress
    );
    cfg.address = Some("127.0.0.1".to_string());
    assert_eq!(
        AnytlsInbound::new("a".to_string(), &cfg).unwrap_err(),
        AnytlsConfigError::MissingPort
    );
    cfg.port = Some(443);
    let server = AnytlsInbound::new("a".to_string(), &cfg).unwrap();
    assert_eq!(server.password_hash.len(), 32);
    assert_eq!(
        server.password_hash[..4],
        [0x2b, 0xb8, 0x0d, 0x53],
    );
    assert!(matches!(server.certificate(), AnytlsCertificate::SelfSigned(h) if h == "localhost"));
    assert!(server.listen_tcp("p", TlsOutcome::Accepted(JlsState::NotAuthed)).is_ok());
    assert_eq!(
        server.listen_tcp("p", TlsOutcome::Failed("bad".to_string())).unwrap_err(),
        "Anytls inbound TLS error from p: bad"
    );
    assert_eq!(
        server.listen_tcp("p", TlsOutcome::TimedOut).unwrap_err(),
        "Anytls inbound TLS timeout from p"
    );
    let mut jls = server;
    jls.tls.enable_jls = true;
    jls.tls.cert = Some("c.pem".to_string());
    jls.tls.key = Some("k.pem".to_string());
    assert_eq!(
        jls.listen_tcp("p", TlsOutcome::Accepted(JlsState::NotAuthed)).unwrap_err(),
        "Anytls inbound JLS error from p: JLS authentication failed"
    );
    assert!(jls.listen_tcp("p", TlsOutcome::Accepted(JlsState::AuthSuccess)).is_ok());
    assert!(matches!(jls.certificate(), AnytlsCertificate::Files { cert, .. } if cert == "c.pem"));
    cfg.address = Some("nowhere".to_string());
    assert_eq!(
        AnytlsInbound::new("a".to_string(), &cfg).unwrap_err(),
        AnytlsConfigError::InvalidAddress
    );
}
