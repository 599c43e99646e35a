use aes_gcm::aead::{Aead, Payload};
use aes_gcm::{Aes128Gcm, KeyInit};
use quicproxy::config::{AuthUser, InboundConfig};
use quicproxy::crypto::derive_key;
use quicproxy::proxy::addr::TargetAddr;
use quicproxy::proxy::observe::Observer;
use quicproxy::proxy::inbound::vmess::{
    accept, accept_header, authenticate, body_cipher, new_id, parse_request, response_keys,
    handle_client, send_response_header, AcceptError, AcceptStep, ClientSession, ReadPoll, RequestError, VmessConfigError, VmessInbound,
    VmessReader, VmessRequest, VmessWriter, WriteStep, OPTION_CHUNK_STREAM, SECURITY_AES_128_GCM,
    SECURITY_CHACHA20_POLY1305, VERSION,
};

const UUID: &str = "b831381d-6324-4d53-ad4f-8cda48b30811";

fn user(username: &str) -> AuthUser {
    AuthUser {
        username: username.to_string(),
        password: String::new(),
    }
}

fn request_header(security: u8) -> Vec<u8> {
    let mut h = Vec::new();
    h.push(VERSION);
    h.extend_from_slice(&[3u8; 16]);
    h.extend_from_slice(&[4u8; 16]);
    h.push(7);
    h.push(OPTION_CHUNK_STREAM);
    h.push(security);
    h.push(0);
    h.push(1);
    h.extend_from_slice(&443u16.to_be_bytes());
    h.push(0x02);
    h.push(11);
    h.extend_from_slice(b"example.com");
    h.extend_from_slice(&[0u8; 4]);
    h
}

fn seal(cmd_key: &[u8], labels: (&str, &str), auth_id: &[u8], nonce: &[u8], plain: &[u8]) -> Vec<u8> {
    let path = |label: &str| vec![label.as_bytes().to_vec(), auth_id.to_vec(), nonce.to_vec()];
    let key = derive_key(cmd_key, path(labels.0));
    let iv = derive_key(cmd_key, path(labels.1));
    Aes128Gcm::new_from_slice(&key[..16])
        .unwrap()
        .encrypt(aes_gcm::Nonce::from_slice(&iv[..12]), Payload { msg: plain, aad: auth_id })
        .unwrap()
}

fn client_hello(uuid: &str, header: &[u8]) -> (Vec<u8>, Vec<u8>) {
    let cmd_key = new_id(uuid::Uuid::parse_str(uuid).unwrap().as_u128());
    let auth_id = [9u8; 16];
    let nonce = [5u8; 8];
    let mut prefix = auth_id.to_vec();
    prefix.extend_from_slice(&seal(
        &cmd_key,
        ("VMess Header AEAD Key_Length", "VMess Header AEAD Nonce_Length"),
        &auth_id,
        &nonce,
        &(header.len() as u16).to_be_bytes(),
    ));
    prefix.extend_from_slice(&nonce);
    let sealed = seal(
        &cmd_key,
        ("VMess Header AEAD Key", "VMess Header AEAD Nonce"),
        &auth_id,
        &nonce,
        header,
    );
    (prefix, sealed)
}

#[test]
fn parse_request_decodes_domain_target() {
    let mut h = Vec::new();
    h.push(VERSION);
    h.extend_from_slice(&[0u8; 16]);
    h.extend_from_slice(&[0u8; 16]);
    h.push(7);
    h.push(OPTION_CHUNK_STREAM);
    h.push(SECURITY_AES_128_GCM);
    h.push(0);
    h.push(1);
    h.extend_from_slice(&443u16.to_be_bytes());
    h.push(0x02);
    h.push(11);
    h.extend_from_slice(b"example.com");
    h.extend_from_slice(&[0u8; 4]);

    let req = parse_request(&h).unwrap();
    assert_eq!(req.dst.to_text(), "example.com:443");
    assert!(req.dst.port() == 443);
    assert!(!req.is_udp);
}

#[test]
fn wrong_uuid_is_rejected() {
    let users = vec![user("11111111-1111-1111-1111-111111111111")];
    let (prefix, _) = client_hello(UUID, &request_header(SECURITY_AES_128_GCM));
    assert!(
        authenticate(&prefix, &users).is_none(),
        "unknown uuid must not authenticate"
    );
}

#[test]
fn second_configured_user_authenticates() {
    let users = vec![user("11111111-1111-1111-1111-111111111111"), user(UUID)];
    let header = request_header(SECURITY_AES_128_GCM);
    let (prefix, sealed) = client_hello(UUID, &header);
    let (key, len) = authenticate(&prefix, &users).unwrap();
    assert_eq!(len as usize, header.len());
    let request = accept_header(&prefix, &key, &sealed).unwrap();
    assert_eq!(request.dst, TargetAddr::Domain("example.com".to_string(), 443));

    let mut forged = sealed.clone();
    forged[0] ^= 1;
    assert!(matches!(
        accept_header(&prefix, &key, &forged),
        Err(AcceptError::HeaderDecrypt)
    ));
}

fn read_chunk(reader: &mut VmessReader, chunk: &[u8], out: &mut Vec<u8>) -> ReadPoll {
    let mut at = 0;
    loop {
        match reader.poll_read(out, 4096) {
            ReadPoll::Need(n) if at < chunk.len() => {
                let take = (n - reader.buf.len()).min(chunk.len() - at);
                reader.feed(&chunk[at..at + take]);
                at += take;
            }
            other => return other,
        }
    }
}

fn round_trip(security: u8, payload: &[u8]) {
    let header = request_header(security);
    let (prefix, sealed) = client_hello(UUID, &header);
    let (key, _) = authenticate(&prefix, &vec![user(UUID)]).unwrap();
    let request: VmessRequest = accept_header(&prefix, &key, &sealed).unwrap();

    let mut writer = VmessWriter::new(body_cipher(
        request.security,
        &request.req_body_key,
        &request.req_body_iv,
    ));
    let mut reader = VmessReader::new(body_cipher(
        request.security,
        &request.req_body_key,
        &request.req_body_iv,
    ));
    let mut sent = 0;
    let mut got = Vec::new();
    while sent < payload.len() {
        writer.build(&payload[sent..]);
        let chunk = writer.unwritten();
        assert_eq!(read_chunk(&mut reader, &chunk, &mut got), ReadPoll::Ready);
        match writer.advance(chunk.len()) {
            WriteStep::Done(n) => sent += n,
            other => panic!("{:?}", other),
        }
        while got.len() < sent {
            match reader.poll_read(&mut got, 4096) {
                ReadPoll::Ready => {}
                other => panic!("{:?}", other),
            }
        }
    }
    assert_eq!(got, payload);
}

#[test]
fn aes_gcm_round_trip() {
    round_trip(SECURITY_AES_128_GCM, b"hello vmess");
}

#[test]
fn chacha20_round_trip() {
    round_trip(SECURITY_CHACHA20_POLY1305, b"hello vmess");
}

#[test]
fn none_security_round_trip() {
    round_trip(5, b"hello vmess");
}

#[test]
fn long_bodies_are_cut_into_chunks() {
    let payload: Vec<u8> = (0..50_000u32).map(|i| (i % 251) as u8).collect();
    round_trip(SECURITY_AES_128_GCM, &payload);
    round_trip(5, &payload);
}

#[test]
fn damaged_chunks_are_refused() {
    let mut writer = VmessWriter::new(body_cipher(SECURITY_AES_128_GCM, &[1; 16], &[2; 16]));
    writer.build(b"data");
    let mut chunk = writer.unwritten();
    let last = chunk.len() - 1;
    chunk[last] ^= 1;
    let mut reader = VmessReader::new(body_cipher(SECURITY_AES_128_GCM, &[1; 16], &[2; 16]));
    let mut out = Vec::new();
    assert_eq!(read_chunk(&mut reader, &chunk, &mut out), ReadPoll::DecryptFailed);

    let mut long = VmessReader::new(body_cipher(5, &[1; 16], &[2; 16]));
    assert_eq!(read_chunk(&mut long, &[0xff, 0xff], &mut out), ReadPoll::ChunkTooLarge);

    let mut short = VmessReader::new(body_cipher(SECURITY_AES_128_GCM, &[1; 16], &[2; 16]));
    assert_eq!(
        read_chunk(&mut short, &[0, 3, 1, 2, 3], &mut out),
        ReadPoll::ChunkShorterThanTag
    );
    assert_eq!(short.on_eof(), ReadPoll::UnexpectedEof);
}

#[test]
fn response_header_opens_for_the_client() {
    let header = request_header(SECURITY_AES_128_GCM);
    let request = parse_request(&header).unwrap();
    let keys = response_keys(&request);
    let sealed = send_response_header(&keys, request.resp_v);
    assert_eq!(sealed.len(), 18 + 20);
}

#[test]
fn short_requests_are_refused() {
    assert!(matches!(parse_request(&[1; 10]), Err(RequestError::HeaderTooShort)));
    let mut wrong = request_header(SECURITY_AES_128_GCM);
    wrong[0] = 9;
    assert!(matches!(parse_request(&wrong), Err(RequestError::UnsupportedVersion(9))));
}

fn config() -> InboundConfig {
    InboundConfig {
        protocol_type: "vmess".to_string(),
        address: Some("127.0.0.1".to_string()),
        port: Some(443),
        set_system_proxy: false,
        tls: None,
        transport: None,
        idle_timeout: Some(5),
        username: None,
        password: None,
        udp_mod: None,
        congestion_controller: None,
        gso: true,
        mtu_discoveriy: true,
        mtu: None,
        min_mtu: 1400,
        initial_mtu: 1400,
        auto_route: None,
        strict_route: false,
        block_ipv6: false,
        tun_name: None,
        tun_address: None,
        tun_fd: None,
    }
}

#[test]
fn servers_know_users_by_uuid() {
    let mut server = VmessInbound::new("v".to_string(), &config(), vec![user(UUID)]).unwrap();
    assert_eq!(server.address.port, 443);
    assert!(server.add_user(&user("11111111-1111-1111-1111-111111111111")).is_ok());
    assert_eq!(server.users.len(), 2);
    assert_eq!(
        server.add_user(&user("bob")).unwrap_err(),
        "vmess user must be a valid uuid: 'bob'"
    );
    server.remove_user(UUID);
    assert_eq!(server.users.len(), 1);

    assert!(matches!(
        VmessInbound::new("v".to_string(), &config(), Vec::new()),
        Err(VmessConfigError::NoUsers(e)) if e == "vmess inbound 'v' requires at least one uuid"
    ));
    assert!(matches!(
        VmessInbound::new("v".to_string(), &config(), vec![user(UUID), user("bob")]),
        Err(VmessConfigError::InvalidUser(e)) if e == "vmess inbound 'v' user 'bob' is not a valid uuid"
    ));
    let mut cfg = config();
    cfg.port = None;
    assert!(matches!(
        VmessInbound::new("v".to_string(), &cfg, vec![user(UUID)]),
        Err(VmessConfigError::Address(_))
    ));
}

#[test]
fn openings_are_accepted_once_complete() {
    let users = vec![user(UUID)];
    let header = request_header(SECURITY_AES_128_GCM);
    let (prefix, sealed) = client_hello(UUID, &header);
    assert!(matches!(accept(&prefix[..41], &users), AcceptStep::More(42)));
    let end = 42 + header.len() + 16;
    assert!(matches!(accept(&prefix, &users), AcceptStep::More(n) if n == end));
    let mut data = prefix.clone();
    data.extend_from_slice(&sealed);
    data.extend_from_slice(b"body");
    match accept(&data, &users) {
        AcceptStep::Accepted { key, stream, response, used } => {
            assert_eq!(used, end);
            assert_eq!(stream.dst, TargetAddr::Domain("example.com".to_string(), 443));
            assert_eq!(response, send_response_header(&stream.keys, 7));
            assert_eq!(key, new_id(uuid::Uuid::parse_str(UUID).unwrap().as_u128()));

            let mut observer = Observer::new();
            observer.upsert_user(UUID);
            observer.set_user_credential("in", UUID, key.clone());
            match handle_client(&stream, &key, "in", Some(&observer)) {
                ClientSession::Stream(target, user) => {
                    assert_eq!(target, stream.dst);
                    assert_eq!(user.as_deref(), Some(UUID));
                }
                ClientSession::Packets(..) => panic!("this is a stream"),
            }
            assert!(matches!(
                handle_client(&stream, &key, "in", None),
                ClientSession::Stream(_, None)
            ));
        }
        other => panic!("not accepted: {other:?}"),
    }
    data[end - 1] ^= 1;
    assert!(matches!(accept(&data, &users), AcceptStep::Refused(AcceptError::HeaderDecrypt)));
    assert!(matches!(accept(&data, &Vec::new()), AcceptStep::AuthenticationFailed));

    let mut broken = header.clone();
    broken[0] = 9;
    let (prefix, sealed) = client_hello(UUID, &broken);
    let data = [prefix, sealed].concat();
    assert!(matches!(
        accept(&data, &users),
        AcceptStep::Refused(AcceptError::Request(RequestError::UnsupportedVersion(9)))
    ));
}
