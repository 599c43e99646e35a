use quicproxy::proxy::addr::TargetAddr;
use quicproxy::proxy::outbound::hysteria2::http3::{
    authenticate, build_auth_request, control_stream_bytes, random_padding, AuthError, AuthStep,
    FRAME_HEADERS, STATUS_AUTH_OK,
};
use quicproxy::proxy::outbound::hysteria2::qpack::{
    append_int, decode_field_section, encode_field_section, huffman_decode, QpackError, Reader,
    HPACK_HUFFMAN,
};
use quicproxy::proxy::outbound::hysteria2::settings::{connect_packet, is_admitted};
use quicproxy::proxy::outbound::hysteria2::tcp::{
    encode_tcp_request, Hy2TcpStream, ReadAction, ResponseError, StreamError, TCP_REQUEST_TYPE,
};
use quicproxy::proxy::outbound::hysteria2::udp::{
    parse_udp_message, process_udp_datagram, route_of, send_to, FragmentTable, SendError, UdpError,
    UdpMessage, UDP_MAX_DEFRAG_ENTRIES,
};
use quicproxy::proxy::outbound::hysteria2::varint::{
    append_varint, parse_varint, varint_len, VarintError,
};
use quicproxy::time::Duration;

#[test]
fn varint_roundtrip() {
    for value in [
        0u64,
        1,
        63,
        64,
        16383,
        16384,
        1_073_741_823,
        1_073_741_824,
        4_611_686_018_427_387_903,
    ] {
        let mut buf = Vec::new();
        append_varint(&mut buf, value);
        let (parsed, used) = parse_varint(&buf).unwrap();
        assert_eq!(parsed, value);
        assert_eq!(used, buf.len());
        assert_eq!(used, varint_len(value));
    }
}

#[test]
fn cut_off_varints_are_refused() {
    assert_eq!(parse_varint(&[]).unwrap_err(), VarintError::Empty);
    assert_eq!(parse_varint(&[0x40]).unwrap_err(), VarintError::Truncated);
}

#[test]
fn auth_request_starts_with_headers_frame() {
    let req = build_auth_request("pw", "pad");
    let (frame_type, used) = parse_varint(&req).unwrap();
    assert_eq!(frame_type, FRAME_HEADERS);
    let (payload_len, header_len) = parse_varint(&req[used..]).unwrap();
    assert_eq!(payload_len as usize + used + header_len, req.len());
}

#[test]
fn auth_request_is_decodable() {
    let req = build_auth_request("s3cret", "padding-xyz");
    let (_, used) = parse_varint(&req).unwrap();
    let (payload_len, header_len) = parse_varint(&req[used..]).unwrap();
    let payload = &req[used + header_len..used + header_len + payload_len as usize];
    let fields = decode_field_section(payload).unwrap();
    let map: std::collections::HashMap<&str, &str> = fields
        .iter()
        .map(|(k, v)| (k.as_str(), v.as_str()))
        .collect();
    assert_eq!(map.get(":method").copied(), Some("POST"));
    assert_eq!(map.get(":path").copied(), Some("/auth"));
    assert_eq!(map.get(":authority").copied(), Some("hysteria"));
    assert_eq!(map.get("hysteria-auth").copied(), Some("s3cret"));
}

fn auth_answer(fields: &[(&str, &str)]) -> Vec<u8> {
    let block = encode_field_section(fields);
    let mut out = Vec::new();
    append_varint(&mut out, FRAME_HEADERS);
    append_varint(&mut out, block.len() as u64);
    out.extend_from_slice(&block);
    out
}

#[test]
fn auth_answers_are_judged() {
    let answer = auth_answer(&[(":status", "233"), ("hysteria-udp", "true")]);
    match authenticate(&answer) {
        AuthStep::Done(result) => {
            assert_eq!(result.status, STATUS_AUTH_OK);
            assert!(result.udp_enabled);
            assert!(is_admitted(&result));
        }
        other => panic!("{:?}", other),
    }
    assert!(matches!(authenticate(&answer[..3]), AuthStep::More(_)));
    assert_eq!(
        authenticate(&auth_answer(&[(":status", "abc")])),
        AuthStep::Failed(AuthError::InvalidStatus)
    );
    assert_eq!(
        authenticate(&auth_answer(&[("server", "nginx")])),
        AuthStep::Failed(AuthError::Masqueraded)
    );
    match authenticate(&auth_answer(&[(":status", "404")])) {
        AuthStep::Done(result) => assert!(!is_admitted(&result)),
        other => panic!("{:?}", other),
    }
    let mut large = Vec::new();
    append_varint(&mut large, FRAME_HEADERS);
    append_varint(&mut large, 1 << 20);
    assert_eq!(authenticate(&large), AuthStep::Failed(AuthError::FrameTooLarge));
    assert_eq!(control_stream_bytes(), vec![0, 4, 0]);
}

#[test]
fn padding_is_a_word_of_small_letters() {
    let padding = random_padding();
    assert_eq!(padding.len(), 16);
    assert!(padding.bytes().all(|b| b.is_ascii_lowercase()));
}

#[test]
fn udp_message_roundtrip() {
    let message = UdpMessage {
        session_id: 0xdead_beef,
        packet_id: 0x1234,
        frag_id: 0,
        frag_count: 1,
        destination: "127.0.0.1:9999".to_string(),
        payload: b"hello udp".to_vec(),
    };
    let packed = message.pack();
    let parsed = parse_udp_message(&packed).unwrap();
    assert_eq!(parsed.session_id, message.session_id);
    assert_eq!(parsed.packet_id, message.packet_id);
    assert_eq!(parsed.frag_id, 0);
    assert_eq!(parsed.frag_count, 1);
    assert_eq!(parsed.destination, "127.0.0.1:9999");
    assert_eq!(&parsed.payload[..], b"hello udp");
    assert_eq!(route_of(&packed), Some(0xdead_beef));
    assert_eq!(packed.len(), message.header_size() + 9);
}

#[test]
fn fragmented_udp_packet_is_reassembled() {
    let mut defrag = FragmentTable::new();
    let base = UdpMessage {
        session_id: 7,
        packet_id: 0x77,
        frag_id: 0,
        frag_count: 3,
        destination: "example.com:53".to_string(),
        payload: Vec::new(),
    };
    for (index, chunk) in [b"aaa".as_slice(), b"bbb", b"ccc"].iter().enumerate() {
        let message = UdpMessage {
            frag_id: index as u8,
            payload: chunk.to_vec(),
            destination: base.destination.clone(),
            session_id: base.session_id,
            packet_id: base.packet_id,
            frag_count: base.frag_count,
        };
        let result =
            process_udp_datagram(&message.pack(), &mut defrag, Duration::from_secs(1)).unwrap();
        if index < 2 {
            assert!(result.is_none(), "fragment {index} should not complete");
        } else {
            let (destination, data) = result.unwrap();
            assert_eq!(destination, "example.com:53");
            assert_eq!(&data[..], b"aaabbbccc");
        }
    }
}

fn fragment(id: u8, count: u8, payload: &[u8]) -> Vec<u8> {
    fragment_of(5, id, count, payload)
}

fn fragment_of(packet_id: u16, id: u8, count: u8, payload: &[u8]) -> Vec<u8> {
    UdpMessage {
        session_id: 1,
        packet_id,
        frag_id: id,
        frag_count: count,
        destination: "a:1".to_string(),
        payload: payload.to_vec(),
    }
    .pack()
}

#[test]
fn fragments_come_in_any_order() {
    let now = Duration::from_secs(1);
    let mut defrag = FragmentTable::new();
    assert!(process_udp_datagram(&fragment(2, 3, b"c"), &mut defrag, now).unwrap().is_none());
    assert!(process_udp_datagram(&fragment(0, 3, b"a"), &mut defrag, now).unwrap().is_none());
    let whole = process_udp_datagram(&fragment(1, 3, b"b"), &mut defrag, now).unwrap();
    assert_eq!(whole, Some(("a:1".to_string(), b"abc".to_vec())));
}

#[test]
fn no_more_packets_are_tracked_than_the_bound() {
    let now = Duration::from_secs(1);
    let mut defrag = FragmentTable::new();
    for id in 0..UDP_MAX_DEFRAG_ENTRIES as u16 {
        let first = fragment_of(id, 0, 2, b"a");
        assert_eq!(process_udp_datagram(&first, &mut defrag, now).unwrap(), None);
    }
    assert_eq!(process_udp_datagram(&fragment_of(64, 0, 2, b"x"), &mut defrag, now).unwrap(), None);
    assert_eq!(process_udp_datagram(&fragment_of(64, 1, 2, b"y"), &mut defrag, now).unwrap(), None);
    let whole = process_udp_datagram(&fragment_of(63, 1, 2, b"b"), &mut defrag, now).unwrap();
    assert_eq!(whole, Some(("a:1".to_string(), b"ab".to_vec())));

    let late = Duration::from_secs(20);
    assert_eq!(process_udp_datagram(&fragment_of(64, 0, 2, b"x"), &mut defrag, late).unwrap(), None);
    let whole = process_udp_datagram(&fragment_of(64, 1, 2, b"y"), &mut defrag, late).unwrap();
    assert_eq!(whole, Some(("a:1".to_string(), b"xy".to_vec())));
}

#[test]
fn packets_do_not_disturb_each_other() {
    let now = Duration::from_secs(1);
    let mut defrag = FragmentTable::new();
    assert_eq!(process_udp_datagram(&fragment_of(1, 0, 2, b"a"), &mut defrag, now).unwrap(), None);
    assert_eq!(process_udp_datagram(&fragment_of(2, 1, 2, b"y"), &mut defrag, now).unwrap(), None);
    let second = process_udp_datagram(&fragment_of(2, 0, 2, b"x"), &mut defrag, now).unwrap();
    assert_eq!(second, Some(("a:1".to_string(), b"xy".to_vec())));
    let first = process_udp_datagram(&fragment_of(1, 1, 2, b"b"), &mut defrag, now).unwrap();
    assert_eq!(first, Some(("a:1".to_string(), b"ab".to_vec())));
}

#[test]
fn packets_that_waited_too_long_begin_anew() {
    let mut defrag = FragmentTable::new();
    let then = Duration::from_secs(1);
    let now = Duration::from_secs(61);
    assert_eq!(process_udp_datagram(&fragment(0, 3, b"a"), &mut defrag, then).unwrap(), None);
    assert_eq!(process_udp_datagram(&fragment(0, 2, b"x"), &mut defrag, now).unwrap(), None);
    let whole = process_udp_datagram(&fragment(1, 2, b"y"), &mut defrag, now).unwrap();
    assert_eq!(whole, Some(("a:1".to_string(), b"xy".to_vec())));
}

#[test]
fn split_packets_come_together() {
    let target = TargetAddr::Domain("example.com".to_string(), 53);
    let payload: Vec<u8> = (0..250u32).map(|i| i as u8).collect();
    let datagrams = send_to(9, 65535, &target, &payload, Some(123)).unwrap();
    let mut defrag = FragmentTable::new();
    let now = Duration::from_secs(1);
    for i in [2, 0] {
        assert_eq!(parse_udp_message(&datagrams[i]).unwrap().packet_id, 0);
        assert_eq!(process_udp_datagram(&datagrams[i], &mut defrag, now).unwrap(), None);
    }
    let whole = process_udp_datagram(&datagrams[1], &mut defrag, now).unwrap();
    assert_eq!(whole, Some(("example.com:53".to_string(), payload)));
}

#[test]
fn broken_datagrams_are_refused() {
    let now = Duration::from_secs(1);
    let mut defrag = FragmentTable::new();
    assert!(matches!(
        process_udp_datagram(&[1, 2, 3], &mut defrag, now),
        Err(UdpError::TooShort)
    ));
    assert!(matches!(
        process_udp_datagram(&fragment(3, 3, b"x"), &mut defrag, now),
        Err(UdpError::BadFragment)
    ));
    let _ = process_udp_datagram(&fragment(0, 3, b"x"), &mut defrag, now);
    assert!(matches!(
        process_udp_datagram(&fragment(1, 2, b"x"), &mut defrag, now),
        Err(UdpError::ConflictingCount(_))
    ));
    let mut cut = fragment(0, 1, b"");
    cut.truncate(cut.len() - 1);
    assert!(matches!(parse_udp_message(&cut), Err(UdpError::Truncated)));
    cut.truncate(8);
    cut.push(0x40);
    assert!(matches!(parse_udp_message(&cut), Err(UdpError::Length(_))));
    cut[8] = 0;
    assert!(matches!(parse_udp_message(&cut), Err(UdpError::AddressLength(0))));
}

#[test]
fn large_payloads_are_cut_into_fragments() {
    let target = TargetAddr::Domain("example.com".to_string(), 53);
    let payload: Vec<u8> = (0..250u32).map(|i| i as u8).collect();
    let packets = send_to(9, 0, &target, &payload, Some(123)).unwrap();
    assert_eq!(packets.len(), 3);
    let mut joined = Vec::new();
    for packet in &packets {
        let parsed = parse_udp_message(packet).unwrap();
        assert!(packet.len() <= 123);
        assert_eq!(parsed.session_id, 9);
        joined.extend_from_slice(&parsed.payload);
    }
    assert_eq!(joined, payload);
    assert!(matches!(
        send_to(9, 0, &target, &vec![0; 4096], Some(1200)),
        Err(SendError::PayloadTooLarge(4096))
    ));
    assert!(matches!(send_to(9, 0, &target, &payload, None), Err(SendError::NoDatagrams)));
    assert!(matches!(
        send_to(9, 0, &target, &vec![0; 2048], Some(25)),
        Err(SendError::TooManyFragments)
    ));
}

#[test]
fn sessions_are_numbered() {
    let mut next = 1;
    assert_eq!(connect_packet(true, &mut next).unwrap(), 1);
    assert_eq!(connect_packet(true, &mut next).unwrap(), 2);
    assert!(connect_packet(false, &mut next).is_err());
    assert_eq!(next, 3);
}

#[test]
fn tcp_request_encodes_0x401_type() {
    let target = TargetAddr::from_str("1.2.3.4:80").unwrap();
    let request = encode_tcp_request(&target);
    let (frame_type, used) = parse_varint(&request).unwrap();
    assert_eq!(frame_type, TCP_REQUEST_TYPE);
    let (addr_len, used2) = parse_varint(&request[used..]).unwrap();
    assert_eq!(addr_len as usize + used + used2 + 1, request.len());
}

#[test]
fn request_goes_first_and_response_is_taken_off() {
    let mut stream = Hy2TcpStream::new(b"REQ".to_vec());
    assert_eq!(stream.outgoing(b"data"), b"REQdata".to_vec());
    assert_eq!(stream.wrote(7), Some(4));
    assert_eq!(stream.outgoing(b"more"), b"more".to_vec());

    assert!(matches!(stream.poll_read(64), ReadAction::Fill));
    stream.feed(&[0, 2, b'o']);
    assert!(matches!(stream.poll_read(64), ReadAction::Fill));
    stream.feed(&[b'k', 0, b'h', b'i']);
    match stream.poll_read(64) {
        ReadAction::Serve { bytes, read_on } => {
            assert_eq!(bytes, b"hi".to_vec());
            assert!(read_on);
        }
        other => panic!("{:?}", other),
    }
}

#[test]
fn refused_connections_fail_with_the_reason() {
    let mut stream = Hy2TcpStream::new(Vec::new());
    stream.feed(&[1, 3, b'n', b'o', b'!', 0]);
    assert!(matches!(
        stream.poll_read(8),
        ReadAction::Fail(StreamError::Remote(reason)) if reason == "no!"
    ));
    let mut silent = Hy2TcpStream::new(Vec::new());
    silent.feed(&[1, 0, 0]);
    assert!(matches!(silent.poll_read(8), ReadAction::Fail(StreamError::RemoteFailed)));
    let mut long = Hy2TcpStream::new(Vec::new());
    long.feed(&[0, 0x80, 0, 0x10, 0]);
    assert!(matches!(
        long.poll_read(8),
        ReadAction::Fail(StreamError::Response(ResponseError::MessageTooLong))
    ));
}

#[test]
fn prefixed_integer_roundtrip_across_prefix_sizes() {
    for prefix in 1..=8u8 {
        for value in [0u64, 1, 3, 14, 15, 16, 127, 128, 255, 256, 16384, 2u64.pow(20)] {
            let mut buf = Vec::new();
            append_int(&mut buf, prefix, value, 0);
            let mut rd = Reader::new(&buf);
            assert_eq!(rd.read_int(prefix).unwrap(), value, "prefix {prefix} value {value}");
            assert_eq!(rd.remaining(), 0);
        }
    }
}

#[test]
fn flags_survive_prefixed_integer_encoding() {
    let mut buf = Vec::new();
    append_int(&mut buf, 4, 24, 0x50);
    assert_eq!(buf[0] & 0xf0, 0x50);
    let mut rd = Reader::new(&buf);
    assert_eq!(rd.read_int(4).unwrap(), 24);
}

#[test]
fn huffman_decodes_rfc7541_example() {
    let encoded = hex::decode("f1e3c2e5f23a6ba0ab90f4ff").unwrap();
    assert_eq!(huffman_decode(&encoded).unwrap(), b"www.example.com");
}

#[test]
fn huffman_table_spot_checks() {
    let (code, len) = HPACK_HUFFMAN[97];
    assert_eq!(len, 5);
    assert_eq!(code, 0x03);
    let (_, len) = HPACK_HUFFMAN[233];
    assert_eq!(len, 22);
}

#[test]
fn field_section_roundtrip() {
    let fields = [
        (":method", "POST"),
        (":scheme", "https"),
        (":path", "/auth"),
        (":authority", "hysteria"),
        ("hysteria-auth", "secret-password"),
        ("hysteria-cc-rx", "0"),
        ("hysteria-padding", "0123456789"),
    ];
    let encoded = encode_field_section(&fields);
    assert_eq!(&encoded[..2], &[0x00, 0x00]);
    let decoded = decode_field_section(&encoded).unwrap();
    let expected: Vec<(String, String)> = fields
        .iter()
        .map(|(k, v)| (k.to_string(), v.to_string()))
        .collect();
    assert_eq!(decoded, expected);
}

fn huffman_encode(input: &str) -> Vec<u8> {
    let mut out: Vec<u8> = Vec::new();
    let mut acc: u32 = 0;
    let mut bits: u8 = 0;
    for b in input.bytes() {
        let (code, len) = HPACK_HUFFMAN[b as usize];
        acc = (acc << len) | code;
        bits += len;
        while bits >= 8 {
            bits -= 8;
            out.push((acc >> bits) as u8);
        }
    }
    if bits > 0 {
        let pad = 8 - bits;
        acc = (acc << pad) | ((1u32 << pad) - 1);
        out.push(acc as u8);
    }
    out
}

fn name_ref(buf: &mut Vec<u8>, index: u64, value: &str) {
    append_int(buf, 4, index, 0x50);
    let enc = huffman_encode(value);
    append_int(buf, 7, enc.len() as u64, 0x80);
    buf.extend_from_slice(&enc);
}

fn literal(buf: &mut Vec<u8>, name: &str, value: &str) {
    let name_enc = huffman_encode(name);
    append_int(buf, 3, name_enc.len() as u64, 0x20 | 0x08);
    buf.extend_from_slice(&name_enc);
    let val_enc = huffman_encode(value);
    append_int(buf, 7, val_enc.len() as u64, 0x80);
    buf.extend_from_slice(&val_enc);
}

#[test]
fn decode_quic_go_style_status_233_response() {
    let mut block = vec![0x00, 0x00];
    name_ref(&mut block, 24, "233");
    literal(&mut block, "hysteria-udp", "true");
    literal(&mut block, "hysteria-cc-rx", "auto");
    literal(&mut block, "hysteria-padding", "abcdef");

    let fields = decode_field_section(&block).unwrap();
    assert_eq!(fields[0], (":status".to_string(), "233".to_string()));
    assert_eq!(fields[1], ("hysteria-udp".to_string(), "true".to_string()));
    assert_eq!(fields[2], ("hysteria-cc-rx".to_string(), "auto".to_string()));
}

#[test]
fn decode_static_indexed_status() {
    let block = [0x00, 0x00, 0xc0 | 25];
    let fields = decode_field_section(&block).unwrap();
    assert_eq!(fields[0], (":status".to_string(), "200".to_string()));
}

#[test]
fn every_byte_survives_huffman_coding() {
    for b in 0..=255u8 {
        let (code, len) = HPACK_HUFFMAN[b as usize];
        let total = (len as u32).div_ceil(8) * 8;
        let padded = ((code as u64) << (total - len as u32)) | ((1u64 << (total - len as u32)) - 1);
        let bytes = padded.to_be_bytes()[8 - total as usize / 8..].to_vec();
        assert_eq!(huffman_decode(&bytes).unwrap(), vec![b]);
    }
}

#[test]
fn broken_field_sections_are_refused() {
    assert!(decode_field_section(&[]).is_err());
    assert_eq!(
        decode_field_section(&[0x00, 0x00, 0x40, 0x00]).unwrap_err(),
        QpackError::DynamicReference
    );
    assert_eq!(
        decode_field_section(&[0x00, 0x00, 0x50, 0x00]).unwrap(),
        vec![(":authority".to_string(), String::new())]
    );
    let mut rd = Reader::new(&[0xff]);
    assert_eq!(rd.read_int(8).unwrap_err(), QpackError::Truncated);
    assert!(decode_field_section(&[0, 0, 0xc0 | 0x3f, 0xff, 0x7f]).is_err());
    assert!(huffman_decode(&[0x00, 0x00]).is_err() || huffman_decode(&[0x00]).is_err());
}
