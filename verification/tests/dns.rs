use quicproxy::config::DnsServerConfig;
use quicproxy::dns::exchange::{
    exchange_with_cache, looked_up, lookup_ipv4, lookup_ipv6, lookup_with_type, AddressQuery, ExchangeStep,
};
use quicproxy::dns::fakeip::{reverse_key, reverse_lookup, FakeIPDNS};
use quicproxy::dns::message::{
    addresses_of, apply_ttl_to_response, build_ddr_nodata_response, build_dns_query_packet,
    cap_record_ttls, extract_ipv4_from_response, extract_ipv6_from_response, hijack_exchange,
    is_resolver_arpa_name, parse_message, with_ttls, DnsError, DnsMessage, Hijack, TYPE_A,
    TYPE_AAAA,
};
use quicproxy::dns::resolver::{
    answer_key_text, cache_key_of, cached_response, choose_address, combine_lookups, dns_kind,
    fresh_response, init_dns, lookup_plan, resolve_str, shutdown_dns, DnsConfigError, DnsInitError,
    DnsKind, DnsRegistry, DnsServer, HttpsDns, Lookup, ResolvePlan, UdpDns,
};
use quicproxy::proxy::addr::IpAddr;
use quicproxy::time::Duration;
use simple_dns::rdata::RData;
use simple_dns::{
    Name, Packet, PacketFlag, Question, ResourceRecord, CLASS, QCLASS, QTYPE, RCODE, TYPE,
};

fn dns_query(name: &str, qtype: QTYPE) -> Vec<u8> {
    build_dns_query_packet(name, u16::from(qtype)).unwrap()
}

fn record(address: u32, ttl: u32) -> ResourceRecord<'static> {
    ResourceRecord {
        name: Name::new("example.com").unwrap(),
        class: CLASS::IN,
        ttl,
        rdata: RData::A(simple_dns::rdata::A { address }),
        cache_flush: false,
    }
}

#[test]
fn ddr_zone_queries_receive_nodata() {
    for (name, qtype) in [
        ("_dns.resolver.arpa", QTYPE::TYPE(TYPE::SVCB)),
        ("_DNS.ReSoLvEr.ArPa.", QTYPE::TYPE(TYPE::SVCB)),
        ("resolver.arpa", QTYPE::TYPE(TYPE::A)),
        ("child.resolver.arpa", QTYPE::TYPE(TYPE::HTTPS)),
    ] {
        let query = dns_query(name, qtype);
        let response = build_ddr_nodata_response(&query)
            .unwrap()
            .expect("resolver.arpa query should be blocked");
        let packet = Packet::parse(&response).unwrap();

        assert_eq!(packet.rcode(), RCODE::NoError);
        assert!(packet.answers.is_empty());
        assert!(packet.name_servers.is_empty());
        assert!(packet.additional_records.is_empty());
        assert!(packet.has_flags(PacketFlag::RESPONSE));
        assert!(packet.has_flags(PacketFlag::RECURSION_DESIRED));
        assert!(packet.has_flags(PacketFlag::RECURSION_AVAILABLE));
        assert_eq!(packet.questions.len(), 1);
        assert_eq!(packet.questions[0].qtype, qtype);
        let read = parse_message(&response).unwrap();
        assert!(read.response && read.recursion_desired && read.recursion_available);
        assert!(!parse_message(&query).unwrap().response);
    }
}

#[test]
fn non_ddr_names_are_not_blocked() {
    for name in [
        "example.com",
        "resolver.arpa.example.com",
        "notresolver.arpa",
    ] {
        let query = dns_query(name, QTYPE::TYPE(TYPE::SVCB));
        assert!(build_ddr_nodata_response(&query).unwrap().is_none());
    }
}

#[test]
fn parsed_owned_packet_outlives_source_bytes() {
    let packet = {
        let bytes = dns_query("example.com", QTYPE::TYPE(TYPE::A));
        parse_message(&bytes).unwrap()
    };

    assert!(packet.recursion_desired);
    assert_eq!(packet.questions.len(), 1);
    assert_eq!(packet.questions[0].name, "example.com");
    assert_eq!(packet.questions[0].qtype, TYPE_A);
}

#[test]
fn ttl_adjustment_returns_earliest_expiry() {
    let mut packet = Packet::new_reply(1);
    packet.answers.push(record(0xc000_0201, 100));
    packet.name_servers.push(record(0xc000_0202, 10));
    packet.additional_records.push(record(0xc000_0203, 1_000));
    let bytes = packet.build_bytes_vec().unwrap();
    let mut message = parse_message(&bytes).unwrap();

    let min_ttl = apply_ttl_to_response(
        &mut message,
        Some(Duration::from_secs(30)),
        Some(Duration::from_secs(300)),
    );

    assert_eq!(min_ttl, Some(30));
    assert_eq!(message.records[0].0, 100);
    assert_eq!(message.records[1].0, 30);
    assert_eq!(message.records[2].0, 300);
    let adjusted = with_ttls(&bytes, &message).unwrap();
    let adjusted = Packet::parse(&adjusted).unwrap();
    assert_eq!(adjusted.answers[0].ttl, 100);
    assert_eq!(adjusted.name_servers[0].ttl, 30);
    assert_eq!(adjusted.additional_records[0].ttl, 300);

    cap_record_ttls(&mut message, 20);
    assert_eq!(message.records[0].0, 20);
    assert_eq!(message.records[1].0, 20);
    assert_eq!(message.records[2].0, 20);

    let mut empty = parse_message(&Packet::new_reply(2).build_bytes_vec().unwrap()).unwrap();
    assert_eq!(apply_ttl_to_response(&mut empty, None, None), None);
}

#[test]
fn ddr_nodata_preserves_query_id_and_all_questions() {
    let mut query = Packet::new_query(0x1234);
    query.set_flags(PacketFlag::RECURSION_DESIRED);
    query.questions.push(Question::new(
        Name::new("_dns.resolver.arpa").unwrap(),
        QTYPE::TYPE(TYPE::SVCB),
        QCLASS::CLASS(CLASS::IN),
        false,
    ));
    query.questions.push(Question::new(
        Name::new("example.com").unwrap(),
        QTYPE::TYPE(TYPE::A),
        QCLASS::CLASS(CLASS::IN),
        false,
    ));

    let response = build_ddr_nodata_response(&query.build_bytes_vec().unwrap())
        .unwrap()
        .expect("packet containing a DDR question should be blocked");
    let response = Packet::parse(&response).unwrap();

    assert_eq!(response.id(), 0x1234);
    assert_eq!(response.questions.len(), 2);
    assert!(response.answers.is_empty());
}

#[test]
fn resolver_zone_is_told_apart_in_any_case() {
    assert!(is_resolver_arpa_name("Resolver.ARPA."));
    assert!(is_resolver_arpa_name("x.resolver.arpa"));
    assert!(!is_resolver_arpa_name("xresolver.arpa"));
    assert!(!is_resolver_arpa_name(""));
}

#[test]
fn broken_queries_are_refused() {
    assert_eq!(
        build_ddr_nodata_response(&[1, 2, 3]).unwrap_err(),
        DnsError::Malformed
    );
    assert!(matches!(
        hijack_exchange(&[1, 2, 3], true, false),
        Hijack::Fail(DnsError::Malformed)
    ));
}

#[test]
fn hijacked_queries_are_answered_or_handed_on() {
    let ddr = dns_query("_dns.resolver.arpa", QTYPE::TYPE(TYPE::SVCB));
    assert!(matches!(hijack_exchange(&ddr, true, false), Hijack::Reply(_)));
    assert!(matches!(hijack_exchange(&ddr, false, false), Hijack::Exchange));
    let v6 = dns_query("example.com", QTYPE::TYPE(TYPE::AAAA));
    assert!(matches!(hijack_exchange(&v6, true, true), Hijack::Reply(_)));
    assert!(matches!(hijack_exchange(&v6, true, false), Hijack::Exchange));
}

#[test]
fn addresses_are_read_off_answers() {
    let mut packet = Packet::new_reply(7);
    packet.answers.push(record(0xc000_0201, 60));
    packet.name_servers.push(record(0xc000_0299, 60));
    let bytes = packet.build_bytes_vec().unwrap();
    assert_eq!(extract_ipv4_from_response(&bytes), vec![IpAddr::V4(0xc000_0201)]);
    assert!(extract_ipv6_from_response(&bytes).is_empty());
    assert!(extract_ipv4_from_response(&[0]).is_empty());
    let message = parse_message(&bytes).unwrap();
    assert_eq!(addresses_of(&message, TYPE_A), vec![IpAddr::V4(0xc000_0201)]);
    assert!(addresses_of(&message, TYPE_AAAA).is_empty());
}

#[test]
fn stored_answers_come_back_with_what_is_left_of_their_time() {
    let mut packet = Packet::new_reply(7);
    packet.answers.push(record(0xc000_0201, 60));
    let bytes = packet.build_bytes_vec().unwrap();
    let fresh = fresh_response(&bytes, None, None).unwrap();
    assert_eq!(fresh.store_for, Some(60));
    assert_eq!(fresh.addresses, vec![IpAddr::V4(0xc000_0201)]);

    let later = cached_response(&fresh.bytes, 99, 1_060, 1_050).unwrap();
    let later = Packet::parse(&later).unwrap();
    assert_eq!(later.id(), 99);
    assert_eq!(later.answers[0].ttl, 10);
}

#[test]
fn answers_that_are_over_at_once_are_not_stored() {
    let mut packet = Packet::new_reply(7);
    packet.answers.push(record(0xc000_0201, 0));
    let fresh = fresh_response(&packet.build_bytes_vec().unwrap(), None, None).unwrap();
    assert_eq!(fresh.store_for, None);
}

#[test]
fn answers_are_stored_per_way_out_name_and_type() {
    let query = parse_message(&dns_query("example.com", QTYPE::TYPE(TYPE::AAAA))).unwrap();
    assert_eq!(
        cache_key_of("proxy", &query),
        Some(answer_key_text("proxy", "example.com", "TYPE(AAAA)"))
    );
    let nothing = DnsMessage {
        id: 0,
        response: false,
        recursion_desired: false,
        recursion_available: false,
        no_error: true,
        questions: Vec::new(),
        answers: 0,
        records: Vec::new(),
    };
    assert_eq!(cache_key_of("proxy", &nothing), None);
}

#[test]
fn kinds_of_servers_go_by_name() {
    assert_eq!(dns_kind("FakeIP"), Some(DnsKind::FakeIp));
    assert_eq!(dns_kind("udp"), Some(DnsKind::Udp));
    assert_eq!(dns_kind("HTTPS"), Some(DnsKind::Https));
    assert_eq!(dns_kind("tls"), None);
}

#[test]
fn lookups_ask_for_what_can_be_used() {
    assert!(matches!(lookup_plan("192.0.2.1", true), Lookup::Literal(IpAddr::V4(0xc000_0201))));
    assert!(matches!(lookup_plan("example.com", true), Lookup::Both));
    assert!(matches!(lookup_plan("example.com", false), Lookup::Ipv4));
    let v4 = IpAddr::V4(1);
    let v6 = IpAddr::V6(2);
    assert_eq!(combine_lookups(None, None), None);
    let both = combine_lookups(Some(vec![v4]), Some(vec![v6])).unwrap();
    assert!(both.contains(&v4) && both.contains(&v6));
    assert_eq!(choose_address(&Vec::new()), None);
    assert_eq!(choose_address(&vec![v4]), Some(v4));
    match resolve_str("example.com", 53, Some("local")) {
        ResolvePlan::Ask { domain, port, server } => {
            assert_eq!((domain.as_str(), port), ("example.com", 53));
            assert_eq!(server.as_deref(), Some("local"));
        }
        ResolvePlan::Known(_) => panic!("a name has to be asked for"),
    }
}

fn answer_to(query: &[u8], ttl: u32) -> Vec<u8> {
    let query = Packet::parse(query).unwrap();
    let mut reply = Packet::new_reply(query.id());
    reply.questions.extend(query.questions.iter().cloned());
    reply.answers.push(record(0xc000_0201, ttl));
    reply.build_bytes_vec().unwrap()
}

#[test]
fn exchanges_go_through_the_store() {
    let bytes = dns_query("example.com", QTYPE::TYPE(TYPE::A));
    let query = parse_message(&bytes).unwrap();
    let (exchange, step) = exchange_with_cache("proxy", &query, true);
    let key = match step {
        ExchangeStep::Look(key) => key,
        ExchangeStep::Ask => panic!("there is a store"),
    };
    assert_eq!(key, "proxy:example.com:TYPE(A)");
    assert!(exchange.looked(None, 0).is_none());

    let settled = exchange.settle(answer_to(&bytes, 5), Some(Duration::from_secs(30)), None).unwrap();
    assert_eq!(settled.store, Some((key, 30)));
    assert_eq!(settled.addresses, vec![IpAddr::V4(0xc000_0201)]);
    let adjusted = parse_message(&settled.bytes).unwrap();
    assert_eq!(adjusted.records, vec![(30, Some(IpAddr::V4(0xc000_0201)))]);
    assert!(adjusted.response);
    assert_eq!((adjusted.id, adjusted.answers), (query.id, 1));

    let again = exchange.looked(Some((settled.bytes.as_slice(), 130)), 120).unwrap().unwrap();
    let again = parse_message(&again).unwrap();
    assert_eq!(again.id, query.id);
    assert_eq!(again.records[0].0, 10);

    let (plain, step) = exchange_with_cache("proxy", &query, false);
    assert!(matches!(step, ExchangeStep::Ask));
    assert!(plain.settle(answer_to(&bytes, 5), None, None).unwrap().store.is_none());
    assert!(matches!(plain.settle(vec![1], None, None), Err(DnsError::Malformed)));

    let nothing = DnsMessage {
        id: 1,
        response: false,
        recursion_desired: true,
        recursion_available: false,
        no_error: true,
        questions: Vec::new(),
        answers: 0,
        records: Vec::new(),
    };
    let (empty, step) = exchange_with_cache("proxy", &nothing, true);
    assert!(matches!(step, ExchangeStep::Ask));
    assert!(matches!(empty.settle(vec![1, 2, 3], None, None), Err(DnsError::Malformed)));
    let handed_on = empty.settle(answer_to(&bytes, 5), Some(Duration::from_secs(30)), None).unwrap();
    assert_eq!(handed_on.bytes, answer_to(&bytes, 5));
    assert!(handed_on.store.is_none() && handed_on.addresses.is_empty());
}

#[test]
fn addresses_are_looked_up_by_type() {
    assert!(matches!(lookup_with_type("example.com", 16), AddressQuery::Nothing));
    let query = match lookup_with_type("example.com", TYPE_A) {
        AddressQuery::Send(query) => query,
        _ => panic!("addresses can be asked for"),
    };
    assert_eq!(parse_message(&query).unwrap().questions[0].name, "example.com");
    let long = "a".repeat(64);
    assert!(matches!(lookup_with_type(&long, TYPE_A), AddressQuery::Unwritable));
    let answer = answer_to(&query, 60);
    assert_eq!(looked_up(&answer, TYPE_A).unwrap(), vec![IpAddr::V4(0xc000_0201)]);
    assert!(looked_up(&answer, TYPE_AAAA).unwrap().is_empty());
    assert_eq!(lookup_ipv4(&answer).unwrap(), Some(0xc000_0201));
    assert_eq!(lookup_ipv6(&answer).unwrap(), None);
    assert!(lookup_ipv4(&[1, 2, 3]).is_err());
    assert!(matches!(looked_up(&[0], TYPE_A), Err(DnsError::Malformed)));
}

fn server(kind: &str) -> DnsServerConfig {
    DnsServerConfig {
        protocol_type: kind.to_string(),
        address: Some("1.1.1.1".to_string()),
        port: None,
        min_ttl: Some(60),
        max_ttl: None,
        outbound: Some("direct".to_string()),
        cache: Some("main".to_string()),
        dns: None,
        range: Some(vec!["junk".to_string(), "10.0.0.0/24".to_string(), "fd00::/120".to_string()]),
        reject_ipv6: false,
    }
}

#[test]
fn made_up_addresses_are_counted_through_the_range() {
    let mut dns = FakeIPDNS::new("f".to_string(), &server("fakeip"), Some("255"), None).unwrap();
    assert!(dns.has_next(TYPE_A));
    assert!(dns.has_next(TYPE_AAAA));
    assert_eq!((dns.ipv4_cidr.base, dns.ipv4_cidr.prefix), (0x0a00_0000, 24));
    let (first, entries) = dns.resolve_v4("a.example", None).unwrap();
    assert_eq!(first, 0x0a00_00ff);
    assert_eq!(
        entries,
        vec![
            ("fakeip_ipv4_cursor_index".to_string(), "256".to_string()),
            ("a.example:A".to_string(), "10.0.0.255".to_string()),
            ("ptr:10.0.0.255".to_string(), "a.example".to_string()),
        ]
    );
    assert_eq!(dns.resolve_v4("b.example", None).unwrap().0, 0x0a00_0000);
    assert_eq!(dns.resolve_v4("a.example", Some(" 10.0.0.255 ")).unwrap().0, first);
    assert!(dns.resolve_v4("a.example", Some("fd00::1")).is_none());
    let (v6, entries) = dns.resolve_v6("a.example", None).unwrap();
    assert_eq!(v6, 0xfd00_0000_0000_0000_0000_0000_0000_0000);
    assert_eq!(entries[1], ("a.example:AAAA".to_string(), "fd00::".to_string()));
    assert!(dns.is_fakeip(IpAddr::V4(0x0a00_0001)));
    assert!(!dns.is_fakeip(IpAddr::V4(0x0a00_0100)));
    assert_eq!(reverse_key(IpAddr::V4(first)), "ptr:10.0.0.255");
    assert_eq!(reverse_lookup(Some(" a.example ")).as_deref(), Some("a.example"));
    assert_eq!(reverse_lookup(Some("  ")), None);

    let query = dns_query("a.example", QTYPE::TYPE(TYPE::A));
    let reply = dns.exchange_without_cache(&query, Some(IpAddr::V4(first))).unwrap();
    assert_eq!(looked_up(&reply, TYPE_A).unwrap(), vec![IpAddr::V4(first)]);
    assert_eq!(parse_message(&reply).unwrap().records[0].0, 60);
    let text = dns_query("a.example", QTYPE::TYPE(TYPE::TXT));
    assert!(matches!(dns.exchange_without_cache(&text, None), Err(DnsError::OnlyAddresses)));

    let mut homeless = server("fakeip");
    homeless.cache = None;
    assert_eq!(
        FakeIPDNS::new("f".to_string(), &homeless, None, None).unwrap_err(),
        "dns 'f' requires cache"
    );
}

#[test]
fn servers_are_set_up_and_found() {
    let udp = UdpDns::new("u".to_string(), &server("udp")).unwrap();
    assert_eq!(udp.address.port(), 53);
    let https = HttpsDns::new("h".to_string(), &server("https")).unwrap();
    assert_eq!(https.url, "https://1.1.1.1:443/dns-query");
    let mut bare = server("udp");
    bare.outbound = None;
    assert!(matches!(
        UdpDns::new("u".to_string(), &bare),
        Err(DnsConfigError::Missing(e)) if e == "dns 'u' requires outbound"
    ));
    bare.address = None;
    assert!(matches!(
        UdpDns::new("u".to_string(), &bare),
        Err(DnsConfigError::Missing(e)) if e == "dns 'u' requires address"
    ));

    let mut registry = DnsRegistry::new();
    assert!(matches!(
        init_dns(&mut registry, Vec::new(), None, true),
        Err(DnsInitError::NoServers)
    ));
    let servers = vec![
        ("u".to_string(), DnsServer::Udp(udp)),
        ("h".to_string(), DnsServer::Https(https)),
    ];
    init_dns(&mut registry, servers, Some("h"), true).unwrap();
    assert!(matches!(registry.get_default_dns(), Ok(DnsServer::Https(_))));
    assert!(matches!(registry.get_dns_by_tag("u"), Ok(DnsServer::Udp(_))));
    assert_eq!(registry.get_dns_by_tag("x").unwrap_err(), "can not find dns: x");
    assert!(registry.block_ddr);
    let again = vec![("v".to_string(), DnsServer::Udp(UdpDns::new("v".to_string(), &server("udp")).unwrap()))];
    init_dns(&mut registry, again, Some("default_server"), false).unwrap();
    assert!(matches!(registry.get_default_dns(), Ok(DnsServer::Https(_))));
    assert_eq!(registry.place_of("h"), registry.place_of("default_server"));
    let more = vec![("w".to_string(), DnsServer::Udp(UdpDns::new("w".to_string(), &server("udp")).unwrap()))];
    assert!(matches!(
        init_dns(&mut registry, more, Some("nowhere"), true),
        Err(DnsInitError::DefaultMissing(tag)) if tag == "nowhere"
    ));
    assert!(matches!(registry.get_default_dns(), Ok(DnsServer::Https(_))));
    assert!(registry.get_dns_by_tag("w").is_ok() && !registry.block_ddr);
    shutdown_dns(&mut registry);
    assert!(registry.get_default_dns().is_err());
}
