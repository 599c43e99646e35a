use quicproxy::config::RouterMode;
use quicproxy::dns::message::build_dns_query_packet;
use quicproxy::proxy::addr::{IpAddr, SocketAddr, TargetAddr};
use quicproxy::proxy::geoip_db::{
    country_of, judge_db_file, load_db_file, EnsureStep, FileRead, GeoipDB, GeoipError, LastUpdate,
    UpdateAction, UpdateEvent, UpdatePhase,
};
use quicproxy::proxy::outbound::conn::{
    ConnectionCache, Ensure, OpenAction, OpenError, OpenEvent, StreamOpening,
};
use quicproxy::proxy::router::{
    forward_udp_inbound, forward_udp_outbound, shutdown_router, sniff_dns_target, Delivery,
    QuitReason, Router, Rule, Selection, SessionMap, UdpEvent, UdpLife, UdpStep,
};
use quicproxy::proxy::stream::{StreamEvent, StreamLife, StreamStep};
use quicproxy::time::Duration;

fn domain(name: &str, port: u16) -> TargetAddr {
    TargetAddr::Domain(name.to_string(), port)
}

#[test]
fn closed_udp_session_returns_first_payload_for_reopen() {
    let mut sessions = SessionMap::new();
    let source = domain("client.example", 12345);
    let target = domain("target.example", 443);
    sessions.insert(&source, &target, 7);
    assert!(matches!(sessions.deliver(&source, &target), Delivery::Queue(7)));
    let payload = b"first packet".to_vec();

    let recovered =
        sessions.send_to_existing_udp_session(&source, &target, 7, Err(payload.clone()));

    assert_eq!(recovered, Some(payload));
    assert!(matches!(sessions.deliver(&source, &target), Delivery::Open));
}

#[test]
fn a_newer_session_survives_the_failure_of_an_older_one() {
    let mut sessions = SessionMap::new();
    let source = domain("client.example", 1);
    let target = domain("target.example", 2);
    sessions.insert(&source, &target, 1);
    sessions.insert(&source, &target, 2);
    assert_eq!(
        sessions.send_to_existing_udp_session(&source, &target, 1, Err(vec![9])),
        Some(vec![9])
    );
    assert!(matches!(sessions.deliver(&source, &target), Delivery::Queue(2)));
    assert_eq!(sessions.send_to_existing_udp_session(&source, &target, 2, Ok(())), None);
    assert!(matches!(sessions.deliver(&source, &target), Delivery::Queue(2)));
    sessions.remove(&source, &target);
    assert!(matches!(sessions.deliver(&source, &target), Delivery::Open));
}

fn rule(outbound: &str, modes: Option<Vec<RouterMode>>, asks_protocol: bool) -> Rule {
    Rule { modes, asks_protocol, outbound: outbound.to_string(), dns: None }
}

#[test]
fn rules_are_tried_in_order() {
    let rules = vec![
        rule("only-direct", Some(vec![RouterMode::Direct]), false),
        rule("first", None, false),
        rule("second", Some(Vec::new()), false),
    ];
    let target = domain("example.com", 443);
    let mut selection = Selection::new();
    assert_eq!(selection.next(&rules, RouterMode::Rule, None, &target), Some(1));
    assert_eq!(selection.next(&rules, RouterMode::Rule, None, &target), Some(2));
    let route = selection.matched(&rules, 2, None, &target);
    assert_eq!(route.outbound.as_deref(), Some("second"));
    assert_eq!(route.matched_idx, Some(2));
    assert_eq!(selection.next(&rules, RouterMode::Rule, None, &target), None);
    let route = selection.unmatched(&target);
    assert_eq!(route.matched_idx, None);
    let mut router = Router::new(RouterMode::Rule, "fallback".to_string(), rules);
    assert_eq!(router.outbound_of(&route), "fallback");
    router.set_mode(RouterMode::Proxy);
    assert_eq!(router.get_mode(), RouterMode::Proxy);
    let mut slot = Some(router);
    shutdown_router(&mut slot);
    assert!(slot.is_none());
}

#[test]
fn dns_queries_give_their_name_away() {
    let query = build_dns_query_packet("example.org", 1).unwrap();
    let server = TargetAddr::Ip(SocketAddr { ip: IpAddr::V4(1), port: 53, scope_id: 0 });
    let sniffed = sniff_dns_target(Some(&query), &server).unwrap();
    assert_eq!(sniffed.target, domain("example.org", 53));
    assert_eq!(sniffed.qtype, 1);
    assert!(sniff_dns_target(Some(b"not dns"), &server).is_none());
    assert!(sniff_dns_target(None, &server).is_none());
}

#[test]
fn addresses_are_swapped_both_ways() {
    let original = domain("asked", 1);
    let routed = domain("routed", 2);
    assert_eq!(forward_udp_inbound(domain("asked", 1), &original, &routed), routed);
    assert_eq!(forward_udp_outbound(domain("routed", 2), &original, &routed), original);
    assert_eq!(forward_udp_inbound(domain("other", 3), &original, &routed), domain("other", 3));
}

#[test]
fn idle_udp_sessions_end() {
    let s = Duration::from_secs;
    let mut life = UdpLife::new(s(0), s(30));
    assert_eq!(life.step(UdpEvent::InboundForwarded(s(20))), UdpStep::Continue);
    assert_eq!(life.step(UdpEvent::Timer(s(30))), UdpStep::Rearm(s(50)));
    assert_eq!(life.step(UdpEvent::Timer(s(50))), UdpStep::Quit(QuitReason::Idle));
    assert_eq!(life.step(UdpEvent::Reset), UdpStep::Quit(QuitReason::Reset));
}

#[test]
fn dead_pool_connections_are_replaced_once() {
    let mut life = StreamLife::new(true);
    let failed = StreamEvent::CopyFailed("retry".to_string());
    assert_eq!(life.dispatch_stream("retry", &StreamEvent::Connected), StreamStep::Copy);
    assert_eq!(life.dispatch_stream("retry", &failed), StreamStep::Reconnect);
    assert_eq!(life.dispatch_stream("retry", &StreamEvent::Connected), StreamStep::Copy);
    assert_eq!(life.dispatch_stream("retry", &failed), StreamStep::Fail);

    let mut plain = StreamLife::new(false);
    assert_eq!(plain.dispatch_stream("retry", &StreamEvent::Connected), StreamStep::Copy);
    assert_eq!(
        plain.dispatch_stream("retry", &StreamEvent::Copied(1, 2)),
        StreamStep::Done(1, 2)
    );
    let mut killed = StreamLife::new(false);
    assert_eq!(killed.dispatch_stream("x", &StreamEvent::ClosedByApi), StreamStep::Done(0, 0));
    let mut refused = StreamLife::new(true);
    assert_eq!(refused.dispatch_stream("x", &StreamEvent::ConnectFailed), StreamStep::Fail);
}

#[test]
fn streams_open_on_a_second_connection() {
    let mut cache = ConnectionCache::new();
    cache.established(Some(1));
    assert_eq!(cache.ensure_connection(true), Ensure::Reuse(1));
    assert_eq!(cache.ensure_connection(false), Ensure::Establish);

    let mut opening = StreamOpening::open_stream_with_retry();
    assert_eq!(opening.step(&mut cache, OpenEvent::Connected(1)), Some(OpenAction::Open(1)));
    assert_eq!(opening.step(&mut cache, OpenEvent::OpenFailed), Some(OpenAction::Connect));
    assert_eq!(cache.ensure_connection(true), Ensure::Establish);
    assert_eq!(opening.step(&mut cache, OpenEvent::Connected(2)), Some(OpenAction::Open(2)));
    assert_eq!(
        opening.step(&mut cache, OpenEvent::OpenFailed),
        Some(OpenAction::Fail(OpenError::AfterReconnection))
    );

    let mut refused = StreamOpening::open_stream_with_retry();
    assert_eq!(
        refused.step(&mut cache, OpenEvent::ConnectFailed),
        Some(OpenAction::Fail(OpenError::NoConnection))
    );

    let mut udp = StreamOpening::open_udp_bistream_with_capacity(100);
    assert_eq!(udp.step(&mut cache, OpenEvent::Connected(3)), Some(OpenAction::Open(3)));
    assert_eq!(
        udp.step(&mut cache, OpenEvent::Opened { used: 65_500 }),
        Some(OpenAction::Connect)
    );
    assert_eq!(udp.step(&mut cache, OpenEvent::Connected(4)), Some(OpenAction::Open(4)));
    assert_eq!(
        udp.step(&mut cache, OpenEvent::Opened { used: 65_500 }),
        Some(OpenAction::Fail(OpenError::NoContextIds))
    );
}

fn geoip() -> GeoipDB {
    GeoipDB {
        tag: "db".to_string(),
        path: "country.mmdb".to_string(),
        url: Some("https://example.com/db".to_string()),
        cache: None,
        download_outbound: None,
        update_interval: Duration::from_secs(100),
        data: None,
    }
}

fn put_text(out: &mut Vec<u8>, text: &str) {
    out.push(0x40 | text.len() as u8);
    out.extend_from_slice(text.as_bytes());
}

fn put_number(out: &mut Vec<u8>, key: &str, control: u8, value: u8) {
    put_text(out, key);
    out.push(control);
    out.push(value);
}

/// A database in which the lower half of all IPv4 addresses lies in Germany.
fn country_database() -> Vec<u8> {
    let mut db = vec![0, 0, 17, 0, 0, 1];
    db.extend_from_slice(&[0; 16]);
    db.push(0xe1);
    put_text(&mut db, "country");
    db.push(0xe1);
    put_text(&mut db, "iso_code");
    put_text(&mut db, "DE");
    db.extend_from_slice(b"\xab\xcd\xefMaxMind.com");
    db.push(0xe9);
    put_number(&mut db, "binary_format_major_version", 0xa1, 2);
    put_number(&mut db, "binary_format_minor_version", 0xa1, 0);
    put_text(&mut db, "build_epoch");
    db.extend_from_slice(&[0x01, 0x02, 0x01]);
    put_text(&mut db, "database_type");
    put_text(&mut db, "Country");
    put_text(&mut db, "description");
    db.push(0xe0);
    put_number(&mut db, "ip_version", 0xa1, 4);
    put_text(&mut db, "languages");
    db.extend_from_slice(&[0x00, 0x04]);
    put_number(&mut db, "node_count", 0xc1, 1);
    put_number(&mut db, "record_size", 0xa1, 24);
    db
}

#[test]
fn database_files_are_judged_by_their_bytes() {
    let db = country_database();
    assert_eq!(load_db_file("x", FileRead::Contents(db.clone())).unwrap(), db);
    assert_eq!(
        load_db_file("x", FileRead::Contents(vec![7])).unwrap_err(),
        "failed to load db:x"
    );
    assert_eq!(load_db_file("x", FileRead::Unreadable).unwrap_err(), "failed to load db:x");
    assert_eq!(load_db_file("x", FileRead::Missing).unwrap_err(), "path does not exists.");
    assert_eq!(judge_db_file("x", vec![7], true).unwrap(), vec![7]);
    assert_eq!(judge_db_file("x", vec![7], false).unwrap_err(), "failed to load db:x");
}

#[test]
fn databases_answer_with_a_country() {
    assert_eq!(country_of(Some(Some("DE".to_string()))).unwrap(), "DE");
    assert_eq!(country_of(Some(None)).unwrap(), "unknown");
    assert_eq!(country_of(None).unwrap_err(), GeoipError::Failed);
    let mut db = geoip();
    assert_eq!(db.lookup(IpAddr::V4(1)).unwrap_err(), GeoipError::NotLoaded);
    db.data = Some(b"no database".to_vec());
    assert_eq!(db.lookup(IpAddr::V4(1)).unwrap_err(), GeoipError::Failed);
    db.close_reader();
    assert!(db.data.is_none());
    assert_eq!(db.ensure_db(FileRead::Contents(country_database())), EnsureStep::Done);
    assert_eq!(db.lookup(IpAddr::V4(0x0102_0304)).unwrap(), "DE");
    assert_eq!(db.lookup(IpAddr::V4(0xc800_0001)).unwrap(), "unknown");
}

#[test]
fn databases_are_updated_in_time() {
    let db = geoip();
    assert_eq!(db.next_update_delay(LastUpdate::Never, 1_000), (Duration::from_secs(100), true));
    assert_eq!(
        db.next_update_delay(LastUpdate::At(950), 1_000),
        (Duration::from_secs(50), false)
    );
    assert_eq!(db.next_update_delay(LastUpdate::At(0), 1_000).0, Duration::from_secs(0));
    assert!(db.get_key().contains("country.mmdb"));
}

#[test]
fn the_first_rule_that_matches_decides() {
    let rules = vec![
        rule("only-direct", Some(vec![RouterMode::Direct]), false),
        rule("by-protocol", None, true),
        rule("rest", None, false),
    ];
    let router = Router::new(RouterMode::Rule, "fallback".to_string(), rules);
    let server = TargetAddr::Ip(SocketAddr { ip: IpAddr::V4(1), port: 53, scope_id: 0 });
    let query = build_dns_query_packet("example.org", 1).unwrap();

    let all = vec![Some(None), Some(None), Some(None)];
    let route = router.select_out(&server, Some(&query), &all);
    assert_eq!(route.outbound.as_deref(), Some("by-protocol"));
    assert_eq!(route.matched_idx, Some(1));
    assert_eq!(route.target, domain("example.org", 53));

    let resolved = vec![None, None, Some(Some(domain("resolved", 1)))];
    let route = router.select_out(&server, None, &resolved);
    assert_eq!(route.matched_idx, Some(2));
    assert_eq!(route.target, domain("resolved", 1));

    let none = vec![Some(None), None, None];
    let route = router.select_out(&server, None, &none);
    assert_eq!(router.outbound_of(&route), "fallback");
    assert_eq!(route.target, server);
}

#[test]
fn databases_are_replaced_by_verified_ones() {
    let mut db = geoip();
    let good = country_database();
    assert_eq!(db.ensure_db(FileRead::Missing), EnsureStep::Update);
    assert!(db.download_db(false, "404", &[]).unwrap_err().starts_with("HTTP Error"));
    assert!(db.download_db(true, "200", &[]).unwrap_err().ends_with("is empty"));
    assert!(db.download_db(true, "200", &[1]).is_ok());

    let (mut phase, first) = db.update_db().unwrap();
    let tmp = format!("{}.tmp", db.path);
    assert!(matches!(first, UpdateAction::Download(p) if p == tmp));
    let ok = || UpdateEvent::Finished(Ok(()));
    let read = |bytes: &[u8]| UpdateEvent::Read(FileRead::Contents(bytes.to_vec()));
    assert!(matches!(db.step_update(&mut phase, ok()), UpdateAction::Verify(p) if p == tmp));
    let verified = db.step_update(&mut phase, read(&good));
    assert!(matches!(verified, UpdateAction::Replace(a, _) if a == tmp));
    assert!(matches!(db.step_update(&mut phase, ok()), UpdateAction::Load(p) if p == db.path));
    assert!(db.data.is_none());
    assert!(matches!(db.step_update(&mut phase, read(&good)), UpdateAction::Done));
    assert_eq!(db.data, Some(good.clone()));
    assert_eq!(phase, UpdatePhase::Over);

    let (mut phase, _) = db.update_db().unwrap();
    db.step_update(&mut phase, ok());
    match db.step_update(&mut phase, read(&[7])) {
        UpdateAction::Fail(Some(p), e) => {
            assert_eq!(p, tmp);
            assert_eq!(
                e,
                "Downloaded GeoIP db 'db' is invalid: failed to load db:country.mmdb.tmp"
            );
        }
        _ => panic!("seven is no database"),
    }
    assert_eq!(db.data, Some(good.clone()));

    let (mut phase, _) = db.update_db().unwrap();
    let failed = db.step_update(&mut phase, UpdateEvent::Finished(Err("offline".to_string())));
    assert!(matches!(failed, UpdateAction::Fail(Some(p), e) if p == tmp && e == "offline"));
    let mut phase = UpdatePhase::Loading;
    assert!(matches!(db.go_on(&mut phase, Ok(Some(vec![7]))), UpdateAction::Done));
    assert_eq!(db.data, Some(vec![7]));

    db.url = None;
    assert_eq!(db.update_db().unwrap_err(), "missing url for remote db");
    assert_eq!(db.ensure_db(FileRead::Missing), EnsureStep::Done);
    assert_eq!(db.ensure_db(FileRead::Contents(good.clone())), EnsureStep::Done);
    assert_eq!(db.data, Some(good));
    assert_eq!(db.use_db(Ok(vec![8])), EnsureStep::Done);
    assert_eq!(db.data, Some(vec![8]));
}
