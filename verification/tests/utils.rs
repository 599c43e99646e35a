use quicproxy::cache::{
    cache_path, cache_size_bytes, init_cache, list_entries, read_entry, shutdown_cache,
    shutdown_redb, CacheItem, CacheMap, CacheRead, ExpiringValue, OpenError, OpenOutcome,
    OpenStores,
};
use quicproxy::config::{BacktraceMode, LogConfig, TransportConfig};
use quicproxy::proxy::addr::{IpAddr, TargetAddr};
use quicproxy::proxy::outbound::transport::{
    flush_outcome, wrap_transport_stream, write_outcome, ws_authority, ws_path, TransportStep,
    WsByteStream, WsDone, WsEvent, WsFlush, WsMessage, WsRead, WsWrite,
};
use quicproxy::time::Duration;
use quicproxy::utils::interface::{dns_tool, restore_dns, set_dns, DnsTool};
use quicproxy::utils::keyed_notify::{KeyedNotify, WaitEvent, WaitStep};
use quicproxy::utils::logging::{
    emit_nslog, init_logging, log_settings, FileSink, LineBuffer, LoggingPlan,
    SizeLimitedFileAppender,
};
use quicproxy::utils::os::{
    is_android, is_apple, is_desktop, is_ios, is_linux, is_macos, is_mobile, is_windows, Platform,
};
use quicproxy::utils::quic::{
    build_client_config, check_connection, found_key, keep_alive_interval_for, load_certs,
    load_keys, make_transport_config, server_plan, ClientTrust, Controller, PemError,
    ServerCertificate,
};
use quicproxy::utils::sort::sort_texts;
use quicproxy::utils::system_proxy::{
    clear_system_proxy, disable_system_proxy, set_system_proxy, setup_system_proxy,
    SystemProxyGuard,
};
use quicproxy::utils::table::Table;

#[test]
fn notify_without_waiter_does_not_create_notifier() {
    let mut notify = KeyedNotify::new();

    assert_eq!(notify.notify("no-waiter"), None);

    assert!(notify.is_empty());
}

#[test]
fn wait_until_is_woken_and_notifier_is_removed() {
    let mut notify = KeyedNotify::new();
    let key = "wait-until";
    assert!(matches!(
        notify.wait_until::<u8>(key, 1, WaitEvent::Begin),
        WaitStep::Check(1)
    ));
    assert!(matches!(
        notify.wait_until::<u8>(key, 2, WaitEvent::Checked(None)),
        WaitStep::Sleep
    ));
    assert_eq!(notify.notify(key), Some(1));
    assert!(matches!(notify.wait_until::<u8>(key, 3, WaitEvent::Begin), WaitStep::Check(3)));
    assert!(matches!(
        notify.wait_until(key, 4, WaitEvent::Checked(Some(42u8))),
        WaitStep::Done(Some(42), Some(3))
    ));
    assert!(notify.is_empty());
}

#[test]
fn timeout_removes_notifier() {
    let mut notify = KeyedNotify::new();
    let _ = notify.wait_until::<u8>("timeout", 1, WaitEvent::Begin);
    assert_eq!(notify.get_or_create("timeout", 9), 1);
    assert!(matches!(
        notify.wait_until::<u8>("timeout", 2, WaitEvent::TimedOut),
        WaitStep::Done(None, Some(1))
    ));
    assert!(notify.is_empty());
}

#[test]
fn caches_have_to_lie_somewhere() {
    let mut map = CacheMap::new();
    let items = vec![
        CacheItem { name: "a".to_string(), path: Some("a.redb".to_string()) },
        CacheItem { name: "b".to_string(), path: None },
    ];
    let e = init_cache(&mut map, &items).unwrap_err();
    assert!(e.starts_with("cache 'b' must configure `path`"));
    assert_eq!(cache_path(&map, "a").unwrap(), "a.redb");
    assert_eq!(cache_path(&map, "b").unwrap_err(), "can not find cache config for tag: b");
}

#[test]
fn cached_values_live_for_their_ttl() {
    let stored = ExpiringValue::new("v", 100, 10);
    assert!(matches!(read_entry(Some(stored.clone()), 109), CacheRead::Hit("v", 110)));
    assert!(matches!(read_entry(Some(stored.clone()), 110), CacheRead::Expired));
    assert!(matches!(read_entry::<&str>(None, 0), CacheRead::Missing));
    let list = list_entries(
        vec![
            ("a".to_string(), ExpiringValue::new(1, 0, 5)),
            ("b".to_string(), ExpiringValue::new(2, 0, 50)),
            ("c".to_string(), ExpiringValue::new(3, 0, 60)),
        ],
        5,
    );
    assert_eq!(list, vec![("b".to_string(), 2), ("c".to_string(), 3)]);
}

#[test]
fn databases_are_opened_once() {
    let mut stores = OpenStores::new();
    assert_eq!(stores.opened("x"), None);
    assert_eq!(stores.with_cache_size("x", OpenOutcome::Opened(4)).unwrap(), 4);
    assert_eq!(stores.opened("x"), Some(4));
    assert!(matches!(
        stores.with_cache_size("y", OpenOutcome::TimedOut),
        Err(OpenError::Locked)
    ));
    assert!(matches!(
        stores.with_cache_size("y", OpenOutcome::Failed("e".to_string())),
        Err(OpenError::Failed(_))
    ));
    assert!(matches!(
        stores.with_cache_size("y", OpenOutcome::Disconnected),
        Err(OpenError::WorkerPanicked)
    ));
    shutdown_redb(&mut stores);
    assert_eq!(stores.opened("x"), None);
    shutdown_cache(&mut stores);
    assert_eq!(cache_size_bytes(2), 2 * 1024 * 1024);
    assert_eq!(cache_size_bytes(usize::MAX), usize::MAX);
}

fn transport(kind: &str, path: Option<&str>, host: Option<&str>) -> TransportConfig {
    TransportConfig {
        protocol_type: kind.to_string(),
        path: path.map(str::to_string),
        host: host.map(str::to_string),
        service_name: None,
    }
}

#[test]
fn websockets_are_opened_for_a_url() {
    let server = TargetAddr::from_str2("127.0.0.1", 8080).unwrap();
    assert!(matches!(wrap_transport_stream(&None, &server), Ok(TransportStep::Plain)));
    assert!(matches!(
        wrap_transport_stream(&Some(transport("tcp", None, None)), &server),
        Ok(TransportStep::Plain)
    ));
    match wrap_transport_stream(&Some(transport("ws", Some("trojan"), None)), &server) {
        Ok(TransportStep::WebSocket(url)) => assert_eq!(url, "ws://127.0.0.1:8080/trojan"),
        other => panic!("{:?}", other),
    }
    assert_eq!(
        wrap_transport_stream(&Some(transport("grpc", None, None)), &server).unwrap_err(),
        "unsupported transport type: grpc"
    );
    let bad = wrap_transport_stream(&Some(transport("ws", Some("a b"), None)), &server);
    assert!(bad.unwrap_err().starts_with("invalid websocket request URL: "));
    let fronted = transport("ws", Some(""), Some("cdn.example.com"));
    assert_eq!(ws_authority(&fronted, &server), "cdn.example.com");
    assert_eq!(ws_path(&fronted), "/");
    assert_eq!(ws_authority(&transport("ws", None, Some("")), &server), "127.0.0.1:8080");
}

#[test]
fn websocket_messages_become_a_stream() {
    let mut stream = WsByteStream::new();
    assert!(matches!(stream.poll_read(8), WsRead::NeedMessage));
    stream.receive(&WsEvent::Message(WsMessage::Binary(b"abcd".to_vec())));
    stream.receive(&WsEvent::Message(WsMessage::Control));
    stream.receive(&WsEvent::Message(WsMessage::Text("\u{e9}".to_string())));
    match stream.poll_read(3) {
        WsRead::Bytes(bytes) => assert_eq!(bytes, b"abc".to_vec()),
        other => panic!("{:?}", other),
    }
    stream.receive(&WsEvent::Message(WsMessage::Close));
    match stream.poll_read(64) {
        WsRead::Bytes(bytes) => assert_eq!(bytes, vec![b'd', 0xc3, 0xa9]),
        other => panic!("{:?}", other),
    }
    assert!(matches!(stream.poll_read(8), WsRead::End));
    let mut ended = WsByteStream::new();
    ended.receive(&WsEvent::Ended);
    assert!(matches!(ended.poll_read(8), WsRead::End));
}

#[test]
fn websocket_writes_outlive_a_blocked_socket() {
    assert!(matches!(write_outcome(5, WsFlush::Blocked), WsWrite::Wrote(5)));
    assert!(matches!(write_outcome(5, WsFlush::Done), WsWrite::Wrote(5)));
    assert!(matches!(write_outcome(5, WsFlush::Closed), WsWrite::BrokenPipe(_)));
    assert!(matches!(write_outcome(5, WsFlush::Failed("x".to_string())), WsWrite::Failed(_)));
    assert!(matches!(flush_outcome(WsFlush::Closed), WsDone::Done));
    assert!(matches!(flush_outcome(WsFlush::Blocked), WsDone::Pending));
    assert!(matches!(flush_outcome(WsFlush::Failed("x".to_string())), WsDone::Failed(_)));
}

#[test]
fn name_servers_are_set_with_the_tool_at_hand() {
    assert_eq!(dns_tool(true, true).unwrap(), DnsTool::Resolvectl);
    assert_eq!(dns_tool(false, true).unwrap(), DnsTool::Nmcli);
    assert!(dns_tool(false, false).unwrap_err().starts_with("No supported DNS"));
    let dns = vec![IpAddr::V4(0x0101_0101), IpAddr::V6(1)];
    let c = set_dns(DnsTool::Resolvectl, "eth0", &dns);
    assert_eq!(c.program, "resolvectl");
    assert_eq!(c.args, vec!["dns", "eth0", "1.1.1.1", "::1"]);
    let c = set_dns(DnsTool::Nmcli, "eth0", &dns);
    assert_eq!(c.args, vec!["dev", "modify", "eth0", "ipv4.dns", "1.1.1.1 ::1"]);
    assert_eq!(restore_dns(DnsTool::Nmcli, "eth0").args[4], "");
    assert_eq!(restore_dns(DnsTool::Resolvectl, "eth0").args, vec!["revert", "eth0"]);
}

#[test]
fn logs_are_put_aside_in_time() {
    let mut log = SizeLimitedFileAppender::new(10, 6);
    assert!(!log.before_write(4));
    log.wrote(4);
    assert!(log.before_write(1));
    assert_eq!(log.current_size, 0);
    log.wrote(1);
    assert_eq!(log.current_size, 1);
}

#[test]
fn logging_starts_once_and_where_configured() {
    let settings = || log_settings(&LogConfig::Level("debug".to_string()));
    assert!(matches!(init_logging(true, settings(), None), LoggingPlan::AlreadyRunning));
    match init_logging(false, settings(), None) {
        LoggingPlan::On { filter, file, stdout, color, backtrace, .. } => {
            assert_eq!(filter, "debug");
            assert_eq!(file, FileSink::NoFile);
            assert!(stdout && color);
            assert_eq!(backtrace, BacktraceMode::On);
        }
        other => panic!("{:?}", other),
    }
    let detailed = |enable: bool, max_size: Option<u64>| {
        log_settings(&LogConfig::Detailed {
            enable,
            level: "info".to_string(),
            path: Some("x.log".to_string()),
            color: false,
            stdout: false,
            max_size,
            backtrace: BacktraceMode::Off,
        })
    };
    assert!(matches!(init_logging(false, detailed(false, None), None), LoggingPlan::Off));
    match init_logging(false, detailed(true, Some(7)), Some("warn".to_string())) {
        LoggingPlan::On { filter, file, .. } => {
            assert_eq!(filter, "warn");
            assert_eq!(file, FileSink::Bounded(7));
        }
        other => panic!("{:?}", other),
    }
    match init_logging(false, detailed(true, None), None) {
        LoggingPlan::On { file, .. } => assert_eq!(file, FileSink::Unbounded),
        other => panic!("{:?}", other),
    }
}

#[test]
fn output_is_cut_into_lines() {
    let mut buffer = LineBuffer::new();
    assert!(buffer.write(b" WARN a").is_empty());
    assert_eq!(buffer.write(b"b\n\nrest"), vec![b" WARN ab".to_vec(), Vec::new()]);
    assert_eq!(buffer.flush(), Some(b"rest".to_vec()));
    assert_eq!(buffer.flush(), None);
    let line = emit_nslog(b" WARN ab  ").unwrap();
    assert_eq!((line.level, line.text.as_str()), ("warn", " WARN ab"));
    assert_eq!(emit_nslog(b"ERROR x").unwrap().level, "error");
    assert_eq!(emit_nslog(b"INFO x").unwrap().level, "info");
    assert_eq!(emit_nslog(b"TRACE x").unwrap().level, "debug");
    assert!(emit_nslog(b" \t ").is_none());
    assert!(emit_nslog(b"INFO a\0b").is_none());
    assert!(emit_nslog(b"\0").is_none());
}

#[test]
fn platforms_by_name() {
    let linux = Platform::from_name("linux");
    assert!(is_linux(linux) && is_desktop(linux) && !is_mobile(linux) && !is_apple(linux));
    let ios = Platform::from_name("ios");
    assert!(is_ios(ios) && is_mobile(ios) && is_apple(ios) && !is_desktop(ios));
    assert!(is_macos(Platform::from_name("macos")));
    assert!(is_windows(Platform::from_name("windows")));
    assert!(is_android(Platform::from_name("android")));
    assert_eq!(Platform::from_name("haiku"), Platform::Other);
}

#[test]
fn system_proxies_are_set_by_commands() {
    let mac = set_system_proxy(Platform::Macos, "Wi-Fi", true, "127.0.0.1", 8080);
    assert_eq!(mac.len(), 3);
    assert_eq!(mac[0].program, "networksetup");
    assert_eq!(mac[1].args, vec!["-setsecurewebproxy", "Wi-Fi", "127.0.0.1", "8080"]);
    let off = set_system_proxy(Platform::Macos, "Wi-Fi", false, "", 0);
    assert_eq!(off[2].args, vec!["-setsocksfirewallproxystate", "Wi-Fi", "off"]);
    let win = set_system_proxy(Platform::Windows, "", true, "127.0.0.1", 8080);
    assert_eq!(win[1].args[7], "127.0.0.1:8080");
    assert_eq!(set_system_proxy(Platform::Windows, "", false, "", 0).len(), 1);
    assert!(set_system_proxy(Platform::Linux, "", true, "h", 1).is_empty());

    let setup = setup_system_proxy(Platform::Macos, true, "::", 80, Some("Wi-Fi")).unwrap();
    assert_eq!(setup.host, "127.0.0.1");
    assert!(setup_system_proxy(Platform::Macos, false, "::", 80, None).is_none());
}

#[test]
fn system_proxies_are_remembered_until_disabled() {
    let mut active = None;
    let guard =
        SystemProxyGuard::new(&mut active, "Wi-Fi".to_string(), "127.0.0.1".to_string(), 80);
    assert_eq!(active.as_ref().unwrap().port, 80);
    let taken = clear_system_proxy(&mut active).unwrap();
    assert!(active.is_none());
    disable_system_proxy(&mut active, taken, true, true);
    assert!(active.is_some());
    disable_system_proxy(&mut active, guard, false, false);
    assert!(active.is_none());
}

#[test]
fn quic_plans_follow_the_configuration() {
    let s = Duration::from_secs;
    let plan = make_transport_config(s(30), Some("CUBIC"), true, false, 1300, 1200);
    assert_eq!(plan.controller, Controller::Cubic);
    assert!(keep_alive_interval_for(s(0)).is_none());
    assert!(check_connection(true, Some(false)).is_err());
    assert!(check_connection(true, Some(true)).is_ok());
    assert!(check_connection(false, None).is_ok());

    let server = server_plan(
        s(30), Some("c.pem"), Some("k.pem"), None, None, None, false, String::new(),
        String::new(), false, true, true, 1300, 1200,
    );
    assert!(matches!(server.certificate, ServerCertificate::Files { .. }));
    let client = build_client_config(
        s(30), false, false, None, None, None, None, String::new(), String::new(), false, true,
        true, 1300, 1200,
    );
    assert!(matches!(client.trust, ClientTrust::Anybody));
}

#[test]
fn certificates_and_keys_are_read_off_pem() {
    let made = rcgen::generate_simple_self_signed(vec!["localhost".to_string()]).unwrap();
    let certs = load_certs(made.cert.pem().as_bytes()).unwrap();
    assert_eq!(certs, vec![made.cert.der().to_vec()]);
    let key = load_keys(made.signing_key.serialize_pem().as_bytes()).unwrap();
    assert_eq!(key, made.signing_key.serialize_der());
    assert_eq!(load_keys(made.cert.pem().as_bytes()).unwrap_err(), PemError::NoPrivateKey);
    assert!(load_certs(b"").unwrap().is_empty());
    assert_eq!(found_key(None).unwrap_err(), PemError::Broken);
}

#[test]
fn tables_and_sorting() {
    let mut table: Table<u8> = Table::new();
    table.insert("a", 1);
    table.insert("b", 2);
    table.insert("a", 3);
    assert_eq!(table.len(), 2);
    assert_eq!(table.get("a"), Some(&3));
    assert_eq!(table.remove("a"), Some(3));
    assert_eq!(table.row(0), ("b", &2));
    assert!(!table.contains("a"));
    let list = vec!["b".to_string(), "a".to_string(), "\u{e9}".to_string()];
    assert_eq!(sort_texts(&list), vec!["a", "b", "\u{e9}"]);
}
