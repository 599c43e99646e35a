use quicproxy::api::common::{
    check_auth, cors_headers, cors_step, header_text, CorsStep, STATUS_BAD_REQUEST,
    STATUS_NOT_FOUND, STATUS_OK, STATUS_UNAUTHORIZED,
};
use quicproxy::api::core_api::{
    begin_test, build_core_version_info, default_max_redirects, delete_connections, disk_used,
    get_connections, get_outbound_info, get_request, get_trace, init_core_api, outbound_info,
    put_selector, read_trace, CoreApiError, DeleteConnectionParams, RequestOutcome,
    MAX_RESPONSE_BODY_BYTES,
};
use quicproxy::api::core_manager::{
    log_start, read_log_from, ConfigFacts, CoreManager, LogPlace, StartCoreRequest, StartStep,
    StopAction, StopEvent, StopPhase,
};
use quicproxy::api::management::{
    default_log_tail, logs_request, start_request, LogsQuery, LogsRequest,
};
use quicproxy::api::static_files::validate_web_dir;
use quicproxy::bootstrap::{
    elevation, init_app, init_failure, run_manage, run_mode, run_with_signal, shutdown_app,
    ManageArgs, RunMode, Stage, StopCause, Teardown,
};
use quicproxy::config::ApiConfig;
use quicproxy::proxy::addr::{IpAddr, SocketAddr, TargetAddr};
use quicproxy::proxy::connections::{ConnectionBook, ConnectionTracker};
use quicproxy::proxy::observe::Observer;
use quicproxy::proxy::outbound::selector::{Child, SelectorOutbound, SelectorType, Selectors};
use quicproxy::time::Duration;

#[test]
fn core_version_metadata_is_available() {
    let info = build_core_version_info("0.1.0", None);

    assert_eq!(info.version, "0.1.0");
    assert!(!info.build_date.is_empty());
    assert_eq!(build_core_version_info("1", Some("today")).build_date, "today");
}

#[test]
fn route_auth_rejects_missing_credentials_and_accepts_bearer() {
    assert_eq!(check_auth(None, "secret"), Err(STATUS_UNAUTHORIZED));
    assert_eq!(check_auth(Some(b"Bearer secret"), "secret"), Ok(()));
    assert_eq!(check_auth(Some(b"secret"), "secret"), Ok(()));
    assert_eq!(check_auth(Some(b"Bearer other"), "secret"), Err(STATUS_UNAUTHORIZED));
    assert_eq!(check_auth(Some("gehe\u{ef}m".as_bytes()), "gehe\u{ef}m"), Err(STATUS_UNAUTHORIZED));
    assert_eq!(header_text(b"a\tb"), Some("a\tb".to_string()));
    assert_eq!(header_text(b"a\nb"), None);
}

#[test]
fn empty_password_keeps_routes_open() {
    assert_eq!(check_auth(None, ""), Ok(()));
}

#[test]
fn preflight_requests_are_answered_at_once() {
    assert_eq!(cors_step(true), CorsStep::Answer(204));
    assert_eq!(cors_step(false), CorsStep::HandOn);
    assert_eq!(cors_headers(false).len(), 3);
    assert_eq!(cors_headers(true)[3], ("access-control-max-age", "86400"));
}

#[test]
fn read_log_returns_incremental_file_content() {
    let first_file = b"first\n";
    let start = log_start(0, first_file.len() as u64);
    let first_read = read_log_from(&first_file[start as usize..], start);
    assert_eq!(first_read.content, "first\n");

    let second_file = b"first\nsecond\n";
    let start = log_start(first_read.position, second_file.len() as u64);
    let second_read = read_log_from(&second_file[start as usize..], start);
    assert_eq!(second_read.content, "second\n");
    assert!(second_read.position > first_read.position);
    assert_eq!(log_start(100, 5), 0);
}

#[test]
fn validate_web_dir_rejects_directory_without_index() {
    let err = validate_web_dir("web", true, "web/index.html", false).unwrap_err();

    assert!(err.contains("missing index.html"));
    assert_eq!(
        validate_web_dir("web", false, "web/index.html", false).unwrap_err(),
        "web_dir does not exist or is not a directory: web"
    );
}

#[test]
fn validate_web_dir_accepts_directory_with_index() {
    assert!(validate_web_dir("web", true, "web/index.html", true).is_ok());
}

fn manager() -> CoreManager {
    CoreManager::new("quicproxy".to_string(), "/work".to_string())
}

#[test]
fn configurations_are_read_for_the_interface() {
    let mut m = manager();
    assert_eq!(m.status().config_api_port, 1235);
    m.set_config(
        "{\"api\":{\"port\":70000,\"password\":\"pw\"},\"log\":{\"path\":\"a.log\"}}".to_string(),
    )
    .unwrap();
    assert_eq!(m.config_api_port, 70000u32 as u16);
    assert_eq!(m.config_api_password, "pw");
    assert_eq!(m.log_file_path(), Some("a.log".to_string()));
    assert!(m.set_config("{".to_string()).unwrap_err().starts_with("Invalid config JSON: "));
    assert_eq!(m.config_api_password, "pw");
    m.set_config("{}".to_string()).unwrap();
    assert_eq!(m.config_api_password, "pw");
    assert_eq!(m.log_file_path(), None);
    m.apply_config(
        "x".to_string(),
        Ok(ConfigFacts { api_port: Some(9), api_password: None }),
    )
    .unwrap();
    assert_eq!(m.config_api_port, 9);
}

#[test]
fn starting_needs_a_configuration() {
    let mut m = manager();
    let plain = StartCoreRequest::default();
    match m.start(plain, "/work/config.json") {
        StartStep::Refuse(e) => {
            assert_eq!(e, "No config set. Use PUT /api/core/config first.");
        }
        other => panic!("{:?}", other),
    }
    m.set_config("{}".to_string()).unwrap();
    m.set_core_path("/bin/core".to_string());
    match m.start(StartCoreRequest { is_need_elevate: true }, "/work/config.json") {
        StartStep::Run { config, core_path, args } => {
            assert_eq!((config.as_str(), core_path.as_str()), ("{}", "/bin/core"));
            assert_eq!(
                args,
                vec!["-c", "/work/config.json", "--elevate", "--elevate-no-show-window"]
            );
        }
        other => panic!("{:?}", other),
    }
    m.started(Some(42));
    assert!(m.is_running());
    assert_eq!(m.status().pid, Some(42));
    assert!(matches!(m.start(plain, "/work/config.json"), StartStep::StopFirst));
}

#[test]
fn stubborn_processes_are_killed() {
    let mut m = manager();
    assert!(m.stop().is_none());
    m.set_config("{\"api\":{\"port\":80,\"password\":\"pw\"}}".to_string()).unwrap();
    m.started(Some(1));
    let mut stopping = m.stop().unwrap();
    assert!(!m.is_running());
    assert!(matches!(stopping.action(), StopAction::CheckExit));
    match stopping.step(StopEvent::Running) {
        StopAction::RequestQuit { url, authorization } => {
            assert_eq!(url, "http://127.0.0.1:80/quit");
            assert_eq!(authorization.as_deref(), Some("pw"));
        }
        other => panic!("{:?}", other),
    }
    match stopping.step(StopEvent::QuitAccepted) {
        StopAction::Sleep(d) => assert_eq!(d, Duration::from_secs(3)),
        other => panic!("{:?}", other),
    }
    assert!(matches!(stopping.step(StopEvent::Elapsed), StopAction::CheckExit));
    assert!(matches!(stopping.step(StopEvent::Running), StopAction::Kill));
    assert!(matches!(stopping.step(StopEvent::KillFailed), StopAction::ForceKill));
    assert!(matches!(stopping.step(StopEvent::Elapsed), StopAction::WaitExit(_)));
    assert!(matches!(stopping.step(StopEvent::Elapsed), StopAction::Done));
}

#[test]
fn logs_are_bounded() {
    let mut m = manager();
    for i in 0..600u64 {
        m.push_log(i, format!("line {i}"));
    }
    assert_eq!(m.logs.len(), 500);
    assert_eq!(m.logs[0].message, "line 100");
    assert_eq!(m.logs[0].timestamp, "100");
    let tail = m.get_logs(Some(2));
    assert_eq!(tail[1].message, "line 599");
    assert_eq!(tail.len(), 2);
    assert_eq!(m.get_logs(None).len(), default_log_tail());
    m.clear_logs();
    assert!(m.get_logs(None).is_empty());
}

#[test]
fn requests_for_logs() {
    let query = LogsQuery { tail: None, position: Some(3) };
    assert_eq!(logs_request(&query), LogsRequest::FileFrom(3));
    let query = LogsQuery { tail: None, position: None };
    assert_eq!(logs_request(&query), LogsRequest::Latest(200));
    assert!(!start_request(b"").unwrap().is_need_elevate);
    assert!(start_request(b"{}").is_none());
}

fn tracker() -> ConnectionTracker {
    ConnectionTracker::new(
        "in".to_string(),
        vec!["proxy".to_string()],
        None,
        TargetAddr::Domain("x".to_string(), 1),
        TargetAddr::Domain("x".to_string(), 1),
        false,
        false,
        0,
    )
}

fn params(id: Option<&str>, outbound: Option<&str>, all: bool) -> DeleteConnectionParams {
    DeleteConnectionParams {
        id: id.map(str::to_string),
        outbound: outbound.map(str::to_string),
        all,
    }
}

#[test]
fn connections_are_closed_on_request() {
    let mut book = ConnectionBook::new();
    let id = book.add_connection(tracker(), true, None);
    assert_eq!(delete_connections(&book, &params(None, None, true)).unwrap(), vec![id.clone()]);
    assert_eq!(
        delete_connections(&book, &params(Some(&id), None, false)).unwrap(),
        vec![id.clone()]
    );
    assert_eq!(
        delete_connections(&book, &params(None, Some("proxy"), false)).unwrap(),
        vec![id.clone()]
    );
    assert_eq!(
        delete_connections(&book, &params(None, None, false)).unwrap_err(),
        STATUS_BAD_REQUEST
    );
    assert_eq!(
        delete_connections(&book, &params(Some("x"), None, false)).unwrap_err(),
        STATUS_BAD_REQUEST
    );
    let other = "b831381d-6324-4d53-ad4f-8cda48b30811";
    assert_eq!(
        delete_connections(&book, &params(Some(other), None, false)).unwrap_err(),
        STATUS_NOT_FOUND
    );
}

fn selectors() -> Selectors {
    Selectors {
        list: vec![SelectorOutbound {
            tag: "s".to_string(),
            selector_type: SelectorType::Manual,
            default_outbound: "a".to_string(),
            outbounds: vec![Child::Leaf("a".to_string()), Child::Leaf("b".to_string())],
            outbound_tags: vec!["a".to_string(), "b".to_string()],
            selected_index: 0,
            has_completed_test: false,
            interval: Duration::from_secs(1),
            tolerance: 0,
            dns: None,
        }],
    }
}

#[test]
fn selectors_are_switched_on_request() {
    let mut list = selectors();
    assert_eq!(put_selector(&mut list, None, "b").0, STATUS_NOT_FOUND);
    assert_eq!(put_selector(&mut list, Some(None), "b").0, STATUS_NOT_FOUND);
    assert_eq!(put_selector(&mut list, Some(Some(0)), "z").0, STATUS_BAD_REQUEST);
    let (status, switch) = put_selector(&mut list, Some(Some(0)), "b");
    assert_eq!(status, STATUS_OK);
    assert_eq!(switch.unwrap().to, "b");
    assert_eq!(list.list[0].selected_index, 1);
}

#[test]
fn reports_name_address_and_country() {
    let body = b"fl=1\nip=192.0.2.7\nts=1\nloc = DE \nbroken\n";
    assert_eq!(read_trace(body), ("192.0.2.7".to_string(), "DE".to_string()));
    assert_eq!(read_trace(b""), (String::new(), String::new()));
}

#[test]
fn tests_of_ways_out_are_recorded() {
    let mut observer = Observer::new();
    observer.register_outbound("a", "direct");
    observer.register_outbound("s", "selector");
    assert_eq!(begin_test(&mut observer, "z", false).unwrap_err(), "outbound not found: z");
    begin_test(&mut observer, "a", true).unwrap();
    assert!(observer.get_outbound_stats("a").unwrap().is_testing_trace);
    let result =
        get_outbound_info(&mut observer, "a", Ok(Some(b"ip=1\nloc=DE")), 41, None, None).unwrap();
    assert_eq!((result.ip.as_str(), result.duration_ms), ("1", 20));
    let node = observer.get_outbound_stats("a").unwrap();
    assert!(!node.is_testing_trace);
    assert_eq!(node.stats.get_latency_ms(), 20);

    let through = get_trace(&mut observer, &selectors(), 0).unwrap();
    assert_eq!(through.selected_node.as_deref(), Some("a"));
    assert_eq!(observer.get_outbound_stats("s").unwrap().stats.get_latency_ms(), 20);
    let info = outbound_info(&observer, "s", "selector", Some(&selectors().list[0]));
    assert_eq!((info.loc.as_str(), info.latency), ("DE", 20));
    assert_eq!(info.outbounds.unwrap().len(), 2);

    assert_eq!(
        get_outbound_info(&mut observer, "a", Ok(Some(b"ip=1")), 41, None, None).unwrap_err(),
        "failed to get response"
    );
    assert!(get_outbound_info(&mut observer, "a", Ok(None), 41, None, None).is_err());
    assert_eq!(
        get_outbound_info(&mut observer, "a", Err("no route".to_string()), 41, None, None)
            .unwrap_err(),
        "no route"
    );
    assert_eq!(observer.get_outbound_stats("a").unwrap().stats.get_latency_ms(), -1);
    assert!(get_trace(&mut observer, &selectors(), 0).is_err());
}

#[test]
fn answers_through_ways_out_are_handed_on() {
    assert_eq!(get_request(RequestOutcome::TimedOut).unwrap_err(), 504);
    assert_eq!(get_request(RequestOutcome::Failed).unwrap_err(), 502);
    let answer = RequestOutcome::Answered { status: 418, body: b"tea".to_vec() };
    assert_eq!(get_request(answer).unwrap(), (418, "tea".to_string()));
    let long = RequestOutcome::Answered {
        status: 200,
        body: vec![0; MAX_RESPONSE_BODY_BYTES + 1],
    };
    assert_eq!(get_request(long).unwrap_err(), 413);
    assert_eq!(default_max_redirects(), 5);
    assert_eq!(disk_used(10, 4), 6);
}

#[test]
fn parts_start_in_order_and_all_stop() {
    let mut started = Vec::new();
    let mut last = None;
    while let Some(stage) = init_app(last) {
        started.push(stage);
        last = Some(stage);
    }
    assert_eq!(started.len(), 9);
    assert_eq!(started[0], Stage::Cache);
    assert_eq!(started[8], Stage::Api);
    assert_eq!(init_failure(Stage::GeoipDb), "Failed to init geoip db");
    assert_eq!(shutdown_app()[0], Teardown::Interfaces);
    assert_eq!(shutdown_app().len(), 9);
    assert!(run_with_signal(StopCause::Signal).1);
    assert!(!run_with_signal(StopCause::InitFailed).1);
    assert_eq!(run_mode(true, true, false), RunMode::Manage);
    assert_eq!(run_mode(false, true, false), RunMode::Elevate);
    assert_eq!(run_mode(false, true, true), RunMode::Core);
}

#[test]
fn the_interface_needs_an_address_and_an_observer() {
    let mut api = ApiConfig {
        address: "127.0.0.1".to_string(),
        port: 1235,
        password: "pw".to_string(),
        persist_path: None,
    };
    assert!(init_core_api(None, false).unwrap().is_none());
    let plan = init_core_api(Some(&api), true).unwrap().unwrap();
    assert_eq!(plan.address, SocketAddr { ip: IpAddr::V4(0x7f00_0001), port: 1235, scope_id: 0 });
    assert_eq!(plan.password, "pw");
    assert!(matches!(init_core_api(Some(&api), false), Err(CoreApiError::NoObserver)));
    api.address = "localhost".to_string();
    assert!(matches!(
        init_core_api(Some(&api), true),
        Err(CoreApiError::InvalidAddress(a)) if a == "localhost"
    ));
}

#[test]
fn connections_are_shown() {
    let mut book = ConnectionBook::new();
    let mut c = tracker();
    c.final_target = TargetAddr::Ip(SocketAddr { ip: IpAddr::V6(1), port: 443, scope_id: 0 });
    let id = book.add_connection(c, true, None);
    let shown = get_connections(&book);
    assert_eq!(shown.len(), 1);
    assert_eq!(shown[0].id, id);
    assert_eq!(shown[0].dst, "[::1]:443");
    assert_eq!(shown[0].ip, "x:1");
    assert_eq!(shown[0].outbound_tag, vec!["proxy"]);
}

#[test]
fn managers_run_their_own_program_unless_told_otherwise() {
    let args = |host: &str, core: Option<&str>| ManageArgs {
        host: host.to_string(),
        port: 8080,
        core_path: core.map(str::to_string),
        work_dir: None,
    };
    let plan = run_manage(args("::", None), Some("/opt/qp"), Some("/opt")).unwrap();
    assert_eq!(plan.address, SocketAddr { ip: IpAddr::V6(0), port: 8080, scope_id: 0 });
    assert_eq!((plan.core_path.as_str(), plan.work_dir.as_str()), ("/opt/qp", "/opt"));
    let plan = run_manage(args("::", Some("/bin/qp")), None, None).unwrap();
    assert_eq!((plan.core_path.as_str(), plan.work_dir.as_str()), ("/bin/qp", "."));
    let plan = run_manage(args("::", None), None, None).unwrap();
    assert_eq!(plan.core_path, "./quicproxy");
    assert_eq!(run_manage(args("host", None), None, None).unwrap_err(), "host");

    let config = elevation(true);
    assert!(!config.show_window);
    assert_eq!(config.prompt_title, "QuicProxy");
    assert_eq!(config.preserve_env_vars.len(), 5);
}

#[test]
fn restarts_stop_what_runs() {
    let mut m = manager();
    let request = || StartCoreRequest { is_need_elevate: false };
    assert!(matches!(m.restart(request(), "c.json"), (None, StartStep::Refuse(_))));
    let config = r#"{"api":{"port":1234,"password":"pw"}}"#;
    m.set_config(config.to_string()).unwrap();
    m.started(Some(1));
    let (stopping, step) = m.restart(request(), "c.json");
    let stopping = stopping.unwrap();
    assert_eq!(stopping.phase, StopPhase::FirstCheck);
    assert_eq!((stopping.port, stopping.password.as_str()), (1234, "pw"));
    match step {
        StartStep::Run { config: written, args, .. } => {
            assert_eq!(written, config);
            assert_eq!(args, vec!["-c", "c.json"]);
        }
        other => panic!("{:?}", other),
    }
    assert!(!m.is_running());
    assert_eq!(m.config_file_path().1, "config.json");
    assert!(matches!(m.read_log(Some("/var/log/x"), true), LogPlace::At(p) if p == "/var/log/x"));
    assert!(matches!(m.read_log(Some("x"), false), LogPlace::Under(_, n) if n == "x"));
    assert!(matches!(m.read_log(None, false), LogPlace::Under(_, n) if n == "quicproxy.log"));
}
