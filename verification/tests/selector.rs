use quicproxy::config::OutboundConfig;
use quicproxy::proxy::addr::TargetAddr;
use quicproxy::proxy::connections::ConnectionTracker;
use quicproxy::proxy::observe::Observer;
use quicproxy::proxy::outbound::check::RoundEvent;
use quicproxy::proxy::outbound::selector::{
    report_switch, Child, SelectorError, SelectorOutbound, SelectorType, Selectors,
};
use quicproxy::time::Duration;

fn build_selector(
    selector_type: SelectorType,
    tolerance: u64,
    selected_index: usize,
) -> SelectorOutbound {
    let tags = vec!["a".to_string(), "b".to_string(), "c".to_string()];
    SelectorOutbound {
        tag: "selector-test".to_string(),
        selector_type,
        default_outbound: "a".to_string(),
        outbounds: tags.iter().map(|t| Child::Leaf(t.clone())).collect(),
        outbound_tags: tags,
        selected_index,
        has_completed_test: false,
        interval: Duration::from_secs(3600),
        tolerance,
        dns: None,
    }
}

#[test]
fn manual_selector_does_not_reselect() {
    let mut selector = build_selector(SelectorType::Manual, 0, 1);
    let results = vec![(0, 10), (1, 20)];

    selector.reselect_node_by_info(&results);

    assert_eq!(selector.selected_index, 1);
}

#[test]
fn empty_results_do_not_reselect() {
    let mut selector = build_selector(SelectorType::UrlTest, 50, 0);

    selector.reselect_node_by_info(&vec![]);

    assert_eq!(selector.selected_index, 0);
}

#[test]
fn all_unreachable_does_not_reselect() {
    let mut selector = build_selector(SelectorType::UrlTest, 50, 2);
    let results = vec![(0, -1), (1, -2)];

    selector.reselect_node_by_info(&results);

    assert_eq!(selector.selected_index, 2);
}

#[test]
fn failed_round_does_not_consume_first_successful_selection() {
    let mut selector = build_selector(SelectorType::UrlTest, 200, 0);
    selector.reselect_node_by_info(&vec![(0, -1), (1, -2)]);

    selector.reselect_node_by_info(&vec![(0, 300), (1, 150)]);

    assert_eq!(selector.selected_index, 1);
}

#[test]
fn filters_unreachable_nodes() {
    let mut selector = build_selector(SelectorType::UrlTest, 0, 2);
    let results = vec![(0, -1), (1, 20), (2, 30)];

    selector.reselect_node_by_info(&results);

    assert_eq!(selector.selected_index, 1);
}

#[test]
fn picks_first_min_latency_node() {
    let mut selector = build_selector(SelectorType::UrlTest, 0, 0);
    let results = vec![(0, 30), (1, 20), (2, 20)];

    selector.reselect_node_by_info(&results);

    assert_eq!(selector.selected_index, 1);
}

#[test]
fn first_successful_test_ignores_tolerance_and_picks_strict_min() {
    let mut selector = build_selector(SelectorType::UrlTest, 200, 0);
    let results = vec![(0, 300), (1, 150)];

    selector.reselect_node_by_info(&results);

    assert_eq!(selector.selected_index, 1);
}

#[test]
fn later_test_keeps_current_node_within_tolerance() {
    let mut selector = build_selector(SelectorType::UrlTest, 50, 0);
    selector.reselect_node_by_info(&vec![(0, 20), (1, 60)]);

    selector.reselect_node_by_info(&vec![(0, 60), (1, 20)]);

    assert_eq!(selector.selected_index, 0);
}

#[test]
fn later_test_switches_when_current_node_exceeds_tolerance() {
    let mut selector = build_selector(SelectorType::UrlTest, 50, 0);
    selector.reselect_node_by_info(&vec![(0, 20), (1, 60)]);

    let switch = selector.reselect_node_by_info(&vec![(0, 80), (1, 20)]).unwrap();

    assert_eq!(selector.selected_index, 1);
    assert_eq!((switch.from.as_str(), switch.to.as_str()), ("a", "b"));
}

#[test]
fn active_outbound_tags_include_nested_selectors_and_leaf() {
    let mut urltest = build_selector(SelectorType::UrlTest, 50, 0);
    urltest.tag = "urltest".to_string();

    let mut proxy = build_selector(SelectorType::Manual, 0, 0);
    proxy.tag = "proxy".to_string();
    proxy.outbound_tags[0] = "urltest".to_string();
    proxy.outbounds[0] = Child::Selector(0);

    let selectors = Selectors { list: vec![urltest, proxy] };
    assert_eq!(
        selectors.get_active_outbound_tags(1),
        vec!["proxy".to_string(), "urltest".to_string(), "a".to_string()]
    );
    assert_eq!(selectors.get_effective_tag(1), "a");
}

#[test]
fn huge_tolerances_do_not_wrap() {
    let mut selector = build_selector(SelectorType::UrlTest, u64::MAX, 0);
    selector.reselect_node_by_info(&vec![(0, 20), (1, 60)]);
    selector.reselect_node_by_info(&vec![(0, i64::MAX), (1, 1)]);
    assert_eq!(selector.selected_index, 0);
}

#[test]
fn selecting_by_tag() {
    let mut selector = build_selector(SelectorType::Manual, 0, 0);
    assert!(selector.select_by_tag("d").is_none());
    assert!(selector.select_by_tag("a").unwrap().is_none());
    assert_eq!(selector.select_by_tag("c").unwrap().unwrap().to, "c");
    assert_eq!(selector.get_selected_tag(), Some("c"));
    assert_eq!(selector.protocol(), "selector");
}

#[test]
fn attempts_go_round() {
    let mut selector = build_selector(SelectorType::UrlTest, 0, 1);
    let order: Vec<Option<usize>> = (0..4).map(|i| selector.attempt(i)).collect();
    assert_eq!(order, vec![Some(1), Some(2), Some(0), None]);
    assert_eq!(selector.connected(2).unwrap().to, "c");
    assert_eq!(selector.selected_index, 2);
    let manual = build_selector(SelectorType::Manual, 0, 1);
    assert_eq!(manual.attempt(0), Some(1));
    assert_eq!(manual.attempt(1), None);
}

fn config(protocol: &str) -> OutboundConfig {
    OutboundConfig {
        protocol_type: protocol.to_string(),
        address: None,
        port: None,
        connect_timeout: None,
        bind_interface: None,
        dns: None,
        idle_timeout: None,
        username: None,
        password: None,
        uuid: None,
        udp_mod: None,
        congestion_controller: None,
        pool_size: None,
        gso: true,
        mtu_discoveriy: true,
        min_mtu: 1400,
        initial_mtu: 1400,
        outbounds: None,
        default_outbound: None,
        url: None,
        interval: None,
        tolerance: None,
        prefer_ipv6: None,
        cache: None,
        tls: None,
        transport: None,
        disable_mux: false,
    }
}

#[test]
fn selectors_start_where_they_were() {
    let mut cfg = config("urltest");
    let leaf = |t: &str| Child::Leaf(t.to_string());
    assert!(matches!(
        SelectorOutbound::new("s".to_string(), &cfg, None, Vec::new()),
        Err(SelectorError::Missing(e)) if e == "selector 's' requires default_outbound"
    ));
    cfg.default_outbound = Some("b".to_string());
    assert!(matches!(
        SelectorOutbound::new("s".to_string(), &cfg, None, Vec::new()),
        Err(SelectorError::Missing(e)) if e == "selector 's' requires outbounds"
    ));
    cfg.outbounds = Some(Vec::new());
    assert!(matches!(
        SelectorOutbound::new("s".to_string(), &cfg, None, Vec::new()),
        Err(SelectorError::NoOutbound)
    ));
    cfg.outbounds = Some(vec!["a".to_string(), "b".to_string()]);
    let fresh =
        SelectorOutbound::new("s".to_string(), &cfg, None, vec![leaf("a"), leaf("b")]).unwrap();
    assert_eq!((fresh.selected_index, fresh.tolerance), (1, 50));
    assert_eq!(fresh.test_interval(), Duration::from_secs(3600));
    let again = SelectorOutbound::new("s".to_string(), &cfg, Some("a"), vec![leaf("a"), leaf("b")])
        .unwrap();
    assert_eq!(again.selected_index, 0);
    let gone = SelectorOutbound::new("s".to_string(), &cfg, Some("z"), vec![leaf("a"), leaf("b")])
        .unwrap();
    assert_eq!(gone.selected_index, 1);
}

#[test]
fn switches_are_reported() {
    let mut observer = Observer::new();
    observer.register_outbound("selector-test", "urltest");
    observer.register_outbound("b", "direct");
    observer.update_outbound_trace("b", 12, "192.0.2.1".to_string(), "DE".to_string(), None, None);
    let id = observer.book.add_connection(
        ConnectionTracker::new(
            "in".to_string(),
            vec!["selector-test".to_string(), "a".to_string()],
            None,
            TargetAddr::Domain("x".to_string(), 1),
            TargetAddr::Domain("x".to_string(), 1),
            false,
            false,
            0,
        ),
        true,
        None,
    );
    let selector = build_selector(SelectorType::UrlTest, 0, 1);
    assert_eq!(report_switch(&mut observer, &selector), vec![id]);
    assert_eq!(observer.get_outbound_trace("selector-test").unwrap().loc, "DE");
    assert_eq!(
        observer.get_outbound_stats("selector-test").unwrap().stats.get_latency_ms(),
        12
    );
}

fn answered(place: usize, body: Option<&[u8]>, elapsed_ms: u64) -> RoundEvent {
    RoundEvent::Finished {
        place,
        body: body.map(|b| b.to_vec()),
        elapsed_ms,
        uplink: None,
        downlink: None,
    }
}

#[test]
fn a_round_chooses_by_what_it_shows() {
    let mut observer = Observer::new();
    for tag in ["a", "b", "c"] {
        observer.register_outbound(tag, "direct");
    }
    let mut selector = build_selector(SelectorType::UrlTest, 0, 0);
    let mut round = selector.check_all(&mut observer);
    assert!(observer.get_outbound_stats("c").unwrap().is_testing_trace);
    assert!(!round.is_over());

    assert!(!round.step(&mut observer, answered(1, Some(b"ip=1\nloc=DE"), 61)));
    assert!(!round.step(&mut observer, answered(0, None, 10)));
    assert!(!round.step(&mut observer, answered(0, Some(b"ip=1\nloc=DE"), 2)));
    assert!(!round.step(&mut observer, answered(9, Some(b"ip=1\nloc=DE"), 2)));
    assert!(round.step(&mut observer, RoundEvent::TimedOut));
    assert!(round.step(&mut observer, answered(2, Some(b"ip=1\nloc=DE"), 2)));

    assert_eq!(round.results, vec![(1, 30)]);
    for (tag, latency) in [("a", -1), ("b", 30), ("c", -1)] {
        let node = observer.get_outbound_stats(tag).unwrap();
        assert!(!node.is_testing_trace);
        assert_eq!(node.stats.get_latency_ms(), latency);
    }
    let switch = round.reselect(&mut selector).unwrap();
    assert_eq!((switch.to.as_str(), selector.selected_index), ("b", 1));
}

#[test]
fn a_round_without_answers_changes_nothing() {
    let mut observer = Observer::new();
    let mut selector = build_selector(SelectorType::UrlTest, 0, 2);
    let mut round = selector.check_all(&mut observer);
    assert!(round.step(&mut observer, RoundEvent::TimedOut));
    assert!(round.reselect(&mut selector).is_none());
    assert_eq!(selector.selected_index, 2);
    assert!(!selector.has_completed_test);
}
