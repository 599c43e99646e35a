use quicproxy::config::ObserveConfig;
use quicproxy::proxy::addr::TargetAddr;
use quicproxy::proxy::connections::{ConnectionBook, ConnectionTracker};
use quicproxy::proxy::credentials::{credential_hash, CredentialError};
use quicproxy::proxy::observe::{
    init_observer, session_tags, shutdown_observer, spawn_periodic_log, Observer,
};
use quicproxy::proxy::session::{SessionCloser, WaitStep, WaitTurn};
use quicproxy::proxy::stats::{NodeStats, Stats};
use quicproxy::time::Duration;

fn tracker(outbounds: &[&str]) -> ConnectionTracker {
    ConnectionTracker::new(
        "mixed".to_string(),
        outbounds.iter().map(|s| s.to_string()).collect(),
        None,
        TargetAddr::Domain("example.org".to_string(), 443),
        TargetAddr::Domain("example.org".to_string(), 443),
        false,
        false,
        1_000,
    )
}

#[test]
fn connection_tracker_matches_nested_selector() {
    let tracker = tracker(&["proxy", "urltest", "node-a"]);

    assert!(tracker.uses_outbound("proxy"));
    assert!(tracker.uses_outbound("urltest"));
    assert!(tracker.uses_outbound("node-a"));
    assert!(!tracker.uses_outbound("other-urltest"));
}

#[test]
fn public_outbound_traffic_update_includes_global_totals_once() {
    let mut observer = Observer::new();
    observer.register_outbound("direct", "direct");

    observer.update_outbound_traffic("direct", 10, 20);

    let outbound = observer.get_outbound_stats("direct").unwrap();
    assert_eq!(outbound.stats.get_upload_bytes(), 10);
    assert_eq!(outbound.stats.get_download_bytes(), 20);
    assert_eq!(observer.global_stats.get_upload_bytes(), 10);
    assert_eq!(observer.global_stats.get_download_bytes(), 20);
}

fn tracker_to(name: &str) -> ConnectionTracker {
    ConnectionTracker {
        final_target: TargetAddr::Domain(name.to_string(), 443),
        ..tracker(&["direct"])
    }
}

#[test]
fn traffic_is_drained_as_it_was_counted() {
    let mut book = ConnectionBook::new();
    let a = book.add_connection(tracker_to("b.org"), false, None);
    let b = book.add_connection(tracker_to("a.org"), false, None);
    let idle = book.add_connection(tracker_to("c.org"), false, None);
    book.count(&a, 1, 2);
    book.remove_connection(&a, 2_000, None);
    book.remove_connection(&a, 2_001, None);
    book.count(&a, 100, 100);
    let first = book.drain_dst_traffic();
    assert_eq!(first.len(), 1);
    assert_eq!((first[0].domain.as_str(), first[0].upload, first[0].download), ("b.org:443", 1, 2));

    let again = book.add_connection(tracker_to("b.org"), false, None);
    book.count(&again, 5, 0);
    book.count(&b, 7, 8);
    book.count(&b, 1, 1);
    for id in [&again, &b, &idle] {
        book.remove_connection(id, 2_002, None);
    }
    let rest = book.drain_dst_traffic();
    let seen: Vec<(&str, u64, u64)> =
        rest.iter().map(|e| (e.domain.as_str(), e.upload, e.download)).collect();
    assert_eq!(seen, vec![("a.org:443", 8, 9), ("b.org:443", 5, 0)]);
    assert!(book.drain_dst_traffic().is_empty());
}

#[test]
fn destination_traffic_aggregation_is_concurrent_and_lossless() {
    const CONNECTIONS: usize = 16;

    let mut book = ConnectionBook::new();
    let mut ids = Vec::new();
    for _ in 0..CONNECTIONS {
        let id = book.add_connection(tracker(&["direct"]), false, None);
        book.count(&id, 10, 20);
        ids.push(id);
    }
    for id in &ids {
        book.remove_connection(id, 2_000, None);
    }

    let entries = book.drain_dst_traffic();
    assert_eq!(entries.len(), 1);
    assert_eq!(entries[0].upload, CONNECTIONS as u64 * 10);
    assert_eq!(entries[0].download, CONNECTIONS as u64 * 20);
    assert!(book.drain_dst_traffic().is_empty());
}

#[test]
fn periodic_log_rejects_zero_interval() {
    let error = spawn_periodic_log(0).unwrap_err();

    assert!(error.contains("greater than zero"));
    assert_eq!(spawn_periodic_log(30).unwrap(), Duration::from_secs(30));
}

#[test]
fn credential_hash_matches_protocol_wire_format() {
    assert_eq!(
        credential_hash("trojan", "default", "secret")
            .unwrap()
            .len(),
        56
    );
    assert_eq!(
        credential_hash("anytls", "default", "secret")
            .unwrap()
            .len(),
        32
    );
    assert_eq!(
        credential_hash("shadowquic", "alice", "secret")
            .unwrap()
            .len(),
        64
    );
    assert!(credential_hash("socks5", "a", "b").is_err());
}

#[test]
fn credentials_have_known_values() {
    assert_eq!(
        credential_hash("trojan", "default", "secret").unwrap(),
        b"95c7fbca92ac5083afda62a564a3d014fc3b72c9140e3cb99ea6bf12".to_vec()
    );
    assert_eq!(
        credential_hash("vmess", "nobody", "secret").unwrap_err(),
        CredentialError::InvalidUuid
    );
    assert_eq!(
        credential_hash("socks5", "a", "b").unwrap_err(),
        CredentialError::NoUsers
    );
    assert_eq!(
        credential_hash("vmess", "b831381d-6324-4d53-ad4f-8cda48b30811", "").unwrap().len(),
        16
    );
}

#[test]
fn take_traffic_swaps_cumulative_counters_only() {
    let mut stats = Stats::default();
    stats.add_traffic(10, 20);
    stats.inc_active_tcp();

    let snapshot = stats.take_traffic();

    assert_eq!(snapshot.upload, 10);
    assert_eq!(snapshot.download, 20);
    assert_eq!(snapshot.total_tcp, 1);
    assert_eq!(stats.get_upload_bytes(), 0);
    assert_eq!(stats.get_download_bytes(), 0);
    assert_eq!(stats.get_total_tcp_conns(), 0);
    assert_eq!(stats.get_active_tcp_conns(), 1);

    stats.restore(snapshot);
    assert_eq!(stats.get_upload_bytes(), 10);
    assert_eq!(stats.get_total_tcp_conns(), 1);
}

#[test]
fn averages_are_rounded_down() {
    let mut stats = Stats::default();
    assert_eq!(stats.get_dns_avg_time_us(), 0);
    stats.record_dns_time(3);
    stats.record_dns_time(4);
    assert_eq!(stats.get_dns_avg_time_us(), 3);
    stats.record_route_time(9);
    assert_eq!(stats.get_route_avg_time_us(), 9);
    stats.inc_active_udp();
    stats.dec_active_udp();
    assert_eq!(stats.get_active_udp_sessions(), 0);
    assert_eq!(stats.get_total_udp_conns(), 1);
}

#[test]
fn add_remove_and_authenticate_users() {
    let mut observer = Observer::new();

    let _ = observer.upsert_user("alice");
    let trojan_credential = credential_hash("trojan", "alice", "pw").unwrap();
    let shadow_credential = credential_hash("shadowquic", "alice", "pw").unwrap();
    observer.set_user_credential("trojan-a", "alice", trojan_credential.clone());
    observer.set_user_credential("shadow-a", "alice", shadow_credential.clone());

    let (username, _) = observer
        .authenticate("trojan-a", &trojan_credential)
        .expect("trojan user should authenticate");
    assert_eq!(username, "alice");

    assert!(observer.authenticate("shadow-a", &shadow_credential).is_some());
    assert!(observer.authenticate("trojan-a", &shadow_credential).is_none());

    observer.update_user_traffic("alice", 5, 7);
    let collected = observer.collect_user_stats(Some("alice"), false);
    assert_eq!(collected.len(), 1);
    assert_eq!(collected[0].upload, 5);
    assert_eq!(collected[0].download, 7);

    let collected = observer.collect_user_stats(Some("alice"), true);
    assert_eq!(collected[0].upload, 5);
    let collected = observer.collect_user_stats(Some("alice"), false);
    assert_eq!(collected[0].upload, 0);

    assert!(observer.remove_user("alice").is_some());
    assert!(observer.user_stats("alice").is_none());
    assert!(observer.authenticate("trojan-a", &trojan_credential).is_none());
    assert!(observer.remove_user("alice").is_none());
}

#[test]
fn stored_users_continue_where_they_were() {
    let mut before = Observer::new();
    before.register_inbound("t", "trojan");
    let stored = before.add_user("alice", "pw");
    assert_eq!(stored.username, "alice");
    before.update_user_traffic("alice", 3, 4);
    let saved = before.persist_users();
    assert_eq!(saved.len(), 1);

    let mut slot = None;
    let config = ObserveConfig { enabled: true, log_interval: 30 };
    let period = init_observer(&mut slot, Some(&config), Some("disk"), saved).unwrap();
    assert_eq!(period, Some(Duration::from_secs(30)));
    let after = slot.as_ref().unwrap();
    assert_eq!(after.user_stats("alice").unwrap().get_upload_bytes(), 3);
    assert_eq!(after.persisted_users()[0].password, "pw");
    shutdown_observer(&mut slot);
    assert!(slot.is_none());
}

#[test]
fn observing_needs_a_cache_and_an_interval() {
    let mut slot = None;
    let config = ObserveConfig { enabled: true, log_interval: 0 };
    assert_eq!(
        init_observer(&mut slot, Some(&config), None, Vec::new()).unwrap_err(),
        "observe requires cache"
    );
    assert!(init_observer(&mut slot, Some(&config), Some("c"), Vec::new()).is_err());
    let off = ObserveConfig { enabled: false, log_interval: 0 };
    assert_eq!(init_observer(&mut slot, Some(&off), None, Vec::new()).unwrap(), None);
    assert!(slot.is_none());
}

#[test]
fn tcp_tracker_counts_each_direction_once_across_both_wrappers() {
    let mut observer = Observer::new();
    observer.register_inbound("mixed", "mix");
    observer.register_outbound("direct", "direct");
    let id = observer.book.add_connection(tracker(&["direct"]), true, None);
    let tags = session_tags("mixed", "direct", &vec!["direct".to_string()], id.clone());
    observer.stream_opened(&tags);

    observer.stream_read(&tags, true, 2);
    observer.stream_written(&tags, false, 2);
    observer.stream_read(&tags, false, 2);
    observer.stream_written(&tags, true, 2);

    let connections = observer.book.get_all_connections();
    assert_eq!(connections.len(), 1);
    assert_eq!(connections[0].upload, 2);
    assert_eq!(connections[0].download, 2);
    let inbound = observer.get_inbound_stats("mixed").unwrap().stats;
    assert_eq!(inbound.get_upload_bytes(), 2);
    assert_eq!(inbound.get_download_bytes(), 2);
    let outbound = observer.get_outbound_stats("direct").unwrap().stats;
    assert_eq!(outbound.get_upload_bytes(), 2);
    assert_eq!(outbound.get_download_bytes(), 2);
    let global = observer.get_global_stats();
    assert_eq!(global.get_upload_bytes(), 2);
    assert_eq!(global.get_download_bytes(), 2);

    observer.stream_closed(&tags);
    observer.book.remove_connection(&id, 3_000, None);
    assert!(observer.book.get_all_connections().is_empty());
    let traffic = observer.book.drain_dst_traffic();
    assert_eq!(traffic.len(), 1);
    assert_eq!(traffic[0].upload, 2);
    assert_eq!(traffic[0].download, 2);
}

#[test]
fn streams_through_selectors_are_counted_in_both_directions() {
    let mut observer = Observer::new();
    observer.register_inbound("mixed", "mixed");
    observer.register_outbound("proxy", "selector");
    observer.register_outbound("node", "direct");
    let id = observer.book.add_connection(tracker(&["proxy", "node"]), true, None);
    let active = vec!["proxy".to_string(), "node".to_string()];
    let tags = session_tags("mixed", "proxy", &active, id);
    observer.stream_read(&tags, true, 7);
    observer.stream_written(&tags, false, 7);
    observer.stream_read(&tags, false, 9);
    observer.stream_written(&tags, true, 9);
    for tag in ["proxy", "node"] {
        let node = observer.get_outbound_stats(tag).unwrap();
        assert_eq!(node.stats.get_upload_bytes(), 7);
        assert_eq!(node.stats.get_download_bytes(), 9);
    }
    assert_eq!(observer.global_stats.get_upload_bytes(), 7);
    assert_eq!(observer.global_stats.get_download_bytes(), 9);
}

#[test]
fn selectors_count_with_their_leaf() {
    let mut observer = Observer::new();
    for tag in ["proxy", "node-a"] {
        observer.register_outbound(tag, "x");
    }
    let active = vec!["proxy".to_string(), "node-a".to_string()];
    let tags = session_tags("mixed", "proxy", &active, "id".to_string());
    observer.packet_relayed(&tags, 5, 6);
    for tag in ["proxy", "node-a"] {
        assert_eq!(observer.get_outbound_stats(tag).unwrap().stats.get_upload_bytes(), 5);
    }
}

#[test]
fn connections_are_picked_for_closing() {
    let mut book = ConnectionBook::new();
    let a = book.add_connection(tracker(&["proxy", "node"]), true, None);
    let b = book.add_connection(
        tracker(&["direct"]).with_user(Some("alice".to_string())),
        true,
        None,
    );
    let c = book.add_connection(tracker(&["direct"]), false, None);
    assert_eq!(book.kill_connection(&a), Some(a.clone()));
    assert_eq!(book.kill_connection(&c), None);
    assert_eq!(book.kill_connection("nonsense"), None);
    assert_eq!(book.kill_connections_by_outbound("node"), vec![a.clone()]);
    assert_eq!(book.kill_connections_by_user("alice"), vec![b.clone()]);
    let mut all = book.kill_all_connections();
    all.sort();
    let mut expected = vec![a, b];
    expected.sort();
    assert_eq!(all, expected);
    assert_eq!(uuid::Uuid::parse_str(&c).unwrap().get_version_num(), 4);
}

/// Puts waiters to sleep: each registers, looks and finds the session open.
fn sleepers(closer: &mut SessionCloser, count: u64) {
    for id in 0..count {
        assert_eq!(closer.wait(id, WaitTurn::Begin), WaitStep::Check);
        assert_eq!(closer.wait(id, WaitTurn::Check), WaitStep::Sleep);
    }
}

/// Lets woken waiters look again.
fn return_all(closer: &mut SessionCloser, woken: &[u64]) {
    for id in woken {
        assert_eq!(closer.wait(*id, WaitTurn::Begin), WaitStep::Check);
        assert_eq!(closer.wait(*id, WaitTurn::Check), WaitStep::Return);
    }
}

#[test]
fn close_wakes_all_registered_waiters() {
    let mut closer = SessionCloser::new();
    sleepers(&mut closer, 16);
    assert!(!closer.is_closed());

    let woken = closer.close();

    assert_eq!(woken, (0..16).collect::<Vec<u64>>());
    return_all(&mut closer, &woken);
    assert!(closer.is_closed());
}

#[test]
fn multiple_close_calls_are_idempotent() {
    let mut closer = SessionCloser::new();
    sleepers(&mut closer, 8);

    let woken = closer.close();
    assert_eq!(closer.close(), Vec::<u64>::new());
    assert_eq!(closer.close(), Vec::<u64>::new());

    assert_eq!(woken.len(), 8);
    return_all(&mut closer, &woken);
    assert!(closer.is_closed());
}

#[test]
fn wait_after_close_returns_immediately() {
    let mut closer = SessionCloser::new();
    closer.close();
    return_all(&mut closer, &[0]);
}

#[test]
fn new_waiter_after_close_returns_immediately() {
    let mut closer = SessionCloser::new();
    closer.close();
    return_all(&mut closer, &[0, 1, 2, 3, 4, 5, 6, 7]);
}

#[test]
fn wait_is_reusable_after_wake() {
    let mut closer = SessionCloser::new();
    sleepers(&mut closer, 1);
    let woken = closer.close();
    return_all(&mut closer, &woken);
    return_all(&mut closer, &woken);
    return_all(&mut closer, &woken);
}

#[test]
fn close_racing_wait_never_hangs() {
    for round in 0..50 {
        let mut closer = SessionCloser::new();
        // The session is closed while the waiters stand at different points of their turns.
        for id in 0..32u64 {
            assert_eq!(closer.wait(id, WaitTurn::Begin), WaitStep::Check);
            if id % 3 == round % 3 {
                assert_eq!(closer.wait(id, WaitTurn::Check), WaitStep::Sleep);
            }
        }
        let woken = closer.close();
        for id in 0..32u64 {
            if id % 3 == round % 3 {
                assert!(woken.contains(&id));
                assert_eq!(closer.wait(id, WaitTurn::Begin), WaitStep::Check);
            }
            assert_eq!(closer.wait(id, WaitTurn::Check), WaitStep::Return);
        }
        assert!(closer.is_closed(), "round {round} not closed");
    }
}

#[test]
fn every_waiter_is_notified_once() {
    let mut closer = SessionCloser::new();
    sleepers(&mut closer, 10);
    let mut woken = closer.close();
    woken.sort();
    woken.dedup();
    assert_eq!(woken.len(), 10);
}

#[test]
fn node_stats_serialization_tolerates_missing_selector() {
    let stats = NodeStats::new("missing-selector", "selector");

    assert_eq!(stats.tag, "missing-selector");
    assert!(stats.selector_tag(None).is_none());
}

#[test]
fn only_selectors_show_what_they_chose() {
    assert_eq!(NodeStats::new("s", "urltest").selector_tag(Some("a")).as_deref(), Some("a"));
    assert!(NodeStats::new("d", "direct").selector_tag(Some("a")).is_none());
}

#[test]
fn nodes_and_users_are_listed() {
    let mut observer = Observer::new();
    observer.register_outbound("direct", "direct");
    observer.register_outbound("hop", "socks5");
    observer.register_inbound("in", "mixed");
    observer.upsert_user("alice");
    observer.update_user_traffic("alice", 3, 4);
    let mut tags: Vec<&str> = observer.get_all_outbounds().iter().map(|n| n.0).collect();
    tags.sort();
    assert_eq!(tags, vec!["direct", "hop"]);
    let inbounds = observer.get_all_inbounds();
    assert_eq!(inbounds.len(), 1);
    assert_eq!(inbounds[0].1.protocol, "mixed");
    let users = observer.all_user_stats();
    assert_eq!(users[0].0, "alice");
    assert_eq!(users[0].1.upload_bytes, 3);
}

#[test]
fn memory_peaks_are_kept() {
    let mut observer = Observer::new();
    observer.record_memory(10);
    observer.record_memory(4);
    assert_eq!(observer.mem_stats.peak, 10);
}

#[test]
fn statistics_say_what_was_counted() {
    let mut observer = Observer::new();
    observer.register_inbound("in", "vmess");
    observer.register_outbound("out", "direct");
    observer.update_outbound_node_traffic("out", 7, 9);
    observer.record_dns_time(30);
    observer.record_dns_time(10);
    let first = observer.log_statistics(Some(100));
    assert_eq!(first.inbounds.len(), 1);
    assert_eq!(first.inbounds[0].protocol, "vmess");
    assert_eq!(first.outbounds[0].tag, "out");
    assert_eq!(first.outbounds[0].upload, 7);
    assert_eq!(first.outbounds[0].download, 9);
    assert_eq!(first.dns_avg_time_us, 20);
    assert_eq!(first.route_avg_time_us, 0);
    let second = observer.log_statistics(Some(50)).memory.unwrap();
    assert_eq!((second.current, second.average, second.peak), (50, 75, 100));
    assert!(observer.log_statistics(None).memory.is_none());
    assert!(observer.log_statistics(Some(0)).memory.is_none());
    assert_eq!(observer.mem_stats.samples, 2);
}
