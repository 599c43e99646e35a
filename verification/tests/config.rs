use quicproxy::config::{
    default_log_config, duration_from_secs_or, load, with_file_name, InboundConfig, LogConfig,
    NetworkType, OutboundConfig, RouterMode,
};
use quicproxy::time::Duration;

fn inbound(protocol: &str) -> InboundConfig {
    InboundConfig {
        protocol_type: protocol.to_string(),
        address: None,
        port: None,
        set_system_proxy: false,
        tls: None,
        transport: None,
        idle_timeout: None,
        username: None,
        password: None,
        udp_mod: None,
        congestion_controller: None,
        gso: true,
        mtu_discoveriy: true,
        mtu: None,
        min_mtu: 1400,
        initial_mtu: 1400,
        auto_route: None,
        strict_route: false,
        block_ipv6: false,
        tun_name: None,
        tun_address: None,
        tun_fd: None,
    }
}

fn outbound(protocol: &str) -> OutboundConfig {
    OutboundConfig {
        protocol_type: protocol.to_string(),
        address: None,
        port: None,
        connect_timeout: None,
        bind_interface: None,
        dns: None,
        idle_timeout: None,
        username: None,
        password: None,
        uuid: None,
        udp_mod: None,
        congestion_controller: None,
        pool_size: None,
        gso: true,
        mtu_discoveriy: true,
        min_mtu: 1400,
        initial_mtu: 1400,
        outbounds: None,
        default_outbound: None,
        url: None,
        interval: None,
        tolerance: None,
        prefer_ipv6: None,
        cache: None,
        tls: None,
        transport: None,
        disable_mux: false,
    }
}

#[test]
fn duration_from_secs_uses_configured_value_or_default() {
    let default = Duration::from_secs(30);

    assert_eq!(
        duration_from_secs_or(Some(12), default),
        Duration::from_secs(12)
    );
    assert_eq!(duration_from_secs_or(None, default), default);
}

#[test]
fn bound_config_resolves_common_values() {
    let mut inbound = inbound("socks5");
    inbound.address = Some("127.0.0.1".to_string());
    inbound.port = Some(1080);
    assert_eq!(inbound.socket_addr("local").unwrap().port, 1080);
    assert_eq!(inbound.idle_timeout(), Duration::from_secs(30));

    let mut outbound = outbound("shadowquic");
    outbound.address = Some("proxy.example.com".to_string());
    outbound.port = Some(443);
    outbound.username = Some("user".to_string());
    outbound.password = Some("secret".to_string());
    outbound.udp_mod = Some("datagram".to_string());
    let endpoint = outbound.endpoint("proxy").unwrap();
    assert_eq!(endpoint.host(), "proxy.example.com");
    assert_eq!(endpoint.port(), 443);
    assert_eq!(outbound.credentials("proxy").unwrap(), ("user", "secret"));
    assert_eq!(outbound.connect_timeout(), Duration::from_secs(30));
    assert_eq!(outbound.udp_mode_or("stream"), "datagram");
}

#[test]
fn missing_settings_are_named() {
    let mut cfg = inbound("socks5");
    assert_eq!(
        cfg.socket_addr("local").unwrap_err(),
        "socks5 inbound 'local' requires address"
    );
    cfg.address = Some("not an address".to_string());
    assert_eq!(
        cfg.socket_addr("local").unwrap_err(),
        "socks5 inbound 'local' requires port"
    );
    cfg.port = Some(1);
    assert_eq!(
        cfg.socket_addr("local").unwrap_err(),
        "socks5 inbound 'local' has an invalid socket address"
    );
    assert_eq!(
        cfg.credentials("local").unwrap_err(),
        "socks5 inbound 'local' requires username"
    );
    cfg.username = Some("u".to_string());
    assert_eq!(
        cfg.credentials("local").unwrap_err(),
        "socks5 inbound 'local' requires password"
    );
}

#[test]
fn names_of_modes_and_networks() {
    assert_eq!(RouterMode::from_name("direct"), Some(RouterMode::Direct));
    assert_eq!(RouterMode::from_name("Direct"), None);
    assert_eq!(RouterMode::Proxy.as_str(), "proxy");
    assert_eq!(NetworkType::from_str("TCP").unwrap(), NetworkType::Tcp);
    assert_eq!(NetworkType::from_str("udp").unwrap(), NetworkType::Udp);
    assert!(NetworkType::from_str("icmp").is_err());
}

#[test]
fn logging_is_at_info_by_default() {
    match default_log_config() {
        LogConfig::Level(level) => assert_eq!(level, "info"),
        LogConfig::Detailed { .. } => panic!("a bare level is the default"),
    }
}

#[test]
fn json5_becomes_plain_json() {
    assert_eq!(
        load("{ port: 1080, /* note */ name: 'a', }", "config.json").unwrap(),
        "{\"name\":\"a\",\"port\":1080}"
    );
    let complaint = load("{ port: ", "config.json").unwrap_err();
    assert!(complaint.starts_with("JSON5 parse error in config.json: "));
    assert_eq!(
        with_file_name(Err("why".to_string()), "x").unwrap_err(),
        "JSON5 parse error in x: why"
    );
}
