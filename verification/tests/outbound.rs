use quicproxy::config::{OutboundConfig, OutboundTlsConfig};
use quicproxy::proxy::outbound::hysteria2::settings::Hysteria2Outbound;
use quicproxy::proxy::outbound::shadowquic::{OutboundError, ShadowQuicOutbound};
use quicproxy::proxy::shadowquic_udp::{gen_sunny_auth_hash, UdpMode};
use quicproxy::time::Duration;
use quicproxy::utils::quic::ClientTrust;

fn config(protocol: &str) -> OutboundConfig {
    OutboundConfig {
        protocol_type: protocol.to_string(),
        address: Some("192.0.2.1".to_string()),
        port: Some(443),
        connect_timeout: Some(5),
        bind_interface: None,
        dns: None,
        idle_timeout: None,
        username: Some("alice".to_string()),
        password: Some("pw".to_string()),
        uuid: None,
        udp_mod: Some("datagram".to_string()),
        congestion_controller: None,
        pool_size: None,
        gso: true,
        mtu_discoveriy: true,
        min_mtu: 1400,
        initial_mtu: 1400,
        outbounds: None,
        default_outbound: None,
        url: None,
        interval: None,
        tolerance: None,
        prefer_ipv6: None,
        cache: None,
        tls: None,
        transport: None,
        disable_mux: false,
    }
}

fn tls() -> OutboundTlsConfig {
    OutboundTlsConfig {
        enable: true,
        insecure: None,
        server_name: Some("front.example".to_string()),
        alpn: None,
        ca: None,
        enable_jls: false,
        jls_username: None,
        jls_password: None,
    }
}

#[test]
fn shadowquic_outbounds_follow_the_configuration() {
    let mut cfg = config("shadowquic");
    cfg.tls = Some(tls());
    let out = ShadowQuicOutbound::new("o".to_string(), &cfg).unwrap();
    assert_eq!(out.address.to_text(), "192.0.2.1:443");
    assert_eq!(out.udp_mod, UdpMode::OverDatagram);
    assert_eq!(out.auth_hash, Some(gen_sunny_auth_hash("alice", "pw")));
    assert_eq!(out.connect_timeout, Duration::from_secs(5));
    assert_eq!(out.client.server_name, "front.example");

    cfg.tls.as_mut().unwrap().enable_jls = true;
    assert!(matches!(
        ShadowQuicOutbound::new("o".to_string(), &cfg),
        Err(OutboundError::Jls)
    ));
    cfg.tls = Some(tls());
    cfg.password = None;
    assert!(matches!(
        ShadowQuicOutbound::new("o".to_string(), &cfg),
        Err(OutboundError::Credentials(_))
    ));
    cfg.password = Some("pw".to_string());
    cfg.port = None;
    assert!(matches!(
        ShadowQuicOutbound::new("o".to_string(), &cfg),
        Err(OutboundError::Endpoint(_))
    ));
}

#[test]
fn hysteria2_outbounds_speak_h3() {
    let mut cfg = config("hysteria2");
    let mut section = tls();
    section.insecure = Some(true);
    cfg.tls = Some(section);
    let out = Hysteria2Outbound::new("o".to_string(), &cfg).unwrap();
    assert_eq!(out.client.alpn, vec!["h3"]);
    assert_eq!(out.password, "pw");
    assert!(matches!(out.client.trust, ClientTrust::Anybody));
    assert!(!out.client.early_data);
    cfg.password = None;
    assert!(matches!(
        Hysteria2Outbound::new("o".to_string(), &cfg),
        Err(OutboundError::Credentials(e)) if e == "hysteria2 outbound 'o' requires password"
    ));
    cfg.address = None;
    assert!(matches!(
        Hysteria2Outbound::new("o".to_string(), &cfg),
        Err(OutboundError::Endpoint(_))
    ));
}
