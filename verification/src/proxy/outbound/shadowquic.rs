//! Settings of a ShadowQUIC outbound.

use crate::config::{
    copy_opt, missing_text, no_endpoint, opt_text, secs_or, texts, EndpointError, OutboundConfig,
};
use crate::proxy::addr::{host_port_text, target_of_text, TargetAddr, TargetView};
use crate::proxy::shadowquic_udp::{gen_sunny_auth_hash, sunny_hash, UdpMode};
use crate::proxy::tls::{outbound_jls_incomplete, text_or_empty, TlsConfig};
use crate::text::str_eq;
use crate::time::{secs, Duration};
use crate::utils::quic::{
    build_client_config, list_of, server_name_or_default, transport_plan, ClientPlan, ClientTrust,
};
use vstd::prelude::*;

verus! {

/// Why an outbound's configuration is refused.
#[derive(Debug)]
pub enum OutboundError {
    /// JLS is on without full credentials.
    Jls,
    /// A user name or password is missing.
    Credentials(String),
    /// There is no usable endpoint.
    Endpoint(EndpointError),
}

/// Whether an outbound's TLS section turns JLS on.
pub open spec fn jls_out(cfg: OutboundConfig) -> bool {
    cfg.tls matches Some(t) && t.enable_jls
}

/// Whether an outbound trusts any certificate.
pub open spec fn insecure_out(cfg: OutboundConfig) -> bool {
    cfg.tls matches Some(t) && t.insecure == Some(true)
}

/// The server name that an outbound's TLS section gives.
pub open spec fn sni_out(cfg: OutboundConfig) -> Option<Seq<char>> {
    match cfg.tls {
        Some(t) => opt_text(t.server_name),
        None => None,
    }
}

/// The file with authorities that an outbound's TLS section gives.
pub open spec fn ca_out(cfg: OutboundConfig) -> Option<Seq<char>> {
    match cfg.tls {
        Some(t) => opt_text(t.ca),
        None => None,
    }
}

/// The protocols that an outbound's TLS section offers.
pub open spec fn alpn_out(cfg: OutboundConfig) -> Seq<Seq<char>> {
    match cfg.tls {
        Some(t) => list_of(t.alpn),
        None => Seq::empty(),
    }
}

/// The endpoint that an outbound's address and port make.
pub open spec fn endpoint_out(cfg: OutboundConfig) -> Option<TargetView> {
    if cfg.address is Some && cfg.port is Some {
        match target_of_text(host_port_text(cfg.address->0@, cfg.port->0)) {
            Ok(t) => Some(t),
            Err(_) => None,
        }
    } else {
        None
    }
}

/// Whom an outbound trusts.
pub open spec fn trusts(trust: ClientTrust, cfg: OutboundConfig) -> bool {
    match trust {
        ClientTrust::Jls { username, password } => jls_out(cfg) && username@ == text_or_empty(
            cfg.tls->0.jls_username,
        ) && password@ == text_or_empty(cfg.tls->0.jls_password),
        ClientTrust::Authorities { ca } => !jls_out(cfg) && !insecure_out(cfg) && opt_text(ca)
            == ca_out(cfg),
        ClientTrust::Anybody => !jls_out(cfg) && insecure_out(cfg),
    }
}

/// A ShadowQUIC outbound.
#[derive(Debug)]
pub struct ShadowQuicOutbound {
    pub tag: String,
    pub address: TargetAddr,
    pub auth_hash: Option<Vec<u8>>,
    pub dns_server_name: Option<String>,
    pub bind_interface: Option<String>,
    pub connect_timeout: Duration,
    pub udp_mod: UdpMode,
    pub client: ClientPlan,
    pub zero_rtt: bool,
    pub enable_jls: bool,
}

/// Whether an outbound without JLS lacks credentials.
pub open spec fn credentials_missing(cfg: OutboundConfig) -> bool {
    !jls_out(cfg) && (cfg.username is None || cfg.password is None)
}

impl ShadowQuicOutbound {
    /// An outbound as configured. Without JLS it authenticates with a user name and a password.
    pub fn new(tag: String, cfg: &OutboundConfig) -> (r: Result<ShadowQuicOutbound, OutboundError>)
        ensures
            match r {
                Ok(o) => {
                    &&& !outbound_jls_incomplete(cfg.tls)
                    &&& !credentials_missing(*cfg)
                    &&& endpoint_out(*cfg) == Some(o.address@)
                    &&& o.tag@ == tag@
                    &&& o.connect_timeout == secs_or(cfg.connect_timeout, secs(30))
                    &&& o.udp_mod == if opt_text(cfg.udp_mod) == Some("datagram"@) {
                        UdpMode::OverDatagram
                    } else {
                        UdpMode::OverStream
                    }
                    &&& match o.auth_hash {
                        None => jls_out(*cfg),
                        Some(hash) => !jls_out(*cfg) && hash@ == sunny_hash(
                            cfg.username->0@,
                            cfg.password->0@,
                        ),
                    }
                    &&& opt_text(o.dns_server_name) == opt_text(cfg.dns)
                    &&& opt_text(o.bind_interface) == opt_text(cfg.bind_interface)
                    &&& o.enable_jls == jls_out(*cfg)
                    &&& !o.zero_rtt
                    &&& !o.client.early_data
                    &&& trusts(o.client.trust, *cfg)
                    &&& texts(o.client.alpn@) == alpn_out(*cfg)
                    &&& o.client.server_name@ == server_name_or_default(sni_out(*cfg))
                    &&& o.client.transport == transport_plan(
                        secs_or(cfg.idle_timeout, secs(30)),
                        opt_text(cfg.congestion_controller),
                        cfg.gso,
                        cfg.mtu_discoveriy,
                        cfg.initial_mtu,
                        cfg.min_mtu,
                    )
                },
                Err(OutboundError::Jls) => outbound_jls_incomplete(cfg.tls),
                Err(OutboundError::Credentials(e)) => {
                    &&& !outbound_jls_incomplete(cfg.tls)
                    &&& credentials_missing(*cfg)
                    &&& e@ == missing_text(
                        cfg.name(tag@),
                        if cfg.username is None {
                            "username"@
                        } else {
                            "password"@
                        },
                    )
                },
                Err(OutboundError::Endpoint(e)) => {
                    &&& !outbound_jls_incomplete(cfg.tls)
                    &&& !credentials_missing(*cfg)
                    &&& endpoint_out(*cfg) is None
                    &&& no_endpoint(*cfg, tag@, e)
                },
            },
    {
        let connect_timeout = cfg.connect_timeout();
        let tls = match TlsConfig::from_outbound(cfg) {
            Ok(tls) => tls,
            Err(_) => {
                return Err(OutboundError::Jls);
            },
        };
        let udp_mod = if str_eq(cfg.udp_mode_or("stream"), "datagram") {
            UdpMode::OverDatagram
        } else {
            UdpMode::OverStream
        };
        proof {
            reveal_strlit("stream");
            reveal_strlit("datagram");
            assert("stream"@.len() != "datagram"@.len());
        }
        let auth_hash: Option<Vec<u8>> = if tls.enable_jls {
            None
        } else {
            match cfg.credentials(tag.as_str()) {
                Err(e) => {
                    return Err(OutboundError::Credentials(e));
                },
                Ok((username, password)) => Some(gen_sunny_auth_hash(username, password)),
            }
        };
        let address = match cfg.endpoint(tag.as_str()) {
            Ok(address) => address,
            Err(e) => {
                return Err(OutboundError::Endpoint(e));
            },
        };
        let enable_jls = tls.enable_jls;
        let zero_rtt = tls.zero_rtt;
        let client = build_client_config(
            cfg.idle_timeout(),
            !tls.insecure,
            tls.zero_rtt,
            tls.cert,
            tls.sni,
            tls.alpns,
            match &cfg.congestion_controller {
                Some(name) => Some(name.as_str()),
                None => None,
            },
            tls.jls_username,
            tls.jls_password,
            tls.enable_jls,
            cfg.gso,
            cfg.mtu_discoveriy,
            cfg.initial_mtu,
            cfg.min_mtu,
        );
        Ok(
            ShadowQuicOutbound {
                tag,
                address,
                auth_hash,
                dns_server_name: copy_opt(&cfg.dns),
                bind_interface: copy_opt(&cfg.bind_interface),
                connect_timeout,
                udp_mod,
                client,
                zero_rtt,
                enable_jls,
            },
        )
    }
}

/// Whom a client trusts: with JLS the holder of the shared names, else the authorities, unless it is told
/// to trust anybody. Without JLS it has to have a name and a password of its own.
pub proof fn law_whom_a_client_trusts(trust: ClientTrust, cfg: OutboundConfig)
    requires
        trusts(trust, cfg),
    ensures
        trust is Jls <==> (cfg.tls is Some && cfg.tls->0.enable_jls),
        trust is Anybody ==> cfg.tls is Some && cfg.tls->0.insecure == Some(true),
        cfg.tls is None ==> trust is Authorities,
        cfg.tls is Some && !cfg.tls->0.enable_jls && cfg.tls->0.insecure == Some(true) ==> trust
            is Anybody,
        cfg.tls is Some && !cfg.tls->0.enable_jls && cfg.tls->0.insecure != Some(true) ==> trust
            is Authorities,
        cfg.tls is Some && cfg.tls->0.enable_jls ==> !credentials_missing(cfg),
        (cfg.tls is None || !cfg.tls->0.enable_jls) && (cfg.username is None || cfg.password is None)
            ==> credentials_missing(cfg),
        cfg.username is Some && cfg.password is Some ==> !credentials_missing(cfg),
{
}

/// The settings of a client are those of its configuration.
pub proof fn law_client_settings(cfg: OutboundConfig)
    ensures
        cfg.tls matches Some(t) ==> sni_out(cfg) == opt_text(t.server_name) && ca_out(cfg) == opt_text(
            t.ca,
        ) && alpn_out(cfg) == list_of(t.alpn),
        cfg.tls is None ==> sni_out(cfg) is None && ca_out(cfg) is None && alpn_out(cfg).len() == 0,
        cfg.address is None || cfg.port is None ==> endpoint_out(cfg) is None,
        cfg.address is Some && cfg.port is Some ==> (endpoint_out(cfg) matches Some(t) ==> target_of_text(
            cfg.address->0@ + seq![':'] + crate::text::dec_text(cfg.port->0 as nat),
        ) == Ok::<TargetView, crate::proxy::addr::TargetTextError>(t)),
{
}

} // verus!
