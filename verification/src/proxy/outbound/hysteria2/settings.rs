//! Settings of a Hysteria2 outbound.

use crate::config::{copy_opt, no_endpoint, opt_text, secs_or, texts, OutboundConfig};
use crate::proxy::addr::{TargetAddr, TargetView};
use crate::proxy::outbound::hysteria2::http3::{AuthResult, STATUS_AUTH_OK};
use crate::proxy::outbound::shadowquic::{
    ca_out, endpoint_out, insecure_out, sni_out, OutboundError,
};
use crate::proxy::tls::{outbound_jls_incomplete, TlsConfig};
use crate::text::{copy_text, push_text};
use crate::time::{secs, Duration};
use crate::utils::quic::{build_client_config, transport_plan, ClientPlan, ClientTrust};
use vstd::prelude::*;

verus! {

/// A Hysteria2 outbound.
#[derive(Debug)]
pub struct Hysteria2Outbound {
    pub tag: String,
    pub address: TargetAddr,
    pub password: String,
    pub dns_server_name: Option<String>,
    pub bind_interface: Option<String>,
    pub connect_timeout: Duration,
    pub client: ClientPlan,
}

/// The complaint about a missing password.
pub open spec fn password_missing_text(tag: Seq<char>) -> Seq<char> {
    "hysteria2 outbound '"@ + tag + "' requires password"@
}

/// The server name to ask for: the configured one, or else the host name, or else a stand-in for an
/// address that has no name.
pub open spec fn hysteria_server_name(sni: Option<Seq<char>>, address: TargetView) -> Seq<char> {
    match sni {
        Some(name) => name,
        None => match address {
            TargetView::Domain(domain, _) => domain,
            TargetView::Ip(_) => "hysteria"@,
        },
    }
}

impl Hysteria2Outbound {
    /// An outbound as configured: it speaks `h3`, without early data and without JLS.
    pub fn new(tag: String, cfg: &OutboundConfig) -> (r: Result<Hysteria2Outbound, OutboundError>)
        ensures
            match r {
                Ok(o) => {
                    &&& endpoint_out(*cfg) == Some(o.address@)
                    &&& opt_text(cfg.password) == Some(o.password@)
                    &&& !outbound_jls_incomplete(cfg.tls)
                    &&& o.tag@ == tag@
                    &&& opt_text(o.dns_server_name) == opt_text(cfg.dns)
                    &&& opt_text(o.bind_interface) == opt_text(cfg.bind_interface)
                    &&& o.connect_timeout == secs_or(cfg.connect_timeout, secs(30))
                    &&& !o.client.early_data
                    &&& match o.client.trust {
                        ClientTrust::Jls { username, password } => false,
                        ClientTrust::Authorities { ca } => !insecure_out(*cfg) && opt_text(ca)
                            == ca_out(*cfg),
                        ClientTrust::Anybody => insecure_out(*cfg),
                    }
                    &&& texts(o.client.alpn@) == seq!["h3"@]
                    &&& o.client.server_name@ == hysteria_server_name(sni_out(*cfg), o.address@)
                    &&& o.client.transport == transport_plan(
                        secs_or(cfg.idle_timeout, secs(30)),
                        opt_text(cfg.congestion_controller),
                        cfg.gso,
                        cfg.mtu_discoveriy,
                        cfg.initial_mtu,
                        cfg.min_mtu,
                    )
                },
                Err(OutboundError::Endpoint(e)) => endpoint_out(*cfg) is None && no_endpoint(
                    *cfg,
                    tag@,
                    e,
                ),
                Err(OutboundError::Credentials(e)) => endpoint_out(*cfg) is Some && cfg.password
                    is None && e@ == password_missing_text(tag@),
                Err(OutboundError::Jls) => endpoint_out(*cfg) is Some && cfg.password is Some
                    && outbound_jls_incomplete(cfg.tls),
            },
    {
        let address = match cfg.endpoint(tag.as_str()) {
            Ok(address) => address,
            Err(e) => {
                return Err(OutboundError::Endpoint(e));
            },
        };
        let password = match &cfg.password {
            Some(password) => copy_text(password.as_str()),
            None => {
                let mut e = String::new();
                push_text(&mut e, "hysteria2 outbound '");
                push_text(&mut e, tag.as_str());
                push_text(&mut e, "' requires password");
                assert(e@ =~= password_missing_text(tag@));
                return Err(OutboundError::Credentials(e));
            },
        };
        let tls = match TlsConfig::from_outbound(cfg) {
            Ok(tls) => tls,
            Err(_) => {
                return Err(OutboundError::Jls);
            },
        };
        let sni = match tls.sni {
            Some(name) => name,
            None => match &address {
                TargetAddr::Domain(domain, _) => copy_text(domain.as_str()),
                TargetAddr::Ip(_) => copy_text("hysteria"),
            },
        };
        let mut alpn: Vec<String> = Vec::new();
        alpn.push(copy_text("h3"));
        assert(texts(alpn@) =~= seq!["h3"@]);
        let client = build_client_config(
            cfg.idle_timeout(),
            !tls.insecure,
            false,
            tls.cert,
            Some(sni),
            Some(alpn),
            match &cfg.congestion_controller {
                Some(name) => Some(name.as_str()),
                None => None,
            },
            String::new(),
            String::new(),
            false,
            cfg.gso,
            cfg.mtu_discoveriy,
            cfg.initial_mtu,
            cfg.min_mtu,
        );
        Ok(
            Hysteria2Outbound {
                tag,
                address,
                password,
                dns_server_name: copy_opt(&cfg.dns),
                bind_interface: copy_opt(&cfg.bind_interface),
                connect_timeout: cfg.connect_timeout(),
                client,
            },
        )
    }
}

/// Whether an auth answer lets the client in.
pub fn is_admitted(auth: &AuthResult) -> (r: bool)
    ensures
        r == (auth.status == STATUS_AUTH_OK),
{
    auth.status == STATUS_AUTH_OK
}

/// Why a UDP session cannot be had.
#[derive(Clone, Copy, Debug, PartialEq, Eq, Structural)]
pub enum SessionError {
    /// The server does not relay UDP.
    UdpDisabled,
    /// Every session id has been used.
    IdsExhausted,
}

/// Takes a session id for a new UDP session on a connection.
pub fn connect_packet(udp_enabled: bool, next: &mut u32) -> (r: Result<u32, SessionError>)
    ensures
        match r {
            Ok(id) => udp_enabled && id == *old(next) && *old(next) < u32::MAX && *final(next)
                == *old(next) + 1,
            Err(SessionError::UdpDisabled) => !udp_enabled && *final(next) == *old(next),
            Err(SessionError::IdsExhausted) => udp_enabled && *old(next) == u32::MAX && *final(next)
                == *old(next),
        },
{
    if !udp_enabled {
        return Err(SessionError::UdpDisabled);
    }
    match crate::proxy::outbound::hysteria2::udp::next_session_id(next) {
        Some(id) => Ok(id),
        None => Err(SessionError::IdsExhausted),
    }
}

/// The name that the server is asked for by: the configured one, or else its domain; an address stands
/// for no name, so a fixed one is used.
pub proof fn law_server_name(name: Seq<char>, domain: Seq<char>, port: u16, address: TargetView)
    ensures
        hysteria_server_name(Some(name), address) == name,
        hysteria_server_name(None, TargetView::Domain(domain, port)) == domain,
        address is Ip ==> hysteria_server_name(None, address) == "hysteria"@,
{
}

} // verus!
