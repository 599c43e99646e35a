//! Configuration values and the rules by which missing ones are filled in.

use crate::ip::{parse_socket_addr, socket_addr_of};
use crate::proxy::addr::{host_port_text, target_of_text, SocketAddr, TargetAddr, TargetTextError, TargetView};
use crate::text::{chars_of, copy_text, push_decimal, push_text, str_eq};
use crate::time::{secs, Duration};
use vstd::prelude::*;

verus! {

/// The text of an optional string.
pub open spec fn opt_text(s: Option<String>) -> Option<Seq<char>> {
    match s {
        Some(t) => Some(t@),
        None => None,
    }
}

/// A copy of an optional string.
pub fn copy_opt(s: &Option<String>) -> (out: Option<String>)
    ensures
        opt_text(out) == opt_text(*s),
{
    match s {
        Some(t) => Some(t.clone()),
        None => None,
    }
}

/// The value of an optional borrowed text.
pub open spec fn opt_str(s: Option<&str>) -> Option<Seq<char>> {
    match s {
        Some(t) => Some(t@),
        None => None,
    }
}

/// The texts of a list of strings.
pub open spec fn texts(v: Seq<String>) -> Seq<Seq<char>> {
    v.map_values(|s: String| s@)
}

/// A copy of a list of strings.
pub fn copy_list(v: &Vec<String>) -> (out: Vec<String>)
    ensures
        texts(out@) == texts(v@),
{
    let mut out: Vec<String> = Vec::new();
    let mut i: usize = 0;
    while i < v.len()
        invariant
            i <= v@.len(),
            out@.len() == i,
            forall|k: int| 0 <= k < i ==> (#[trigger] out@[k])@ == v@[k]@,
        decreases v@.len() - i,
    {
        out.push(v[i].clone());
        i += 1;
    }
    assert(texts(out@) =~= texts(v@));
    out
}

/// A configured number of seconds, or the default.
pub open spec fn secs_or(value: Option<u64>, default: Duration) -> Duration {
    match value {
        Some(s) => secs(s as int),
        None => default,
    }
}

/// A configured number of seconds, or the default.
pub fn duration_from_secs_or(value: Option<u64>, default: Duration) -> (d: Duration)
    ensures
        d == secs_or(value, default),
{
    match value {
        Some(s) => Duration::from_secs(s),
        None => default,
    }
}

/// The complaint that a setting is missing.
pub open spec fn missing_text(bound: Seq<char>, what: Seq<char>) -> Seq<char> {
    bound + " requires "@ + what
}

fn missing(bound: &str, what: &str) -> (text: String)
    ensures
        text@ == missing_text(bound@, what@),
{
    let mut out = copy_text(bound);
    push_text(&mut out, " requires ");
    push_text(&mut out, what);
    out
}

/// The address and port that a connection point cannot do without.
pub fn required_endpoint<'a>(address: &'a Option<String>, port: Option<u16>, bound: &str) -> (r: Result<
    (&'a str, u16),
    String,
>)
    ensures
        match r {
            Ok((a, p)) => opt_text(*address) == Some(a@) && port == Some(p),
            Err(e) => {
                ||| *address is None && e@ == missing_text(bound@, "address"@)
                ||| *address is Some && port is None && e@ == missing_text(bound@, "port"@)
            },
        },
{
    match address {
        None => Err(missing(bound, "address")),
        Some(a) => match port {
            None => Err(missing(bound, "port")),
            Some(p) => Ok((a.as_str(), p)),
        },
    }
}

/// The user name and password that a connection point cannot do without.
pub fn required_credentials<'a>(
    username: &'a Option<String>,
    password: &'a Option<String>,
    bound: &str,
) -> (r: Result<(&'a str, &'a str), String>)
    ensures
        match r {
            Ok((u, p)) => opt_text(*username) == Some(u@) && opt_text(*password) == Some(p@),
            Err(e) => {
                ||| *username is None && e@ == missing_text(bound@, "username"@)
                ||| *username is Some && *password is None && e@ == missing_text(
                    bound@,
                    "password"@,
                )
            },
        },
{
    match username {
        None => Err(missing(bound, "username")),
        Some(u) => match password {
            None => Err(missing(bound, "password")),
            Some(p) => Ok((u.as_str(), p.as_str())),
        },
    }
}

/// How a connection point is called in complaints: its type, its side, its tag.
pub open spec fn bound_name(protocol: Seq<char>, side: Seq<char>, tag: Seq<char>) -> Seq<char> {
    protocol + side + tag + "'"@
}

fn name_bound(protocol: &str, side: &str, tag: &str) -> (out: String)
    ensures
        out@ == bound_name(protocol@, side@, tag@),
{
    let mut out = copy_text(protocol);
    push_text(&mut out, side);
    push_text(&mut out, tag);
    push_text(&mut out, "'");
    out
}

/// A user of a server.
#[derive(Debug, Clone)]
pub struct AuthUser {
    pub username: String,
    pub password: String,
}

/// The mathematical value of an [`AuthUser`].
pub struct AuthUserView {
    pub username: Seq<char>,
    pub password: Seq<char>,
}

impl View for AuthUser {
    type V = AuthUserView;

    open spec fn view(&self) -> AuthUserView {
        AuthUserView { username: self.username@, password: self.password@ }
    }
}

impl AuthUser {
    /// A copy of the user.
    pub fn copy(&self) -> (out: AuthUser)
        ensures
            out@ == self@,
    {
        AuthUser { username: self.username.clone(), password: self.password.clone() }
    }
}

/// The values of a list of users.
pub open spec fn user_views(users: Seq<AuthUser>) -> Seq<AuthUserView> {
    users.map_values(|u: AuthUser| u@)
}

/// One cache.
#[derive(Debug, Clone)]
pub struct CacheConfig {
    pub memory_size: u64,
    pub path: Option<String>,
}

/// The management API.
#[derive(Debug, Clone)]
pub struct ApiConfig {
    pub address: String,
    pub port: u16,
    pub password: String,
    /// Where the web interface keeps state that browsers share.
    pub persist_path: Option<String>,
}

/// Logging: just a level, or all the details.
#[derive(Debug, Clone)]
pub enum LogConfig {
    Level(String),
    Detailed {
        enable: bool,
        level: String,
        path: Option<String>,
        color: bool,
        stdout: bool,
        max_size: Option<u64>,
        backtrace: BacktraceMode,
    },
}

/// How much of a backtrace panics print.
#[derive(Debug, Clone, Copy, PartialEq, Eq, Structural)]
pub enum BacktraceMode {
    Off,
    On,
    Full,
}

impl BacktraceMode {
    /// The value of the environment variable that selects this mode.
    pub fn as_env_value(&self) -> (value: &str)
        ensures
            value@ == match self {
                BacktraceMode::Off => "0"@,
                BacktraceMode::On => "1"@,
                BacktraceMode::Full => "full"@,
            },
    {
        match self {
            BacktraceMode::Off => "0",
            BacktraceMode::On => "1",
            BacktraceMode::Full => "full",
        }
    }
}

/// Backtraces are on unless configured otherwise.
pub fn default_backtrace() -> (mode: BacktraceMode)
    ensures
        mode == BacktraceMode::On,
{
    BacktraceMode::On
}

/// A log file holds at most 10 MiB unless configured otherwise.
pub fn default_log_max_size() -> (size: Option<u64>)
    ensures
        size == Some(10_485_760u64),
{
    Some(10_485_760)
}

impl Default for LogConfig {
    fn default() -> (c: LogConfig)
        ensures
            c matches LogConfig::Level(level) && level@ == "info"@,
    {
        LogConfig::Level(copy_text("info"))
    }
}

/// The default of switches that are on.
pub fn default_true() -> (r: bool)
    ensures
        r,
{
    true
}

/// The default of switches that are off.
pub fn default_false() -> (r: bool)
    ensures
        !r,
{
    false
}

/// The default MTU of QUIC connections.
pub fn default_mtu() -> (mtu: u16)
    ensures
        mtu == 1400,
{
    1400
}

/// Logging unless configured otherwise.
pub fn default_log_config() -> (c: LogConfig)
    ensures
        c matches LogConfig::Level(level) && level@ == "info"@,
{
    LogConfig::default()
}

/// The default number of entries that a cache keeps in memory.
pub fn default_cache_size() -> (size: u64)
    ensures
        size == 100,
{
    100
}

/// The default lifetime of a cache entry: one hour.
pub fn default_cache_ttl() -> (secs: u64)
    ensures
        secs == 3600,
{
    3600
}

/// The default number of seconds between two statistics logs.
pub fn default_log_interval() -> (secs: u64)
    ensures
        secs == 30,
{
    30
}

/// Statistics.
#[derive(Debug, Clone)]
pub struct ObserveConfig {
    pub enabled: bool,
    pub log_interval: u64,
}

/// The cache of a DNS server.
#[derive(Debug, Clone)]
pub struct DnsCacheConfig {
    pub enabled: bool,
    pub path: Option<String>,
    pub size: u64,
}

/// Which address family DNS answers prefer.
#[derive(Debug, Clone, Copy, PartialEq, Eq, Structural)]
pub enum DnsStrategy {
    PreferIpv4,
    PreferIpv6,
    Ipv4Only,
    Ipv6Only,
}

/// One DNS server.
#[derive(Debug, Clone)]
pub struct DnsServerConfig {
    pub protocol_type: String,
    pub address: Option<String>,
    pub port: Option<u16>,
    pub min_ttl: Option<u64>,
    pub max_ttl: Option<u64>,
    pub outbound: Option<String>,
    pub cache: Option<String>,
    pub dns: Option<String>,
    pub range: Option<Vec<String>>,
    pub reject_ipv6: bool,
}

/// TLS of a server.
#[derive(Debug, Clone)]
pub struct InboundTlsConfig {
    pub enable: bool,
    pub server_name: Option<String>,
    pub cert: Option<String>,
    pub key: Option<String>,
    pub alpn: Option<Vec<String>>,
    pub enable_jls: bool,
    pub jls_username: Option<String>,
    pub jls_password: Option<String>,
}

/// TLS of a client.
#[derive(Debug, Clone)]
pub struct OutboundTlsConfig {
    pub enable: bool,
    pub insecure: Option<bool>,
    pub server_name: Option<String>,
    pub ca: Option<String>,
    pub alpn: Option<Vec<String>>,
    pub enable_jls: bool,
    pub jls_username: Option<String>,
    pub jls_password: Option<String>,
}

/// The byte stream that a client's protocol runs over.
#[derive(Debug, Clone)]
pub struct TransportConfig {
    pub protocol_type: String,
    pub path: Option<String>,
    pub host: Option<String>,
    pub service_name: Option<String>,
}

/// One server that accepts proxy clients.
#[derive(Debug, Clone)]
pub struct InboundConfig {
    pub protocol_type: String,
    pub address: Option<String>,
    pub port: Option<u16>,
    pub set_system_proxy: bool,
    pub tls: Option<InboundTlsConfig>,
    pub transport: Option<TransportConfig>,
    pub idle_timeout: Option<u64>,
    pub username: Option<String>,
    pub password: Option<String>,
    pub udp_mod: Option<String>,
    pub congestion_controller: Option<String>,
    pub gso: bool,
    pub mtu_discoveriy: bool,
    pub mtu: Option<u16>,
    pub min_mtu: u16,
    pub initial_mtu: u16,
    pub auto_route: Option<bool>,
    pub strict_route: bool,
    pub block_ipv6: bool,
    pub tun_name: Option<String>,
    pub tun_address: Option<Vec<String>>,
    pub tun_fd: Option<i32>,
}

impl InboundConfig {
    /// How this server is called in complaints.
    pub open spec fn name(self, tag: Seq<char>) -> Seq<char> {
        bound_name(self.protocol_type@, " inbound '"@, tag)
    }

    /// The configured idle timeout, or 30 seconds.
    pub fn idle_timeout(&self) -> (d: Duration)
        ensures
            d == secs_or(self.idle_timeout, secs(30)),
    {
        self.idle_timeout_or(Duration::from_secs(30))
    }

    /// The configured idle timeout, or the protocol's own default.
    pub fn idle_timeout_or(&self, default: Duration) -> (d: Duration)
        ensures
            d == secs_or(self.idle_timeout, default),
    {
        duration_from_secs_or(self.idle_timeout, default)
    }

    /// The host and port to listen on.
    pub fn endpoint(&self, tag: &str) -> (r: Result<(&str, u16), String>)
        ensures
            match r {
                Ok((a, p)) => opt_text(self.address) == Some(a@) && self.port == Some(p),
                Err(e) => {
                    ||| self.address is None && e@ == missing_text(self.name(tag@), "address"@)
                    ||| self.address is Some && self.port is None && e@ == missing_text(
                        self.name(tag@),
                        "port"@,
                    )
                },
            },
    {
        let bound = name_bound(self.protocol_type.as_str(), " inbound '", tag);
        required_endpoint(&self.address, self.port, bound.as_str())
    }

    /// The endpoint to listen on as a socket address.
    pub fn socket_addr(&self, tag: &str) -> (r: Result<SocketAddr, String>)
        ensures
            match r {
                Ok(addr) => self.address is Some && self.port is Some && socket_addr_of(
                    host_port_text(self.address->0@, self.port->0),
                ) == Some(addr),
                Err(e) => {
                    ||| self.address is None && e@ == missing_text(self.name(tag@), "address"@)
                    ||| self.address is Some && self.port is None && e@ == missing_text(
                        self.name(tag@),
                        "port"@,
                    )
                    ||| self.address is Some && self.port is Some && socket_addr_of(
                        host_port_text(self.address->0@, self.port->0),
                    ) is None && e@ == self.name(tag@) + " has an invalid socket address"@
                },
            },
    {
        let (address, port): (&str, u16) = match self.endpoint(tag) {
            Ok(pair) => pair,
            Err(e) => {
                return Err(e);
            },
        };
        let mut text = copy_text(address);
        text.push(':');
        push_decimal(&mut text, port as u64);
        assert(text@ =~= host_port_text(address@, port));
        match parse_socket_addr(text.as_str()) {
            Some(addr) => Ok(addr),
            None => {
                let mut e = name_bound(self.protocol_type.as_str(), " inbound '", tag);
                push_text(&mut e, " has an invalid socket address");
                Err(e)
            },
        }
    }

    /// The user name and password of this server.
    pub fn credentials(&self, tag: &str) -> (r: Result<(&str, &str), String>)
        ensures
            match r {
                Ok((u, p)) => opt_text(self.username) == Some(u@) && opt_text(self.password)
                    == Some(p@),
                Err(e) => {
                    ||| self.username is None && e@ == missing_text(self.name(tag@), "username"@)
                    ||| self.username is Some && self.password is None && e@ == missing_text(
                        self.name(tag@),
                        "password"@,
                    )
                },
            },
    {
        let bound = name_bound(self.protocol_type.as_str(), " inbound '", tag);
        required_credentials(&self.username, &self.password, bound.as_str())
    }

    /// The configured UDP mode, or the protocol's own default.
    pub fn udp_mode_or<'a>(&'a self, default: &'a str) -> (mode: &'a str)
        ensures
            mode@ == match opt_text(self.udp_mod) {
                Some(m) => m,
                None => default@,
            },
    {
        match &self.udp_mod {
            Some(m) => m.as_str(),
            None => default,
        }
    }
}

/// One way out.
#[derive(Debug, Clone)]
pub struct OutboundConfig {
    pub protocol_type: String,
    pub address: Option<String>,
    pub port: Option<u16>,
    pub connect_timeout: Option<u64>,
    pub bind_interface: Option<String>,
    pub dns: Option<String>,
    pub idle_timeout: Option<u64>,
    pub username: Option<String>,
    pub password: Option<String>,
    pub uuid: Option<String>,
    pub udp_mod: Option<String>,
    pub congestion_controller: Option<String>,
    pub pool_size: Option<u16>,
    pub gso: bool,
    pub mtu_discoveriy: bool,
    pub min_mtu: u16,
    pub initial_mtu: u16,
    pub outbounds: Option<Vec<String>>,
    pub default_outbound: Option<String>,
    pub url: Option<String>,
    pub interval: Option<u64>,
    pub tolerance: Option<u64>,
    pub prefer_ipv6: Option<bool>,
    pub cache: Option<String>,
    pub tls: Option<OutboundTlsConfig>,
    pub transport: Option<TransportConfig>,
    /// Every proxied connection gets a TLS connection of its own.
    pub disable_mux: bool,
}

/// Why an outbound has no usable endpoint.
#[derive(Debug, Clone)]
pub enum EndpointError {
    /// A setting is missing.
    Missing(String),
    /// The address and port are no target.
    Invalid(TargetTextError),
}

/// Whether an outbound has no usable endpoint for that reason.
pub open spec fn no_endpoint(cfg: OutboundConfig, tag: Seq<char>, e: EndpointError) -> bool {
    match e {
        EndpointError::Missing(text) => {
            ||| cfg.address is None && text@ == missing_text(cfg.name(tag), "address"@)
            ||| cfg.address is Some && cfg.port is None && text@ == missing_text(
                cfg.name(tag),
                "port"@,
            )
        },
        EndpointError::Invalid(e) => cfg.address is Some && cfg.port is Some && target_of_text(
            host_port_text(cfg.address->0@, cfg.port->0),
        ) == Err::<TargetView, TargetTextError>(e),
    }
}

impl OutboundConfig {
    /// How this outbound is called in complaints.
    pub open spec fn name(self, tag: Seq<char>) -> Seq<char> {
        bound_name(self.protocol_type@, " outbound '"@, tag)
    }

    /// The configured idle timeout, or 30 seconds.
    pub fn idle_timeout(&self) -> (d: Duration)
        ensures
            d == secs_or(self.idle_timeout, secs(30)),
    {
        duration_from_secs_or(self.idle_timeout, Duration::from_secs(30))
    }

    /// The configured connection timeout, or 30 seconds.
    pub fn connect_timeout(&self) -> (d: Duration)
        ensures
            d == secs_or(self.connect_timeout, secs(30)),
    {
        duration_from_secs_or(self.connect_timeout, Duration::from_secs(30))
    }

    /// The endpoint to connect to.
    pub fn endpoint(&self, tag: &str) -> (r: Result<TargetAddr, EndpointError>)
        ensures
            match r {
                Ok(t) => self.address is Some && self.port is Some && target_of_text(
                    host_port_text(self.address->0@, self.port->0),
                ) == Ok::<TargetView, TargetTextError>(t@),
                Err(e) => no_endpoint(*self, tag@, e),
            },
    {
        let bound = name_bound(self.protocol_type.as_str(), " outbound '", tag);
        let (address, port): (&str, u16) = match required_endpoint(
            &self.address,
            self.port,
            bound.as_str(),
        ) {
            Ok(pair) => pair,
            Err(e) => {
                return Err(EndpointError::Missing(e));
            },
        };
        match TargetAddr::from_str2(address, port) {
            Ok(t) => Ok(t),
            Err(e) => Err(EndpointError::Invalid(e)),
        }
    }

    /// The user name and password of this outbound.
    pub fn credentials(&self, tag: &str) -> (r: Result<(&str, &str), String>)
        ensures
            match r {
                Ok((u, p)) => opt_text(self.username) == Some(u@) && opt_text(self.password)
                    == Some(p@),
                Err(e) => {
                    ||| self.username is None && e@ == missing_text(self.name(tag@), "username"@)
                    ||| self.username is Some && self.password is None && e@ == missing_text(
                        self.name(tag@),
                        "password"@,
                    )
                },
            },
    {
        let bound = name_bound(self.protocol_type.as_str(), " outbound '", tag);
        required_credentials(&self.username, &self.password, bound.as_str())
    }

    /// The configured UDP mode, or the protocol's own default.
    pub fn udp_mode_or<'a>(&'a self, default: &'a str) -> (mode: &'a str)
        ensures
            mode@ == match opt_text(self.udp_mod) {
                Some(m) => m,
                None => default@,
            },
    {
        match &self.udp_mod {
            Some(m) => m.as_str(),
            None => default,
        }
    }
}

/// The cache of a selector.
#[derive(Debug, Clone)]
pub struct SelectorCacheConfig {
    pub enabled: bool,
    pub path: Option<String>,
}

/// A GeoIP database.
#[derive(Debug, Clone)]
pub struct GeoIpConfig {
    pub db_type: String,
    pub path: String,
    pub url: Option<String>,
    pub download_outbound: Option<String>,
    pub update_interval: Option<String>,
    pub cache: Option<String>,
}

/// A GeoIP database of the router.
#[derive(Debug, Clone)]
pub struct GeoipDBConfig {
    pub db_type: String,
    pub path: String,
    pub url: Option<String>,
    pub download_outbound: Option<String>,
    pub update_interval: Option<String>,
    pub cache: Option<String>,
}

/// A GeoIP rule set.
#[derive(Debug, Clone)]
pub struct GeoipConfig {
    pub db: String,
    pub ip_country: Vec<String>,
    pub dns: Option<String>,
    pub ttl: u64,
    pub cache: Option<String>,
}

/// What a connection carries.
#[derive(Debug, Clone, Copy, PartialEq, Eq, Structural)]
pub enum NetworkType {
    Tcp,
    Udp,
}

/// `c` in lower case, if that is an ASCII letter: the Kelvin sign is the one character outside
/// ASCII that this holds for.
pub open spec fn ascii_lower(c: char) -> char {
    if 'A' <= c <= 'Z' {
        (c as int + 32) as char
    } else if c == '\u{212A}' {
        'k'
    } else {
        c
    }
}

/// Whether two texts are the same but for the case of letters.
pub open spec fn same_ignoring_case(a: Seq<char>, b: Seq<char>) -> bool {
    a.map_values(|c: char| ascii_lower(c)) == b.map_values(|c: char| ascii_lower(c))
}

fn lower_code(c: char) -> (r: u32)
    ensures
        r == ascii_lower(c) as u32,
{
    if 'A' <= c && c <= 'Z' {
        c as u32 + 32
    } else if c == '\u{212A}' {
        107
    } else {
        c as u32
    }
}

/// Whether two texts are the same but for the case of letters.
pub fn eq_ignoring_case(a: &str, b: &str) -> (r: bool)
    ensures
        r == same_ignoring_case(a@, b@),
{
    let x = chars_of(a);
    let y = chars_of(b);
    let ghost la = a@.map_values(|c: char| ascii_lower(c));
    let ghost lb = b@.map_values(|c: char| ascii_lower(c));
    if x.len() != y.len() {
        assert(la.len() != lb.len());
        return false;
    }
    let mut i: usize = 0;
    while i < x.len()
        invariant
            x@ == a@,
            y@ == b@,
            x@.len() == y@.len(),
            i <= x@.len(),
            la == a@.map_values(|c: char| ascii_lower(c)),
            lb == b@.map_values(|c: char| ascii_lower(c)),
            forall|k: int| 0 <= k < i ==> la[k] == lb[k],
        decreases x@.len() - i,
    {
        let p: u32 = lower_code(x[i]);
        let q: u32 = lower_code(y[i]);
        assert(la[i as int] == ascii_lower(x@[i as int]));
        assert(lb[i as int] == ascii_lower(y@[i as int]));
        if p != q {
            return false;
        }
        assert(la[i as int] as u32 == lb[i as int] as u32);
        i += 1;
    }
    assert(la =~= lb);
    true
}

impl NetworkType {
    /// Reads `tcp` or `udp` in any case.
    pub fn from_str(s: &str) -> (r: Result<NetworkType, String>)
        ensures
            match r {
                Ok(NetworkType::Tcp) => same_ignoring_case(s@, "tcp"@),
                Ok(NetworkType::Udp) => !same_ignoring_case(s@, "tcp"@) && same_ignoring_case(
                    s@,
                    "udp"@,
                ),
                Err(e) => {
                    &&& !same_ignoring_case(s@, "tcp"@)
                    &&& !same_ignoring_case(s@, "udp"@)
                    &&& e@ == "Invalid network type: "@ + s@
                },
            },
    {
        if eq_ignoring_case(s, "tcp") {
            Ok(NetworkType::Tcp)
        } else if eq_ignoring_case(s, "udp") {
            Ok(NetworkType::Udp)
        } else {
            let mut e = copy_text("Invalid network type: ");
            push_text(&mut e, s);
            Err(e)
        }
    }
}

/// One routing rule.
#[derive(Debug, Clone)]
pub struct RuleConfig {
    pub mode: Option<Vec<String>>,
    pub domain: Option<Vec<String>>,
    pub domain_suffix: Option<Vec<String>>,
    pub inbounds: Option<Vec<String>>,
    pub ip_cidr: Option<Vec<String>>,
    pub port: Option<Vec<u16>>,
    pub port_range: Option<Vec<String>>,
    pub network: Option<Vec<String>>,
    pub protocol: Option<Vec<String>>,
    pub query_type: Option<Vec<String>>,
    pub outbound: Option<String>,
    pub dns: Option<String>,
    pub geoip: Option<Vec<String>>,
    pub reverse: Option<String>,
}

/// Which rules the router goes by.
#[derive(Debug, Clone, Copy, PartialEq, Eq, Structural)]
pub enum RouterMode {
    Rule,
    Proxy,
    Direct,
}

impl RouterMode {
    /// The name of the mode.
    pub fn as_str(&self) -> (name: &'static str)
        ensures
            name@ == match self {
                RouterMode::Rule => "rule"@,
                RouterMode::Proxy => "proxy"@,
                RouterMode::Direct => "direct"@,
            },
    {
        match self {
            RouterMode::Rule => "rule",
            RouterMode::Proxy => "proxy",
            RouterMode::Direct => "direct",
        }
    }

    /// The mode of a name.
    pub fn from_name(name: &str) -> (mode: Option<RouterMode>)
        ensures
            mode == if name@ == "rule"@ {
                Some(RouterMode::Rule)
            } else if name@ == "proxy"@ {
                Some(RouterMode::Proxy)
            } else if name@ == "direct"@ {
                Some(RouterMode::Direct)
            } else {
                None
            },
    {
        if str_eq(name, "rule") {
            Some(RouterMode::Rule)
        } else if str_eq(name, "proxy") {
            Some(RouterMode::Proxy)
        } else if str_eq(name, "direct") {
            Some(RouterMode::Direct)
        } else {
            None
        }
    }
}

impl Default for RouterMode {
    fn default() -> (mode: RouterMode)
        ensures
            mode == RouterMode::Rule,
    {
        RouterMode::Rule
    }
}

/// The plain JSON for a JSON5 text, as `serde_json5` reads it and `serde_json` writes it.
pub uninterp spec fn json5_plain(raw: Seq<char>) -> Seq<char>;

/// Calls `serde_json5::from_str` for a `serde_json::Value` and `serde_json::to_string` on what comes
/// back. The plain JSON is a function of the text. Of the message of an error nothing is said, nor of
/// when there is one: how deep a text may be nested before the parser gives up depends on the stack that
/// is left when it is called. A text that is nested too deep for that stack can end the process.
#[verifier::external_body]
fn plain_json(raw: &str) -> (r: Result<String, String>)
    ensures
        r matches Ok(text) ==> text@ == json5_plain(raw@),
{
    match serde_json5::from_str::<serde_json::Value>(raw) {
        Ok(value) => serde_json::to_string(&value).map_err(|e| e.to_string()),
        Err(e) => Err(e.to_string()),
    }
}

/// The name of the configuration file unless the command line gives one.
pub const DEFAULT_CONFIG_FILE: &'static str = "config.json";

/// Turns the text of a configuration file into plain JSON. `path` names the file in complaints. What
/// becomes of what the parser returns is stated by [`with_file_name`].
pub fn load(raw: &str, path: &str) -> (r: Result<String, String>)
    ensures
        r matches Ok(text) ==> text@ == json5_plain(raw@),
        r matches Err(text) ==> exists|e: Seq<char>|
            text@ == #[trigger] ("JSON5 parse error in "@ + path@ + ": "@ + e),
{
    with_file_name(plain_json(raw), path)
}

/// Names the file in the complaint about its text.
pub fn with_file_name(json: Result<String, String>, path: &str) -> (r: Result<String, String>)
    ensures
        match json {
            Ok(text) => r == Ok::<String, String>(text),
            Err(e) => r matches Err(text) && text@ == "JSON5 parse error in "@ + path@ + ": "@ + e@,
        },
{
    match json {
        Ok(text) => Ok(text),
        Err(e) => {
            let mut text = copy_text("JSON5 parse error in ");
            push_text(&mut text, path);
            push_text(&mut text, ": ");
            push_text(&mut text, e.as_str());
            Err(text)
        },
    }
}

/// Two texts are the same when they differ in the case of Latin letters alone. The sign for the
/// kelvin counts as the letter that it looks like.
pub proof fn law_same_but_for_case(a: Seq<char>, b: Seq<char>, i: int)
    ensures
        same_ignoring_case(a, a),
        same_ignoring_case(a, b) ==> same_ignoring_case(b, a),
        same_ignoring_case(a, b) ==> a.len() == b.len(),
        same_ignoring_case(a, b) && 0 <= i < a.len() && a[i] != b[i] ==> ({
            let (x, y) = (a[i] as int, b[i] as int);
            ||| 65 <= x <= 90 && y == x + 32
            ||| 65 <= y <= 90 && x == y + 32
            ||| x == 0x212A && (y == 75 || y == 107)
            ||| y == 0x212A && (x == 75 || x == 107)
        }),
        a.len() == b.len() && (forall|k: int|
            0 <= k < a.len() ==> #[trigger] a[k] == b[k] || (65 <= a[k] as int <= 90 && b[k] as int
                == a[k] as int + 32)) ==> same_ignoring_case(a, b),
{
    let low = |c: char| ascii_lower(c);
    if same_ignoring_case(a, b) {
        assert(a.map_values(low).len() == b.map_values(low).len());
        if 0 <= i < a.len() {
            assert(a.map_values(low)[i] == b.map_values(low)[i]);
            assert(a.map_values(low)[i] == ascii_lower(a[i]));
            assert(b.map_values(low)[i] == ascii_lower(b[i]));
        }
    }
    if a.len() == b.len() && (forall|k: int|
        0 <= k < a.len() ==> #[trigger] a[k] == b[k] || (65 <= a[k] as int <= 90 && b[k] as int
            == a[k] as int + 32)) {
        assert forall|k: int| 0 <= k < a.len() implies #[trigger] a.map_values(low)[k]
            == b.map_values(low)[k] by {
            assert(a[k] == b[k] || (65 <= a[k] as int <= 90 && b[k] as int == a[k] as int + 32));
        }
        assert(a.map_values(low) =~= b.map_values(low));
    }
}

/// A configured number of seconds counts, and the default where none is.
pub proof fn law_seconds_or_default(n: u64, default: Duration)
    ensures
        secs_or(Some(n), default).nanos == n * 1_000_000_000,
        secs_or(None, default) == default,
{
}

} // verus!
