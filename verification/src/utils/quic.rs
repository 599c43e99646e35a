//! What a QUIC endpoint is to be set up with: transport parameters, certificates and the checks on
//! a new connection.

use crate::config::{opt_text, texts};
use crate::proxy::tls::JlsAccount;
use crate::text::{copy_text, eq_ignore_ascii_case, same_ascii};
use crate::time::{secs, Duration};
use vstd::prelude::*;

verus! {

/// The advertised limit for concurrent streams, of either kind.
pub const DEFAULT_MAX_CONCURRENT_STREAMS: u32 = 1000;

/// The server name where none is configured.
pub open spec fn default_server_name() -> Seq<char> {
    "apple.com"@
}

/// How often an idle connection is kept alive: half the idle timeout, at least every second, and
/// not at all without a timeout.
pub open spec fn keep_alive(idle_timeout: Duration) -> Option<Duration> {
    if idle_timeout.nanos == 0 {
        None
    } else if idle_timeout.nanos / 2 >= 1_000_000_000 {
        Some(Duration { nanos: idle_timeout.nanos / 2 })
    } else {
        Some(secs(1))
    }
}

/// How often an idle connection is kept alive.
pub fn keep_alive_interval_for(idle_timeout: Duration) -> (interval: Option<Duration>)
    ensures
        interval == keep_alive(idle_timeout),
{
    if idle_timeout.is_zero() {
        return None;
    }
    Some(idle_timeout.half().max(Duration::from_secs(1)))
}

/// The congestion controllers to choose from.
#[derive(Clone, Copy, Debug, PartialEq, Eq, Structural)]
pub enum Controller {
    Bbr,
    Cubic,
    NewReno,
}

/// The controller of that name, in any case; BBR for every other name and for none.
pub open spec fn controller_named(name: Option<Seq<char>>) -> Controller {
    match name {
        None => Controller::Bbr,
        Some(n) => if same_ascii(n, "bbr"@) {
            Controller::Bbr
        } else if same_ascii(n, "cubic"@) {
            Controller::Cubic
        } else if same_ascii(n, "newreno"@) {
            Controller::NewReno
        } else {
            Controller::Bbr
        },
    }
}

/// How the path MTU is searched.
#[derive(Clone, Copy, Debug, PartialEq, Eq, Structural)]
pub struct MtuDiscovery {
    pub black_hole_cooldown: Duration,
    pub interval: Duration,
}

/// The transport parameters of an endpoint.
#[derive(Clone, Copy, Debug, PartialEq, Eq, Structural)]
pub struct TransportPlan {
    pub max_idle_timeout_ms: Option<u32>,
    pub keep_alive_interval: Option<Duration>,
    pub segmentation_offload: bool,
    pub initial_mtu: u16,
    pub min_mtu: u16,
    pub max_concurrent_streams: u32,
    pub mtu_discovery: Option<MtuDiscovery>,
    pub controller: Controller,
}

/// The idle timeout in milliseconds, as far as it can be advertised.
pub open spec fn idle_millis(idle_timeout: Duration) -> Option<u32> {
    if idle_timeout.nanos == 0 {
        None
    } else if idle_timeout.nanos / 1_000_000 <= u32::MAX {
        Some((idle_timeout.nanos / 1_000_000) as u32)
    } else {
        Some(u32::MAX)
    }
}

/// The transport parameters for the given settings.
pub open spec fn transport_plan(
    idle_timeout: Duration,
    congestion_controller: Option<Seq<char>>,
    gso: bool,
    mtu_discovery: bool,
    initial_mtu: u16,
    min_mtu: u16,
) -> TransportPlan {
    TransportPlan {
        max_idle_timeout_ms: idle_millis(idle_timeout),
        keep_alive_interval: keep_alive(idle_timeout),
        segmentation_offload: gso,
        initial_mtu,
        min_mtu,
        max_concurrent_streams: DEFAULT_MAX_CONCURRENT_STREAMS,
        mtu_discovery: if mtu_discovery {
            Some(MtuDiscovery { black_hole_cooldown: secs(120), interval: secs(90) })
        } else {
            None
        },
        controller: controller_named(congestion_controller),
    }
}

/// Chooses the transport parameters for the given settings.
pub fn make_transport_config(
    idle_timeout: Duration,
    congestion_controller: Option<&str>,
    gso: bool,
    mtu_discovery: bool,
    initial_mtu: u16,
    min_mtu: u16,
) -> (plan: TransportPlan)
    ensures
        plan == transport_plan(
            idle_timeout,
            match congestion_controller {
                Some(n) => Some(n@),
                None => None,
            },
            gso,
            mtu_discovery,
            initial_mtu,
            min_mtu,
        ),
{
    let max_idle_timeout_ms: Option<u32> = if idle_timeout.is_zero() {
        None
    } else {
        let millis: u128 = idle_timeout.as_millis();
        if millis <= u32::MAX as u128 {
            Some(millis as u32)
        } else {
            Some(u32::MAX)
        }
    };
    let controller = match congestion_controller {
        None => Controller::Bbr,
        Some(name) => {
            if eq_ignore_ascii_case(name, "bbr") {
                Controller::Bbr
            } else if eq_ignore_ascii_case(name, "cubic") {
                Controller::Cubic
            } else if eq_ignore_ascii_case(name, "newreno") {
                Controller::NewReno
            } else {
                Controller::Bbr
            }
        },
    };
    TransportPlan {
        max_idle_timeout_ms,
        keep_alive_interval: keep_alive_interval_for(idle_timeout),
        segmentation_offload: gso,
        initial_mtu,
        min_mtu,
        max_concurrent_streams: DEFAULT_MAX_CONCURRENT_STREAMS,
        mtu_discovery: if mtu_discovery {
            Some(
                MtuDiscovery {
                    black_hole_cooldown: Duration::from_secs(120),
                    interval: Duration::from_secs(90),
                },
            )
        } else {
            None
        },
        controller,
    }
}

/// The keep-alive interval is shorter than an idle timeout of more than a second, so that a kept
/// connection does not idle out.
pub proof fn law_kept_connections_do_not_idle_out(idle_timeout: Duration)
    requires
        idle_timeout.nanos > 1_000_000_000,
    ensures
        keep_alive(idle_timeout) matches Some(d) && d.nanos < idle_timeout.nanos,
{
}

/// Where a server has its certificate from.
#[derive(Debug)]
pub enum ServerCertificate {
    /// The handshake runs on the JLS account; the certificate is a throwaway one.
    Jls {
        account: JlsAccount,
        alpn: Vec<String>,
        max_early_data_size: u32,
        send_half_rtt_data: bool,
    },
    /// From a certificate file and a key file.
    Files { cert: String, key: String },
    /// A throwaway certificate.
    SelfSigned,
}

/// What a QUIC server is set up with.
#[derive(Debug)]
pub struct ServerPlan {
    pub certificate: ServerCertificate,
    pub transport: TransportPlan,
}

fn list_or_empty(list: Option<Vec<String>>) -> (out: Vec<String>)
    ensures
        texts(out@) == list_of(list),
{
    match list {
        Some(v) => v,
        None => {
            let out: Vec<String> = Vec::new();
            assert(texts(out@) =~= Seq::<Seq<char>>::empty());
            out
        },
    }
}

/// The texts of an optional list; none without a list.
pub open spec fn list_of(list: Option<Vec<String>>) -> Seq<Seq<char>> {
    match list {
        Some(v) => texts(v@),
        None => Seq::empty(),
    }
}

/// The server name to use.
pub open spec fn server_name_or_default(sni: Option<Seq<char>>) -> Seq<char> {
    match sni {
        Some(name) => name,
        None => default_server_name(),
    }
}

/// Decides what a QUIC server is set up with. With JLS the certificate files are not looked at;
/// without it a server without both files makes its own certificate.
pub fn server_plan(
    idle_timeout: Duration,
    cert_path: Option<&str>,
    key_path: Option<&str>,
    congestion_controller: Option<&str>,
    sni: Option<&str>,
    alpn: Option<Vec<String>>,
    zero_rtt: bool,
    jls_username: String,
    jls_password: String,
    is_jls: bool,
    gso: bool,
    mtu_discovery: bool,
    initial_mtu: u16,
    min_mtu: u16,
) -> (plan: ServerPlan)
    ensures
        plan.transport == transport_plan(
            idle_timeout,
            match congestion_controller {
                Some(n) => Some(n@),
                None => None,
            },
            gso,
            mtu_discovery,
            initial_mtu,
            min_mtu,
        ),
        match plan.certificate {
            ServerCertificate::Jls { account, alpn: names, max_early_data_size, send_half_rtt_data }
                => {
                &&& is_jls
                &&& account.username@ == jls_username@
                &&& account.password@ == jls_password@
                &&& opt_text(account.server_name) == Some(
                    server_name_or_default(
                        match sni {
                            Some(n) => Some(n@),
                            None => None,
                        },
                    ),
                )
                &&& texts(names@) == list_of(alpn)
                &&& max_early_data_size == if zero_rtt {
                    u32::MAX
                } else {
                    0u32
                }
                &&& send_half_rtt_data == zero_rtt
            },
            ServerCertificate::Files { cert, key } => !is_jls && cert_path is Some && key_path
                is Some && cert@ == cert_path->0@ && key@ == key_path->0@,
            ServerCertificate::SelfSigned => !is_jls && (cert_path is None || key_path is None),
        },
{
    let transport = make_transport_config(
        idle_timeout,
        congestion_controller,
        gso,
        mtu_discovery,
        initial_mtu,
        min_mtu,
    );
    let certificate = if is_jls {
        let server_name = match sni {
            Some(name) => copy_text(name),
            None => copy_text("apple.com"),
        };
        ServerCertificate::Jls {
            account: JlsAccount {
                username: jls_username,
                password: jls_password,
                server_name: Some(server_name),
            },
            alpn: list_or_empty(alpn),
            max_early_data_size: if zero_rtt {
                u32::MAX
            } else {
                0
            },
            send_half_rtt_data: zero_rtt,
        }
    } else {
        match (cert_path, key_path) {
            (Some(cert), Some(key)) => ServerCertificate::Files {
                cert: copy_text(cert),
                key: copy_text(key),
            },
            _ => ServerCertificate::SelfSigned,
        }
    };
    ServerPlan { certificate, transport }
}

/// Whom a client trusts.
#[derive(Debug)]
pub enum ClientTrust {
    /// Whoever shares the JLS account.
    Jls { username: String, password: String },
    /// The well-known authorities, and those in a file of one's own.
    Authorities { ca: Option<String> },
    /// Anybody.
    Anybody,
}

/// What a QUIC client is set up with.
#[derive(Debug)]
pub struct ClientPlan {
    pub trust: ClientTrust,
    pub early_data: bool,
    pub alpn: Vec<String>,
    pub transport: TransportPlan,
    pub server_name: String,
}

/// Decides what a QUIC client is set up with, and which server it asks for.
pub fn build_client_config(
    idle_timeout: Duration,
    verify_peer: bool,
    zero_rtt: bool,
    ca_cert_path: Option<String>,
    sni: Option<String>,
    alpn: Option<Vec<String>>,
    congestion_controller: Option<&str>,
    username: String,
    password: String,
    is_jls: bool,
    gso: bool,
    mtu_discovery: bool,
    initial_mtu: u16,
    min_mtu: u16,
) -> (plan: ClientPlan)
    ensures
        plan.transport == transport_plan(
            idle_timeout,
            match congestion_controller {
                Some(n) => Some(n@),
                None => None,
            },
            gso,
            mtu_discovery,
            initial_mtu,
            min_mtu,
        ),
        plan.early_data == zero_rtt,
        texts(plan.alpn@) == list_of(alpn),
        plan.server_name@ == server_name_or_default(opt_text(sni)),
        match plan.trust {
            ClientTrust::Jls { username: u, password: p } => is_jls && u@ == username@ && p@
                == password@,
            ClientTrust::Authorities { ca } => !is_jls && verify_peer && opt_text(ca) == opt_text(
                ca_cert_path,
            ),
            ClientTrust::Anybody => !is_jls && !verify_peer,
        },
{
    let transport = make_transport_config(
        idle_timeout,
        congestion_controller,
        gso,
        mtu_discovery,
        initial_mtu,
        min_mtu,
    );
    let server_name = match sni {
        Some(name) => name,
        None => copy_text("apple.com"),
    };
    let trust = if is_jls {
        ClientTrust::Jls { username, password }
    } else if verify_peer {
        ClientTrust::Authorities { ca: ca_cert_path }
    } else {
        ClientTrust::Anybody
    };
    ClientPlan { trust, early_data: zero_rtt, alpn: list_or_empty(alpn), transport, server_name }
}

/// The peer did not prove that it knows the JLS account.
#[derive(Clone, Copy, Debug, PartialEq, Eq, Structural)]
pub struct JlsHijacked;

/// Refuses a connection that was to run JLS where the handshake found that the peer does not.
/// `state` is what the handshake found, once it did.
pub fn check_connection(is_jls: bool, state: Option<bool>) -> (r: Result<(), JlsHijacked>)
    ensures
        r is Err <==> is_jls && state == Some(false),
{
    match state {
        Some(false) if is_jls => Err(JlsHijacked),
        _ => Ok(()),
    }
}

/// The certificates that `rustls_pemfile` finds in a PEM file, or `None` for a broken file.
pub uninterp spec fn pem_certs(pem: Seq<u8>) -> Option<Seq<Seq<u8>>>;

/// The first private key that `rustls_pemfile` finds in a PEM file, `Some(None)` where the file
/// holds none, or `None` for a broken file.
pub uninterp spec fn pem_key(pem: Seq<u8>) -> Option<Option<Seq<u8>>>;

/// The values of an optional list of byte strings.
pub open spec fn opt_byte_lists(v: Option<Vec<Vec<u8>>>) -> Option<Seq<Seq<u8>>> {
    match v {
        Some(list) => Some(crate::crypto::byte_lists(list@)),
        None => None,
    }
}

/// Calls `rustls_pemfile::certs`: the certificates of a PEM file, a function of its bytes, or
/// nothing for a file with a broken section.
#[verifier::external_body]
fn certs_in(pem: &[u8]) -> (certs: Option<Vec<Vec<u8>>>)
    ensures
        opt_byte_lists(certs) == pem_certs(pem@),
{
    let mut reader = pem;
    let certs: Result<Vec<Vec<u8>>, std::io::Error> = rustls_pemfile::certs(&mut reader)
        .map(|cert| cert.map(|der| der.to_vec()))
        .collect();
    certs.ok()
}

/// The value of a key that was looked for.
pub open spec fn key_view(key: Option<Option<Vec<u8>>>) -> Option<Option<Seq<u8>>> {
    match key {
        Some(Some(der)) => Some(Some(der@)),
        Some(None) => Some(None),
        None => None,
    }
}

/// Calls `rustls_pemfile::private_key`: the first private key of a PEM file, a function of its
/// bytes, or nothing for a file with a broken section.
#[verifier::external_body]
fn key_in(pem: &[u8]) -> (key: Option<Option<Vec<u8>>>)
    ensures
        key_view(key) == pem_key(pem@),
{
    let mut reader = pem;
    let key = rustls_pemfile::private_key(&mut reader);
    key.ok().map(|found| found.map(|der| der.secret_der().to_vec()))
}

/// Why a PEM file is of no use.
#[derive(Clone, Copy, Debug, PartialEq, Eq, Structural)]
pub enum PemError {
    Broken,
    NoPrivateKey,
}

/// Reads the certificates of a PEM file.
pub fn load_certs(pem: &[u8]) -> (r: Result<Vec<Vec<u8>>, PemError>)
    ensures
        match r {
            Ok(certs) => pem_certs(pem@) == Some(crate::crypto::byte_lists(certs@)),
            Err(e) => e == PemError::Broken && pem_certs(pem@) is None,
        },
{
    match certs_in(pem) {
        Some(certs) => Ok(certs),
        None => Err(PemError::Broken),
    }
}

/// What a search for a private key comes to.
pub fn found_key(key: Option<Option<Vec<u8>>>) -> (r: Result<Vec<u8>, PemError>)
    ensures
        match key {
            None => r == Err::<Vec<u8>, PemError>(PemError::Broken),
            Some(None) => r == Err::<Vec<u8>, PemError>(PemError::NoPrivateKey),
            Some(Some(der)) => r matches Ok(k) && k@ == der@,
        },
{
    match key {
        None => Err(PemError::Broken),
        Some(None) => Err(PemError::NoPrivateKey),
        Some(Some(der)) => Ok(der),
    }
}

/// Reads the private key of a PEM file.
pub fn load_keys(pem: &[u8]) -> (r: Result<Vec<u8>, PemError>)
    ensures
        match pem_key(pem@) {
            None => r == Err::<Vec<u8>, PemError>(PemError::Broken),
            Some(None) => r == Err::<Vec<u8>, PemError>(PemError::NoPrivateKey),
            Some(Some(der)) => r matches Ok(k) && k@ == der,
        },
{
    found_key(key_in(pem))
}

/// A connection that may idle is kept alive at half of its idle time, but not more often than once a
/// second; one that never idles out needs no keeping.
pub proof fn law_keep_alive(idle_timeout: Duration)
    ensures
        keep_alive(Duration { nanos: 0 }) is None,
        idle_timeout.nanos >= 2_000_000_000 ==> (keep_alive(idle_timeout) matches Some(d) && d.nanos
            == idle_timeout.nanos / 2),
        0 < idle_timeout.nanos < 2_000_000_000 ==> (keep_alive(idle_timeout) matches Some(d) && d.nanos
            == 1_000_000_000),
{
}

/// The idle time in milliseconds, as far as four bytes hold it; none where connections do not idle out.
pub proof fn law_idle_milliseconds(ms: u32, idle_timeout: Duration)
    ensures
        idle_millis(Duration { nanos: 0 }) is None,
        ms > 0 ==> idle_millis(Duration { nanos: (ms * 1_000_000) as u128 }) == Some(ms),
        idle_timeout.nanos >= 0x1_0000_0000 * 1_000_000 ==> idle_millis(idle_timeout) == Some(
            0xffff_ffffu32,
        ),
{
}

/// Congestion controllers by name, in any case; without a name, or with an unknown one, it is BBR.
pub proof fn law_controllers_by_name(name: Seq<char>)
    ensures
        controller_named(None) == Controller::Bbr,
        same_ascii(name, "cubic"@) ==> controller_named(Some(name)) == Controller::Cubic,
        same_ascii(name, "newreno"@) ==> controller_named(Some(name)) == Controller::NewReno,
        !same_ascii(name, "cubic"@) && !same_ascii(name, "newreno"@) ==> controller_named(Some(name))
            == Controller::Bbr,
{
    reveal_strlit("bbr");
    reveal_strlit("cubic");
    reveal_strlit("newreno");
}

/// The transport has the settings that it was asked for, and a thousand streams.
pub proof fn law_transport_settings(
    idle_timeout: Duration,
    congestion_controller: Option<Seq<char>>,
    gso: bool,
    mtu_discovery: bool,
    initial_mtu: u16,
    min_mtu: u16,
)
    ensures
        ({
            let plan = transport_plan(
                idle_timeout,
                congestion_controller,
                gso,
                mtu_discovery,
                initial_mtu,
                min_mtu,
            );
            &&& plan.segmentation_offload == gso
            &&& plan.initial_mtu == initial_mtu
            &&& plan.min_mtu == min_mtu
            &&& plan.mtu_discovery is Some == mtu_discovery
            &&& plan.max_concurrent_streams == 1000
            &&& plan.controller == controller_named(congestion_controller)
            &&& plan.keep_alive_interval == keep_alive(idle_timeout)
            &&& plan.max_idle_timeout_ms == idle_millis(idle_timeout)
        }),
{
}

/// A server is asked for by its configured name, or else by a common one.
pub proof fn law_names_of_servers(name: Seq<char>)
    ensures
        server_name_or_default(Some(name)) == name,
        server_name_or_default(None) == "apple.com"@,
{
}

} // verus!
