//! Proxy protocols, routing and accounting.

pub mod addr;
pub mod anytls_proto;
pub mod connections;
pub mod credentials;
pub mod geoip_db;
pub mod inbound;
pub mod ledger;
pub mod observe;
pub mod outbound;
pub mod router;
pub mod session;
pub mod shadowquic_udp;
pub mod statistics;
pub mod stats;
pub mod stream;
pub mod tls;

pub use addr::{IpAddr, SocketAddr, SourceAddr, TargetAddr};
pub use session::SessionCloser;
pub use tls::TlsConfig;
