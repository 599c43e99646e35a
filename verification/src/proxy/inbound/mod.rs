//! Server sides of the proxy protocols.

pub mod anytls;
pub mod init;
pub mod links;
pub mod live;
pub mod shadowquic;
pub mod users;
pub mod vmess;
