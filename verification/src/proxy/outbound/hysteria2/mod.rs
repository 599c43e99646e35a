//! The Hysteria2 client.

pub mod http3;
pub mod qpack;
pub mod settings;
pub mod tcp;
pub mod udp;
pub mod varint;
