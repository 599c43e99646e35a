//! Plans for the platform and transport layers.

pub mod interface;
pub mod keyed_notify;
pub mod logging;
pub mod os;
pub mod quic;
pub mod sort;
pub mod system_proxy;
pub mod table;
