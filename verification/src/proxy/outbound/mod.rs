//! Ways out: the protocols that connections leave by.

pub mod check;
pub mod conn;
pub mod hysteria2;
pub mod selector;
pub mod shadowquic;
pub mod transport;
