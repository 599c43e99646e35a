//! The interfaces that other programs control the proxy through.

pub mod common;
pub mod core_api;
pub mod core_manager;
pub mod management;
pub mod static_files;
