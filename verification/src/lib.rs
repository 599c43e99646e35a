//! Protocol, routing and accounting logic of a multi-protocol QUIC proxy.
//!
//! Everything in this crate is plain computation over bytes, text and counters. Sockets,
//! clocks and task scheduling live outside and drive the state machines defined here.

pub mod api;
pub mod bootstrap;
pub mod cache;
pub mod config;
pub mod crypto;
pub mod dns;
pub mod ip;
pub mod ip_laws;
pub mod proxy;
pub mod random;
pub mod text;
pub mod time;
pub mod utils;
pub mod wire;
