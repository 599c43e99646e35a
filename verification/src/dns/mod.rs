//! Name resolution: DNS messages, caching of answers, and made-up addresses.

pub mod exchange;
pub mod fakeip;
pub mod message;
pub mod resolver;
