//! Verified core of the Reflex proxy.

pub mod assoc;
pub mod buf;
pub mod config;
pub mod headers;
pub mod inbound;
pub mod net;
pub mod net_laws;
pub mod octets;
pub mod outbound;
pub mod provider;
pub mod text;
