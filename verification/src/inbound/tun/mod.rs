//! The inbound that takes traffic from a TUN device.
pub mod address;
pub mod address_laws;
pub mod checksum;
pub mod engine;
pub mod engine_laws;
pub mod frame;
pub mod handlers;
pub mod laws;
pub mod packet;
pub mod packet_laws;
pub mod platform;
pub mod rewrite;
pub mod session;
pub mod tcp_nat;

pub use crate::inbound::tun::engine::{TunEngine, TunInbound};
