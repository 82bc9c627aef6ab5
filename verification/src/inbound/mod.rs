//! Inbounds: where traffic enters the proxy.
use vstd::prelude::*;

use crate::net::SocketAddr;

pub mod tun;

verus! {

/// Where a connection or a datagram is to go.
#[derive(Debug, Clone)]
pub enum Target {
    Socket(SocketAddr),
    Domain(String, u16),
}

} // verus!
