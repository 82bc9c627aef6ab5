//! Configuration of the inbounds.
use vstd::prelude::*;

verus! {

/// Configuration of the TUN inbound.
#[derive(Debug)]
pub struct TunInboundConfig {
    /// The name by which rules refer to the inbound.
    pub tag: String,
    /// The name of the interface, where it is to have a certain one.
    pub interface_name: Option<String>,
    /// Addresses of the interface, with prefix lengths.
    pub address: Vec<String>,
    pub mtu: u32,
    /// Whether to route the traffic of the system through the interface.
    pub auto_route: bool,
    /// Whether to keep traffic from leaving past the interface.
    pub strict_route: bool,
    /// Seconds after which an idle session ends; zero stands for the default.
    pub udp_timeout: u64,
    /// The routing table that holds the routes through the interface.
    pub iproute2_table_index: u32,
    /// The priority of the first routing rule.
    pub iproute2_rule_index: u32,
    /// Interfaces whose traffic is routed; where there are none, all are.
    pub include_interface: Vec<String>,
    /// Interfaces whose traffic is not routed.
    pub exclude_interface: Vec<String>,
    /// Users whose traffic is routed; where there are none, all are.
    pub include_uid: Vec<u32>,
    /// Users whose traffic is not routed.
    pub exclude_uid: Vec<u32>,
}

} // verus!
