//! Configuration of the outbounds.
use vstd::prelude::*;

use crate::headers::HeaderMap;

verus! {

/// TLS of an outbound.
#[derive(Debug)]
pub struct TlsConfig {
    pub enabled: bool,
    pub server_name: Option<String>,
    /// Whether any certificate will do.
    pub insecure: bool,
    pub ca_path: Option<String>,
    pub alpn: Vec<String>,
    pub min_version: Option<String>,
    pub max_version: Option<String>,
}

/// REALITY of a VLESS outbound.
#[derive(Debug)]
pub struct RealityConfig {
    pub enabled: bool,
    pub public_key: String,
    pub short_id: String,
}

/// TLS of a VLESS outbound.
#[derive(Debug)]
pub struct VlessTlsConfig {
    pub enabled: bool,
    pub server_name: Option<String>,
    /// Whether any certificate will do.
    pub insecure: bool,
    pub ca_path: Option<String>,
    pub alpn: Vec<String>,
    pub reality: Option<RealityConfig>,
}

/// The WebSocket transport.
#[derive(Debug)]
pub struct WsTransportConfig {
    pub path: String,
    pub headers: HeaderMap,
    pub early_data_header_name: Option<String>,
    pub max_early_data: u32,
}

/// The plain TCP transport.
#[derive(Debug)]
pub struct TcpTransportConfig {}

/// The XHTTP transport.
#[derive(Debug)]
pub struct XhttpTransportConfig {
    pub host: Option<String>,
    pub path: Option<String>,
    /// `stream-one`, `stream-up` or `packet-up`.
    pub mode: Option<String>,
    pub headers: HeaderMap,
    /// The most octets in one upload of the mode `packet-up`.
    pub sc_max_each_post_bytes: Option<u32>,
    /// The least milliseconds between two uploads of the mode `packet-up`.
    pub sc_min_posts_interval_ms: Option<u64>,
    pub uplink_http_method: Option<String>,
}

/// How a VMess outbound reaches its server.
#[derive(Debug)]
pub enum VmessTransportConfig {
    Tcp,
    Ws(WsTransportConfig),
}

/// How a VLESS outbound reaches its server.
#[derive(Debug)]
pub enum VlessTransportConfig {
    Ws(WsTransportConfig),
}

/// How a Trojan outbound reaches its server.
#[derive(Debug)]
pub enum TrojanTransportConfig {
    Tcp(TcpTransportConfig),
    Ws(WsTransportConfig),
}

/// A VMess outbound.
#[derive(Debug)]
pub struct VmessOutboundConfig {
    pub tag: String,
    pub server: String,
    pub server_port: u16,
    pub uuid: String,
    pub security: String,
    pub transport: VmessTransportConfig,
    pub tls: TlsConfig,
    pub detour: Option<String>,
}

/// A VLESS outbound.
#[derive(Debug)]
pub struct VlessOutboundConfig {
    pub tag: String,
    pub server: String,
    pub server_port: u16,
    pub uuid: String,
    pub transport: Option<VlessTransportConfig>,
    pub tls: Option<VlessTlsConfig>,
    pub detour: Option<String>,
}

/// A Trojan outbound.
#[derive(Debug)]
pub struct TrojanOutboundConfig {
    pub tag: String,
    pub server: String,
    pub server_port: u16,
    pub password: String,
    pub transport: Option<TrojanTransportConfig>,
    pub tls: TlsConfig,
    pub detour: Option<String>,
}

/// A Hysteria 2 outbound.
#[derive(Debug)]
pub struct Hysteria2OutboundConfig {
    pub tag: String,
    pub server: String,
    pub server_port: u16,
    pub password: String,
    pub tls: TlsConfig,
    pub up_mbps: u64,
    pub down_mbps: u64,
    pub detour: Option<String>,
}

/// A TUIC outbound.
#[derive(Debug)]
pub struct TuicOutboundConfig {
    pub tag: String,
    pub server: String,
    pub server_port: u16,
    pub uuid: String,
    pub password: String,
    pub congestion_control: String,
    pub udp_relay_mode: String,
    pub tls: TlsConfig,
    pub heartbeat: Option<String>,
    pub zero_rtt_handshake: bool,
    pub detour: Option<String>,
}

/// An outbound.
#[derive(Debug)]
pub enum OutboundConfig {
    Vmess(VmessOutboundConfig),
    Vless(VlessOutboundConfig),
    Trojan(TrojanOutboundConfig),
    Hysteria2(Hysteria2OutboundConfig),
    Tuic(TuicOutboundConfig),
}

} // verus!
