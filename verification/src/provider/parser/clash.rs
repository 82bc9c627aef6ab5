//! The subscription format of Clash.
//!
//! The entries of the list `proxies` become outbounds. Of the types, `vmess`, `vless`, `trojan`,
//! `hysteria2` and `tuic` are supported; entries of other types, and entries that lack what their
//! type needs, are passed over.
use vstd::prelude::*;

use crate::config::outbound::{
    Hysteria2OutboundConfig, OutboundConfig, RealityConfig, TlsConfig, TrojanOutboundConfig,
    TrojanTransportConfig, TuicOutboundConfig, VlessOutboundConfig, VlessTlsConfig,
    VlessTransportConfig, VmessOutboundConfig, VmessTransportConfig, WsTransportConfig,
};
use crate::headers::HeaderMap;
use crate::text::{
    chars_of, decimal, digit_value, is_white_space, law_numeral_reads_back, lemma_numeral_chars,
    parse_unsigned, str_eq, unsigned_value, white_space,
};

verus! {

/// A subscription.
#[derive(Debug)]
pub struct ClashDoc {
    pub proxies: Vec<ClashProxy>,
}

/// An entry of a subscription.
#[derive(Debug)]
pub struct ClashProxy {
    pub name: String,
    pub proxy_type: String,
    pub server: String,
    pub port: u16,
    pub cipher: Option<String>,
    pub password: Option<String>,
    pub uuid: Option<String>,
    pub alter_id: Option<u32>,
    pub flow: Option<String>,
    pub tls: Option<bool>,
    pub skip_cert_verify: bool,
    pub sni: Option<String>,
    pub alpn: Option<Vec<String>>,
    pub network: Option<String>,
    pub ws_opts: Option<ClashWsOpts>,
    pub up: Option<String>,
    pub down: Option<String>,
    pub congestion_controller: Option<String>,
    pub udp_relay_mode: Option<String>,
    pub reality_opts: Option<ClashRealityOpts>,
}

/// The WebSocket options of an entry.
#[derive(Debug)]
pub struct ClashWsOpts {
    pub path: Option<String>,
    pub headers: Option<HeaderMap>,
    pub early_data_header_name: Option<String>,
    pub max_early_data: Option<u32>,
}

/// The REALITY options of an entry.
#[derive(Debug)]
pub struct ClashRealityOpts {
    pub public_key: String,
    pub short_id: String,
}

/// The types of entries that are supported.
#[derive(Debug, Clone, Copy, PartialEq, Eq, Structural)]
pub enum ProxyKind {
    Vmess,
    Vless,
    Trojan,
    Hysteria2,
    Tuic,
}

/// Why a subscription or an entry cannot be used.
#[derive(Debug)]
pub enum ClashError {
    /// The text is no subscription.
    Yaml(String),
    /// The type of an entry is not known.
    UnsupportedType(String),
    /// An entry with this name is of type Shadowsocks.
    Shadowsocks(String),
    /// An entry lacks its UUID.
    MissingUuid(ProxyKind),
    /// An entry lacks its password.
    MissingPassword(ProxyKind),
}

impl ProxyKind {
    /// The name of the type.
    pub open spec fn spec_name(self) -> Seq<char> {
        match self {
            ProxyKind::Vmess => "vmess"@,
            ProxyKind::Vless => "vless"@,
            ProxyKind::Trojan => "trojan"@,
            ProxyKind::Hysteria2 => "hysteria2"@,
            ProxyKind::Tuic => "tuic"@,
        }
    }

    /// The name of the type.
    pub fn name(self) -> (r: &'static str)
        ensures
            r@ == self.spec_name(),
    {
        match self {
            ProxyKind::Vmess => "vmess",
            ProxyKind::Vless => "vless",
            ProxyKind::Trojan => "trojan",
            ProxyKind::Hysteria2 => "hysteria2",
            ProxyKind::Tuic => "tuic",
        }
    }
}

impl ClashError {
    /// The error in words.
    pub open spec fn spec_message(self) -> Seq<char> {
        match self {
            ClashError::Yaml(e) => "clash yaml parse error: "@ + e@,
            ClashError::UnsupportedType(t) => "unsupported proxy type: '"@ + t@ + "'"@,
            ClashError::Shadowsocks(n) => "shadowsocks is not yet supported in Reflex (node: "@ + n@
                + ")"@,
            ClashError::MissingUuid(k) => k.spec_name() + ": missing uuid"@,
            ClashError::MissingPassword(k) => k.spec_name() + ": missing password"@,
        }
    }

    /// The error in words.
    pub fn message(&self) -> (r: String)
        ensures
            r@ == self.spec_message(),
    {
        match self {
            ClashError::Yaml(e) => {
                let mut out = "clash yaml parse error: ".to_owned();
                out.append(e.as_str());
                out
            },
            ClashError::UnsupportedType(t) => {
                let mut out = "unsupported proxy type: '".to_owned();
                out.append(t.as_str());
                out.append("'");
                out
            },
            ClashError::Shadowsocks(n) => {
                let mut out = "shadowsocks is not yet supported in Reflex (node: ".to_owned();
                out.append(n.as_str());
                out.append(")");
                out
            },
            ClashError::MissingUuid(k) => {
                let mut out = k.name().to_owned();
                out.append(": missing uuid");
                out
            },
            ClashError::MissingPassword(k) => {
                let mut out = k.name().to_owned();
                out.append(": missing password");
                out
            },
        }
    }
}

/// Whether a string is the given one, or, where it is not there, the given default.
pub open spec fn text_or(s: String, given: Option<String>, default: Seq<char>) -> bool {
    match given {
        Some(g) => s@ == g@,
        None => s@ == default,
    }
}

/// Whether TLS is as the options of an entry say.
pub open spec fn is_tls(
    c: TlsConfig,
    enabled: bool,
    insecure: bool,
    sni: Option<String>,
    alpn: Option<Vec<String>>,
) -> bool {
    &&& c.enabled == enabled
    &&& c.server_name == sni
    &&& c.insecure == insecure
    &&& c.ca_path is None
    &&& alpn_or_none(c.alpn, alpn)
    &&& c.min_version is None
    &&& c.max_version is None
}

/// Whether a list of protocols is the given one, or empty where none is given.
pub open spec fn alpn_or_none(v: Vec<String>, alpn: Option<Vec<String>>) -> bool {
    match alpn {
        Some(a) => v == a,
        None => v@.len() == 0,
    }
}

/// Whether a WebSocket transport is as the options of an entry say: the path is `/` and there are
/// no headers where they say nothing.
pub open spec fn is_ws(c: WsTransportConfig, opts: Option<ClashWsOpts>) -> bool {
    match opts {
        Some(o) => {
            &&& text_or(c.path, o.path, "/"@)
            &&& c.headers@ == match o.headers {
                Some(h) => h@,
                None => Map::<Seq<char>, Seq<char>>::empty(),
            }
            &&& c.early_data_header_name == o.early_data_header_name
            &&& c.max_early_data == match o.max_early_data {
                Some(n) => n,
                None => 0,
            }
        },
        None => {
            &&& c.path@ == "/"@
            &&& c.headers@ == Map::<Seq<char>, Seq<char>>::empty()
            &&& c.early_data_header_name is None
            &&& c.max_early_data == 0
        },
    }
}

/// Whether an entry goes over WebSocket.
pub open spec fn wants_ws(p: ClashProxy) -> bool {
    p.network matches Some(n) && n@ == "ws"@
}

/// A flag, or a default where it is not there.
pub open spec fn flag_or(b: Option<bool>, default: bool) -> bool {
    match b {
        Some(v) => v,
        None => default,
    }
}

/// Whether this is the VMess outbound of an entry.
pub open spec fn is_vmess(c: OutboundConfig, tag: Seq<char>, p: ClashProxy) -> bool {
    c matches OutboundConfig::Vmess(v) && {
        &&& v.tag@ == tag
        &&& v.server == p.server
        &&& v.server_port == p.port
        &&& p.uuid == Some(v.uuid)
        &&& text_or(v.security, p.cipher, "auto"@)
        &&& match v.transport {
            VmessTransportConfig::Ws(ws) => wants_ws(p) && is_ws(ws, p.ws_opts),
            VmessTransportConfig::Tcp => !wants_ws(p),
        }
        &&& is_tls(v.tls, flag_or(p.tls, false), p.skip_cert_verify, p.sni, p.alpn)
        &&& v.detour is None
    }
}

/// Whether this is the VLESS outbound of an entry.
pub open spec fn is_vless(c: OutboundConfig, tag: Seq<char>, p: ClashProxy) -> bool {
    c matches OutboundConfig::Vless(v) && {
        &&& v.tag@ == tag
        &&& v.server == p.server
        &&& v.server_port == p.port
        &&& p.uuid == Some(v.uuid)
        &&& match v.transport {
            Some(VlessTransportConfig::Ws(ws)) => wants_ws(p) && is_ws(ws, p.ws_opts),
            None => !wants_ws(p),
        }
        &&& match v.tls {
            Some(t) => {
                &&& flag_or(p.tls, false)
                &&& t.enabled
                &&& t.server_name == p.sni
                &&& t.insecure == p.skip_cert_verify
                &&& t.ca_path is None
                &&& alpn_or_none(t.alpn, p.alpn)
                &&& match (t.reality, p.reality_opts) {
                    (Some(r), Some(o)) => r.enabled && r.public_key == o.public_key && r.short_id
                        == o.short_id,
                    (None, None) => true,
                    _ => false,
                }
            },
            None => !flag_or(p.tls, false),
        }
        &&& v.detour is None
    }
}

/// Whether this is the Trojan outbound of an entry.
pub open spec fn is_trojan(c: OutboundConfig, tag: Seq<char>, p: ClashProxy) -> bool {
    c matches OutboundConfig::Trojan(v) && {
        &&& v.tag@ == tag
        &&& v.server == p.server
        &&& v.server_port == p.port
        &&& p.password == Some(v.password)
        &&& match v.transport {
            Some(TrojanTransportConfig::Ws(ws)) => wants_ws(p) && is_ws(ws, p.ws_opts),
            Some(TrojanTransportConfig::Tcp(_)) => false,
            None => !wants_ws(p),
        }
        &&& is_tls(v.tls, flag_or(p.tls, true), p.skip_cert_verify, p.sni, p.alpn)
        &&& v.detour is None
    }
}

/// The first run of characters that are not white space.
pub open spec fn first_word(s: Seq<char>) -> Seq<char>
    decreases s.len(),
{
    if s.len() == 0 {
        Seq::empty()
    } else if white_space(s[0]) {
        first_word(s.skip(1))
    } else {
        word_prefix(s)
    }
}

/// The characters up to the first that is white space.
pub open spec fn word_prefix(s: Seq<char>) -> Seq<char>
    decreases s.len(),
{
    if s.len() == 0 || white_space(s[0]) {
        Seq::empty()
    } else {
        seq![s[0]] + word_prefix(s.skip(1))
    }
}

/// The number that a rate such as `100 mbps` or `100` starts with.
pub open spec fn mbps_value(s: Seq<char>) -> Option<nat> {
    unsigned_value(first_word(s), u64::MAX as nat)
}

/// What stands before white space, or before the end, is a word.
proof fn lemma_word(a: Seq<char>, rest: Seq<char>)
    requires
        forall|i: int| 0 <= i < a.len() ==> !white_space(#[trigger] a[i]),
        rest.len() > 0 ==> white_space(rest[0]),
    ensures
        word_prefix(a + rest) == a,
    decreases a.len(),
{
    let s = a + rest;
    if a.len() == 0 {
        assert(s =~= rest);
        assert(a =~= Seq::<char>::empty());
    } else {
        assert(s[0] == a[0]);
        assert(s.skip(1) =~= a.skip(1) + rest);
        assert forall|i: int| 0 <= i < a.skip(1).len() implies !white_space(
            #[trigger] a.skip(1)[i],
        ) by {
            assert(a.skip(1)[i] == a[i + 1]);
        }
        lemma_word(a.skip(1), rest);
        assert(seq![a[0]] + a.skip(1) =~= a);
    }
}

/// A number is read as a rate, alone or with a unit after it.
pub proof fn law_rate_reads_back(n: u64, unit: Seq<char>)
    requires
        unit.len() > 0 ==> white_space(unit[0]),
    ensures
        mbps_value(decimal(n as nat) + unit) == Some(n as nat),
{
    let d = decimal(n as nat);
    let s = d + unit;
    law_numeral_reads_back(n as nat, 10);
    lemma_numeral_chars(n as nat, 10, '+');
    assert forall|i: int| 0 <= i < d.len() implies !white_space(#[trigger] d[i]) by {
        assert(digit_value(d[i], 10) is Some);
    }
    lemma_word(d, unit);
    assert(s[0] == d[0]);
    assert(first_word(s) == d);
}

/// What is read of a rate is its first word: white space before it and whatever follows white
/// space after it make no difference, and a text of white space is no rate.
pub proof fn law_rate_is_the_first_word(lead: Seq<char>, word: Seq<char>, rest: Seq<char>)
    requires
        forall|i: int| 0 <= i < lead.len() ==> white_space(#[trigger] lead[i]),
        forall|i: int| 0 <= i < word.len() ==> !white_space(#[trigger] word[i]),
        rest.len() > 0 ==> white_space(rest[0]),
        word.len() == 0 ==> rest.len() == 0,
    ensures
        mbps_value(lead + word + rest) == unsigned_value(word, u64::MAX as nat),
    decreases lead.len(),
{
    let s = lead + word + rest;
    if lead.len() > 0 {
        assert(s[0] == lead[0]);
        assert(s.skip(1) =~= lead.skip(1) + word + rest);
        assert forall|i: int| 0 <= i < lead.skip(1).len() implies white_space(
            #[trigger] lead.skip(1)[i],
        ) by {
            assert(lead.skip(1)[i] == lead[i + 1]);
        }
        law_rate_is_the_first_word(lead.skip(1), word, rest);
    } else {
        assert(s =~= word + rest);
        lemma_word(word, rest);
        if word.len() > 0 {
            assert(s[0] == word[0]);
        } else {
            assert(word =~= Seq::<char>::empty());
        }
    }
}

/// The rate that an entry gives, or zero.
pub open spec fn rate_or_zero(s: Option<String>) -> nat {
    match s {
        Some(t) => match mbps_value(t@) {
            Some(v) => v,
            None => 0,
        },
        None => 0,
    }
}

/// Whether this is the Hysteria 2 outbound of an entry.
pub open spec fn is_hysteria2(c: OutboundConfig, tag: Seq<char>, p: ClashProxy) -> bool {
    c matches OutboundConfig::Hysteria2(v) && {
        &&& v.tag@ == tag
        &&& v.server == p.server
        &&& v.server_port == p.port
        &&& p.password == Some(v.password)
        &&& is_tls(v.tls, true, p.skip_cert_verify, p.sni, p.alpn)
        &&& v.up_mbps == rate_or_zero(p.up)
        &&& v.down_mbps == rate_or_zero(p.down)
        &&& v.detour is None
    }
}

/// Whether this is the TUIC outbound of an entry.
pub open spec fn is_tuic(c: OutboundConfig, tag: Seq<char>, p: ClashProxy) -> bool {
    c matches OutboundConfig::Tuic(v) && {
        &&& v.tag@ == tag
        &&& v.server == p.server
        &&& v.server_port == p.port
        &&& p.uuid == Some(v.uuid)
        &&& p.password == Some(v.password)
        &&& text_or(v.congestion_control, p.congestion_controller, "cubic"@)
        &&& text_or(v.udp_relay_mode, p.udp_relay_mode, "native"@)
        &&& is_tls(v.tls, true, p.skip_cert_verify, p.sni, p.alpn)
        &&& v.heartbeat is None
        &&& !v.zero_rtt_handshake
        &&& v.detour is None
    }
}

/// A string, or a default where it is not there.
fn take_or(s: Option<String>, default: &str) -> (r: String)
    ensures
        text_or(r, s, default@),
{
    match s {
        Some(v) => v,
        None => default.to_owned(),
    }
}

/// The rate that a text such as `100 mbps` or `100` gives.
pub fn parse_mbps(s: &str) -> (r: Option<u64>)
    ensures
        match r {
            Some(v) => mbps_value(s@) == Some(v as nat),
            None => mbps_value(s@) is None,
        },
{
    let chars = chars_of(s);
    let len = chars.len();
    let mut from: usize = 0;
    assert(s@.skip(0) =~= s@);
    while from < len && is_white_space(chars[from])
        invariant
            from <= len,
            len == chars@.len(),
            chars@ == s@,
            first_word(s@) == first_word(s@.skip(from as int)),
        decreases len - from,
    {
        assert(s@.skip(from as int).skip(1) =~= s@.skip(from + 1));
        from += 1;
    }
    let ghost rest = s@.skip(from as int);
    let mut to: usize = from;
    assert(rest =~= s@.subrange(from as int, to as int) + s@.skip(to as int));
    assert(s@.subrange(from as int, to as int) + word_prefix(s@.skip(to as int)) =~= word_prefix(
        rest,
    ));
    while to < len && !is_white_space(chars[to])
        invariant
            from <= to <= len,
            len == chars@.len(),
            chars@ == s@,
            rest == s@.skip(from as int),
            s@.subrange(from as int, to as int) + word_prefix(s@.skip(to as int)) == word_prefix(
                rest,
            ),
        decreases len - to,
    {
        assert(s@.skip(to as int).skip(1) =~= s@.skip(to + 1));
        assert(s@.subrange(from as int, to as int) + word_prefix(s@.skip(to as int))
            =~= s@.subrange(from as int, to + 1) + word_prefix(s@.skip(to + 1)));
        to += 1;
    }
    let word = vstd::slice::slice_subrange(chars.as_slice(), from, to);
    assert(word@ =~= word_prefix(rest));
    assert(first_word(rest) =~= word_prefix(rest));
    parse_unsigned(word, u64::MAX)
}

/// TLS by the options of an entry.
pub fn build_tls(
    enabled: bool,
    insecure: bool,
    sni: Option<String>,
    alpn: Option<Vec<String>>,
) -> (r: TlsConfig)
    ensures
        is_tls(r, enabled, insecure, sni, alpn),
{
    TlsConfig {
        enabled,
        server_name: sni,
        insecure,
        ca_path: None,
        alpn: match alpn {
            Some(a) => a,
            None => Vec::new(),
        },
        min_version: None,
        max_version: None,
    }
}

/// The WebSocket transport by the options of an entry.
pub fn build_ws_transport(opts: Option<ClashWsOpts>) -> (r: WsTransportConfig)
    ensures
        is_ws(r, opts),
{
    match opts {
        Some(o) => WsTransportConfig {
            path: take_or(o.path, "/"),
            headers: match o.headers {
                Some(h) => h,
                None => HeaderMap::new(),
            },
            early_data_header_name: o.early_data_header_name,
            max_early_data: match o.max_early_data {
                Some(n) => n,
                None => 0,
            },
        },
        None => WsTransportConfig {
            path: "/".to_owned(),
            headers: HeaderMap::new(),
            early_data_header_name: None,
            max_early_data: 0,
        },
    }
}

/// Whether an entry goes over WebSocket.
fn over_ws(network: &Option<String>) -> (r: bool)
    ensures
        r == (network matches Some(n) && n@ == "ws"@),
{
    match network {
        Some(n) => str_eq(n.as_str(), "ws"),
        None => false,
    }
}

/// Shadowsocks is not supported.
pub fn build_ss(_tag: String, p: ClashProxy) -> (r: Result<OutboundConfig, ClashError>)
    ensures
        r == Err::<OutboundConfig, ClashError>(ClashError::Shadowsocks(p.name)),
{
    Err(ClashError::Shadowsocks(p.name))
}

/// The VMess outbound of an entry.
pub fn build_vmess(tag: String, p: ClashProxy) -> (r: Result<OutboundConfig, ClashError>)
    ensures
        match r {
            Ok(c) => is_vmess(c, tag@, p),
            Err(e) => p.uuid is None && e == ClashError::MissingUuid(ProxyKind::Vmess),
        },
{
    let uuid = match p.uuid {
        Some(u) => u,
        None => {
            return Err(ClashError::MissingUuid(ProxyKind::Vmess));
        },
    };
    let tls = build_tls(p.tls.unwrap_or(false), p.skip_cert_verify, p.sni, p.alpn);
    let transport = if over_ws(&p.network) {
        VmessTransportConfig::Ws(build_ws_transport(p.ws_opts))
    } else {
        VmessTransportConfig::Tcp
    };
    Ok(
        OutboundConfig::Vmess(
            VmessOutboundConfig {
                tag,
                server: p.server,
                server_port: p.port,
                uuid,
                security: take_or(p.cipher, "auto"),
                transport,
                tls,
                detour: None,
            },
        ),
    )
}

/// The VLESS outbound of an entry.
pub fn build_vless(tag: String, p: ClashProxy) -> (r: Result<OutboundConfig, ClashError>)
    ensures
        match r {
            Ok(c) => is_vless(c, tag@, p),
            Err(e) => p.uuid is None && e == ClashError::MissingUuid(ProxyKind::Vless),
        },
{
    let uuid = match p.uuid {
        Some(u) => u,
        None => {
            return Err(ClashError::MissingUuid(ProxyKind::Vless));
        },
    };
    let transport = if over_ws(&p.network) {
        Some(VlessTransportConfig::Ws(build_ws_transport(p.ws_opts)))
    } else {
        None
    };
    let tls = if p.tls.unwrap_or(false) {
        let reality = match p.reality_opts {
            Some(o) => Some(
                RealityConfig { enabled: true, public_key: o.public_key, short_id: o.short_id },
            ),
            None => None,
        };
        Some(
            VlessTlsConfig {
                enabled: true,
                server_name: p.sni,
                insecure: p.skip_cert_verify,
                ca_path: None,
                alpn: match p.alpn {
                    Some(a) => a,
                    None => Vec::new(),
                },
                reality,
            },
        )
    } else {
        None
    };
    Ok(
        OutboundConfig::Vless(
            VlessOutboundConfig {
                tag,
                server: p.server,
                server_port: p.port,
                uuid,
                transport,
                tls,
                detour: None,
            },
        ),
    )
}

/// The Trojan outbound of an entry.
pub fn build_trojan(tag: String, p: ClashProxy) -> (r: Result<OutboundConfig, ClashError>)
    ensures
        match r {
            Ok(c) => is_trojan(c, tag@, p),
            Err(e) => p.password is None && e == ClashError::MissingPassword(ProxyKind::Trojan),
        },
{
    let password = match p.password {
        Some(s) => s,
        None => {
            return Err(ClashError::MissingPassword(ProxyKind::Trojan));
        },
    };
    let tls = build_tls(p.tls.unwrap_or(true), p.skip_cert_verify, p.sni, p.alpn);
    let transport = if over_ws(&p.network) {
        Some(TrojanTransportConfig::Ws(build_ws_transport(p.ws_opts)))
    } else {
        None
    };
    Ok(
        OutboundConfig::Trojan(
            TrojanOutboundConfig {
                tag,
                server: p.server,
                server_port: p.port,
                password,
                transport,
                tls,
                detour: None,
            },
        ),
    )
}

/// The rate that an entry gives, or zero.
fn take_rate(s: &Option<String>) -> (r: u64)
    ensures
        r == rate_or_zero(*s),
{
    match s {
        Some(t) => parse_mbps(t.as_str()).unwrap_or(0),
        None => 0,
    }
}

/// The Hysteria 2 outbound of an entry.
pub fn build_hysteria2(tag: String, p: ClashProxy) -> (r: Result<OutboundConfig, ClashError>)
    ensures
        match r {
            Ok(c) => is_hysteria2(c, tag@, p),
            Err(e) => p.password is None && e == ClashError::MissingPassword(ProxyKind::Hysteria2),
        },
{
    let password = match p.password {
        Some(s) => s,
        None => {
            return Err(ClashError::MissingPassword(ProxyKind::Hysteria2));
        },
    };
    let tls = build_tls(true, p.skip_cert_verify, p.sni, p.alpn);
    let up_mbps = take_rate(&p.up);
    let down_mbps = take_rate(&p.down);
    Ok(
        OutboundConfig::Hysteria2(
            Hysteria2OutboundConfig {
                tag,
                server: p.server,
                server_port: p.port,
                password,
                tls,
                up_mbps,
                down_mbps,
                detour: None,
            },
        ),
    )
}

/// The TUIC outbound of an entry.
pub fn build_tuic(tag: String, p: ClashProxy) -> (r: Result<OutboundConfig, ClashError>)
    ensures
        match r {
            Ok(c) => is_tuic(c, tag@, p),
            Err(ClashError::MissingUuid(k)) => k == ProxyKind::Tuic && p.uuid is None,
            Err(ClashError::MissingPassword(k)) => k == ProxyKind::Tuic && p.uuid is Some
                && p.password is None,
            _ => false,
        },
{
    let uuid = match p.uuid {
        Some(u) => u,
        None => {
            return Err(ClashError::MissingUuid(ProxyKind::Tuic));
        },
    };
    let password = match p.password {
        Some(s) => s,
        None => {
            return Err(ClashError::MissingPassword(ProxyKind::Tuic));
        },
    };
    let tls = build_tls(true, p.skip_cert_verify, p.sni, p.alpn);
    Ok(
        OutboundConfig::Tuic(
            TuicOutboundConfig {
                tag,
                server: p.server,
                server_port: p.port,
                uuid,
                password,
                congestion_control: take_or(p.congestion_controller, "cubic"),
                udp_relay_mode: take_or(p.udp_relay_mode, "native"),
                tls,
                heartbeat: None,
                zero_rtt_handshake: false,
                detour: None,
            },
        ),
    )
}

/// Whether a type is Shadowsocks.
pub open spec fn names_shadowsocks(t: Seq<char>) -> bool {
    t == "ss"@ || t == "shadowsocks"@
}

/// The supported type that a text names.
pub open spec fn named_kind(t: Seq<char>) -> Option<ProxyKind> {
    if t == "vmess"@ {
        Some(ProxyKind::Vmess)
    } else if t == "vless"@ {
        Some(ProxyKind::Vless)
    } else if t == "trojan"@ {
        Some(ProxyKind::Trojan)
    } else if t == "hysteria2"@ || t == "hy2"@ {
        Some(ProxyKind::Hysteria2)
    } else if t == "tuic"@ {
        Some(ProxyKind::Tuic)
    } else {
        None
    }
}

/// Whether an entry can be used: its type is supported, and it has what the type needs.
pub open spec fn usable(p: ClashProxy) -> bool {
    !names_shadowsocks(p.proxy_type@) && match named_kind(p.proxy_type@) {
        Some(ProxyKind::Vmess) => p.uuid is Some,
        Some(ProxyKind::Vless) => p.uuid is Some,
        Some(ProxyKind::Trojan) => p.password is Some,
        Some(ProxyKind::Hysteria2) => p.password is Some,
        Some(ProxyKind::Tuic) => p.uuid is Some && p.password is Some,
        None => false,
    }
}

/// Whether this is the outbound of an entry. Its tag is the name of the entry.
pub open spec fn is_outbound(c: OutboundConfig, p: ClashProxy) -> bool {
    match named_kind(p.proxy_type@) {
        Some(ProxyKind::Vmess) => is_vmess(c, p.name@, p),
        Some(ProxyKind::Vless) => is_vless(c, p.name@, p),
        Some(ProxyKind::Trojan) => is_trojan(c, p.name@, p),
        Some(ProxyKind::Hysteria2) => is_hysteria2(c, p.name@, p),
        Some(ProxyKind::Tuic) => is_tuic(c, p.name@, p),
        None => false,
    }
}

/// Whether this is why an entry cannot be used.
pub open spec fn is_reason(e: ClashError, p: ClashProxy) -> bool {
    if names_shadowsocks(p.proxy_type@) {
        e == ClashError::Shadowsocks(p.name)
    } else {
        match named_kind(p.proxy_type@) {
            Some(ProxyKind::Vmess) => e == ClashError::MissingUuid(ProxyKind::Vmess),
            Some(ProxyKind::Vless) => e == ClashError::MissingUuid(ProxyKind::Vless),
            Some(ProxyKind::Trojan) => e == ClashError::MissingPassword(ProxyKind::Trojan),
            Some(ProxyKind::Hysteria2) => e == ClashError::MissingPassword(ProxyKind::Hysteria2),
            Some(ProxyKind::Tuic) => if p.uuid is None {
                e == ClashError::MissingUuid(ProxyKind::Tuic)
            } else {
                e == ClashError::MissingPassword(ProxyKind::Tuic)
            },
            None => e == ClashError::UnsupportedType(p.proxy_type),
        }
    }
}

/// Whether these are the names and the outbounds of the entries that can be used, in order.
pub open spec fn are_nodes(r: Seq<(String, OutboundConfig)>, proxies: Seq<ClashProxy>) -> bool
    decreases proxies.len(),
{
    if proxies.len() == 0 {
        r.len() == 0
    } else if usable(proxies.last()) {
        &&& r.len() > 0
        &&& r.last().0@ == proxies.last().name@
        &&& is_outbound(r.last().1, proxies.last())
        &&& are_nodes(r.drop_last(), proxies.drop_last())
    } else {
        are_nodes(r, proxies.drop_last())
    }
}

/// The outbound of an entry.
pub fn build_outbound(p: ClashProxy) -> (r: Result<OutboundConfig, ClashError>)
    ensures
        match r {
            Ok(c) => usable(p) && is_outbound(c, p),
            Err(e) => !usable(p) && is_reason(e, p),
        },
{
    let tag = p.name.clone();
    if str_eq(p.proxy_type.as_str(), "ss") || str_eq(p.proxy_type.as_str(), "shadowsocks") {
        build_ss(tag, p)
    } else if str_eq(p.proxy_type.as_str(), "vmess") {
        build_vmess(tag, p)
    } else if str_eq(p.proxy_type.as_str(), "vless") {
        build_vless(tag, p)
    } else if str_eq(p.proxy_type.as_str(), "trojan") {
        build_trojan(tag, p)
    } else if str_eq(p.proxy_type.as_str(), "hysteria2") || str_eq(p.proxy_type.as_str(), "hy2") {
        build_hysteria2(tag, p)
    } else if str_eq(p.proxy_type.as_str(), "tuic") {
        build_tuic(tag, p)
    } else {
        Err(ClashError::UnsupportedType(p.proxy_type))
    }
}

/// The outbounds of a subscription with the names of their entries. `doc` is what reading the text
/// gave: the subscription, or why it is none.
pub fn parse_clash_yaml(doc: Result<ClashDoc, String>) -> (r: Result<
    Vec<(String, OutboundConfig)>,
    ClashError,
>)
    ensures
        match doc {
            Ok(d) => r matches Ok(nodes) && are_nodes(nodes@, d.proxies@),
            Err(e) => r == Err::<Vec<(String, OutboundConfig)>, ClashError>(ClashError::Yaml(e)),
        },
{
    let d = match doc {
        Ok(d) => d,
        Err(e) => {
            return Err(ClashError::Yaml(e));
        },
    };
    let ghost proxies = d.proxies@;
    let mut result: Vec<(String, OutboundConfig)> = Vec::new();
    for p in it: d.proxies.into_iter()
        invariant
            it.seq() == proxies,
            are_nodes(result@, proxies.take(it.index())),
            it.index() == it.seq().len() ==> are_nodes(result@, proxies),
    {
        let ghost t = proxies.take(it.index() + 1);
        let ghost before = result@;
        assert(t.drop_last() =~= proxies.take(it.index()));
        assert(t.last() == p);
        let name = p.name.clone();
        match build_outbound(p) {
            Ok(c) => {
                result.push((name, c));
                assert(result@.drop_last() =~= before);
            },
            Err(_) => {},
        }
        assert(it.index() + 1 == proxies.len() ==> t =~= proxies);
    }
    Ok(result)
}

/// Entries do not depend on each other: what comes of a list is what comes of its parts.
pub proof fn law_entries_are_independent(
    a: Seq<(String, OutboundConfig)>,
    p: Seq<ClashProxy>,
    b: Seq<(String, OutboundConfig)>,
    q: Seq<ClashProxy>,
)
    requires
        are_nodes(a, p),
        are_nodes(b, q),
    ensures
        are_nodes(a + b, p + q),
    decreases q.len(),
{
    if q.len() == 0 {
        assert(a + b =~= a);
        assert(p + q =~= p);
    } else {
        assert((p + q).last() == q.last());
        assert((p + q).drop_last() =~= p + q.drop_last());
        if usable(q.last()) {
            assert((a + b).last() == b.last());
            assert((a + b).drop_last() =~= a + b.drop_last());
            law_entries_are_independent(a, p, b.drop_last(), q.drop_last());
        } else {
            law_entries_are_independent(a, p, b, q.drop_last());
        }
    }
}

/// There is an outbound for each entry that can be used, and for no other.
pub proof fn law_one_node_per_usable_entry(
    r: Seq<(String, OutboundConfig)>,
    proxies: Seq<ClashProxy>,
)
    requires
        are_nodes(r, proxies),
    ensures
        r.len() == proxies.filter(|p: ClashProxy| usable(p)).len(),
    decreases proxies.len(),
{
    reveal(Seq::filter);
    if proxies.len() > 0 {
        if usable(proxies.last()) {
            law_one_node_per_usable_entry(r.drop_last(), proxies.drop_last());
        } else {
            law_one_node_per_usable_entry(r, proxies.drop_last());
        }
    }
}

} // verus!
