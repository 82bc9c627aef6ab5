//! What the outbounds of a subscription have of its entries, whatever their type.
use vstd::prelude::*;

use crate::config::outbound::{
    OutboundConfig, TlsConfig, TrojanTransportConfig, VlessTransportConfig, VmessTransportConfig,
    WsTransportConfig,
};
use crate::provider::parser::clash::{
    are_nodes, build_hysteria2, build_outbound, build_ss, build_tls, build_trojan, build_tuic,
    build_vless, build_vmess, build_ws_transport, is_outbound, is_reason,
    law_rate_is_the_first_word, mbps_value, parse_clash_yaml, parse_mbps, usable, ClashDoc,
    ClashError, ClashProxy, ClashWsOpts, ProxyKind,
};
use crate::text::{unsigned_value, white_space};

verus! {

/// TLS of an outbound, whatever its type.
pub struct TlsModel {
    pub enabled: bool,
    pub server_name: Option<String>,
    pub insecure: bool,
    pub ca_path: Option<String>,
    pub alpn: Vec<String>,
}

/// The tag of an outbound.
pub open spec fn tag_of(c: OutboundConfig) -> Seq<char> {
    match c {
        OutboundConfig::Vmess(v) => v.tag@,
        OutboundConfig::Vless(v) => v.tag@,
        OutboundConfig::Trojan(v) => v.tag@,
        OutboundConfig::Hysteria2(v) => v.tag@,
        OutboundConfig::Tuic(v) => v.tag@,
    }
}

/// The server of an outbound.
pub open spec fn server_of(c: OutboundConfig) -> (Seq<char>, u16) {
    match c {
        OutboundConfig::Vmess(v) => (v.server@, v.server_port),
        OutboundConfig::Vless(v) => (v.server@, v.server_port),
        OutboundConfig::Trojan(v) => (v.server@, v.server_port),
        OutboundConfig::Hysteria2(v) => (v.server@, v.server_port),
        OutboundConfig::Tuic(v) => (v.server@, v.server_port),
    }
}

/// TLS of an outbound of any type but VLESS.
pub open spec fn tls_model(t: TlsConfig) -> TlsModel {
    TlsModel {
        enabled: t.enabled,
        server_name: t.server_name,
        insecure: t.insecure,
        ca_path: t.ca_path,
        alpn: t.alpn,
    }
}

/// TLS of an outbound, where it has it.
pub open spec fn tls_of(c: OutboundConfig) -> Option<TlsModel> {
    match c {
        OutboundConfig::Vmess(v) => Some(tls_model(v.tls)),
        OutboundConfig::Vless(v) => match v.tls {
            Some(t) => Some(
                TlsModel {
                    enabled: t.enabled,
                    server_name: t.server_name,
                    insecure: t.insecure,
                    ca_path: t.ca_path,
                    alpn: t.alpn,
                },
            ),
            None => None,
        },
        OutboundConfig::Trojan(v) => Some(tls_model(v.tls)),
        OutboundConfig::Hysteria2(v) => Some(tls_model(v.tls)),
        OutboundConfig::Tuic(v) => Some(tls_model(v.tls)),
    }
}

/// The TLS versions that an outbound is held to, lowest and highest.
pub open spec fn versions_of(c: OutboundConfig) -> (Option<String>, Option<String>) {
    match c {
        OutboundConfig::Vmess(v) => (v.tls.min_version, v.tls.max_version),
        OutboundConfig::Vless(_) => (None, None),
        OutboundConfig::Trojan(v) => (v.tls.min_version, v.tls.max_version),
        OutboundConfig::Hysteria2(v) => (v.tls.min_version, v.tls.max_version),
        OutboundConfig::Tuic(v) => (v.tls.min_version, v.tls.max_version),
    }
}

/// The UUID of an outbound, where its type has one.
pub open spec fn uuid_of(c: OutboundConfig) -> Option<String> {
    match c {
        OutboundConfig::Vmess(v) => Some(v.uuid),
        OutboundConfig::Vless(v) => Some(v.uuid),
        OutboundConfig::Tuic(v) => Some(v.uuid),
        _ => None,
    }
}

/// The password of an outbound, where its type has one.
pub open spec fn password_of(c: OutboundConfig) -> Option<String> {
    match c {
        OutboundConfig::Trojan(v) => Some(v.password),
        OutboundConfig::Hysteria2(v) => Some(v.password),
        OutboundConfig::Tuic(v) => Some(v.password),
        _ => None,
    }
}

/// The WebSocket transport of an outbound, where it has one.
pub open spec fn ws_of(c: OutboundConfig) -> Option<WsTransportConfig> {
    match c {
        OutboundConfig::Vmess(v) => match v.transport {
            VmessTransportConfig::Ws(ws) => Some(ws),
            _ => None,
        },
        OutboundConfig::Vless(v) => match v.transport {
            Some(VlessTransportConfig::Ws(ws)) => Some(ws),
            None => None,
        },
        OutboundConfig::Trojan(v) => match v.transport {
            Some(TrojanTransportConfig::Ws(ws)) => Some(ws),
            _ => None,
        },
        _ => None,
    }
}

/// The outbound that the traffic of an outbound goes through, where there is one.
pub open spec fn detour_of(c: OutboundConfig) -> Option<String> {
    match c {
        OutboundConfig::Vmess(v) => v.detour,
        OutboundConfig::Vless(v) => v.detour,
        OutboundConfig::Trojan(v) => v.detour,
        OutboundConfig::Hysteria2(v) => v.detour,
        OutboundConfig::Tuic(v) => v.detour,
    }
}

/// Whether an entry has what an outbound of its type needs.
pub open spec fn complete(p: ClashProxy) -> bool {
    let t = p.proxy_type@;
    ||| (t == "vmess"@ || t == "vless"@) && p.uuid is Some
    ||| (t == "trojan"@ || t == "hysteria2"@ || t == "hy2"@) && p.password is Some
    ||| t == "tuic"@ && p.uuid is Some && p.password is Some
}

/// Whether the outbounds are those of the entries at the given places.
pub open spec fn stand_at(
    r: Seq<(String, OutboundConfig)>,
    proxies: Seq<ClashProxy>,
    at: Seq<int>,
) -> bool {
    &&& at.len() == r.len()
    &&& forall|k: int|
        0 <= k < at.len() ==> {
            &&& 0 <= #[trigger] at[k] < proxies.len()
            &&& complete(proxies[at[k]])
            &&& r[k].0@ == proxies[at[k]].name@
            &&& is_outbound(r[k].1, proxies[at[k]])
        }
    &&& forall|j: int, k: int| 0 <= j < k < at.len() ==> #[trigger] at[j] < #[trigger] at[k]
}

proof fn lemma_types_differ()
    ensures
        "ss"@ != "vmess"@ && "ss"@ != "vless"@ && "ss"@ != "trojan"@ && "ss"@ != "hysteria2"@
            && "ss"@ != "hy2"@ && "ss"@ != "tuic"@,
        "shadowsocks"@ != "vmess"@ && "shadowsocks"@ != "vless"@ && "shadowsocks"@ != "trojan"@
            && "shadowsocks"@ != "hysteria2"@ && "shadowsocks"@ != "hy2"@ && "shadowsocks"@
            != "tuic"@,
        "vmess"@ != "vless"@ && "vmess"@ != "trojan"@ && "vmess"@ != "hysteria2"@ && "vmess"@
            != "hy2"@ && "vmess"@ != "tuic"@,
        "vless"@ != "trojan"@ && "vless"@ != "hysteria2"@ && "vless"@ != "hy2"@ && "vless"@
            != "tuic"@,
        "trojan"@ != "hysteria2"@ && "trojan"@ != "hy2"@ && "trojan"@ != "tuic"@,
        "hysteria2"@ != "tuic"@ && "hy2"@ != "tuic"@,
{
    reveal_strlit("ss");
    reveal_strlit("shadowsocks");
    reveal_strlit("vmess");
    reveal_strlit("vless");
    reveal_strlit("trojan");
    reveal_strlit("hysteria2");
    reveal_strlit("hy2");
    reveal_strlit("tuic");
    assert("vmess"@[1] != "vless"@[1]);
    assert("ss"@.len() == 2 && "shadowsocks"@.len() == 11 && "vmess"@.len() == 5);
    assert("vless"@.len() == 5 && "trojan"@.len() == 6 && "hysteria2"@.len() == 9);
    assert("hy2"@.len() == 3 && "tuic"@.len() == 4);
}

/// An entry can be used exactly if it has what an outbound of its type needs.
pub proof fn law_complete_entries_are_usable(p: ClashProxy)
    ensures
        usable(p) <==> complete(p),
{
    lemma_types_differ();
}

/// The outbounds of a subscription are those of its complete entries, each once and in order.
pub proof fn law_complete_entries_become_nodes(
    r: Seq<(String, OutboundConfig)>,
    proxies: Seq<ClashProxy>,
) -> (at: Seq<int>)
    requires
        are_nodes(r, proxies),
    ensures
        stand_at(r, proxies, at),
        forall|i: int|
            0 <= i < proxies.len() && complete(#[trigger] proxies[i]) ==> at.contains(i),
    decreases proxies.len(),
{
    if proxies.len() == 0 {
        Seq::empty()
    } else {
        let before = proxies.drop_last();
        let last = proxies.len() - 1;
        law_complete_entries_are_usable(proxies.last());
        if usable(proxies.last()) {
            let head = law_complete_entries_become_nodes(r.drop_last(), before);
            let at = head.push(last);
            assert forall|k: int| 0 <= k < at.len() implies {
                &&& 0 <= #[trigger] at[k] < proxies.len()
                &&& complete(proxies[at[k]])
                &&& r[k].0@ == proxies[at[k]].name@
                &&& is_outbound(r[k].1, proxies[at[k]])
            } by {
                if k < head.len() {
                    assert(at[k] == head[k]);
                    assert(before[head[k]] == proxies[head[k]]);
                    assert(r.drop_last()[k] == r[k]);
                }
            }
            assert forall|j: int, k: int| 0 <= j < k < at.len() implies #[trigger] at[j]
                < #[trigger] at[k] by {
                assert(at[j] == head[j]);
            }
            assert forall|i: int|
                0 <= i < proxies.len() && complete(#[trigger] proxies[i]) implies at.contains(i) by {
                if i < last {
                    assert(before[i] == proxies[i]);
                    let k = choose|k: int| 0 <= k < head.len() && head[k] == i;
                    assert(at[k] == i);
                } else {
                    assert(at[head.len() as int] == i);
                }
            }
            at
        } else {
            let at = law_complete_entries_become_nodes(r, before);
            assert forall|k: int| 0 <= k < at.len() implies {
                &&& 0 <= #[trigger] at[k] < proxies.len()
                &&& complete(proxies[at[k]])
                &&& r[k].0@ == proxies[at[k]].name@
                &&& is_outbound(r[k].1, proxies[at[k]])
            } by {
                assert(before[at[k]] == proxies[at[k]]);
            }
            assert forall|i: int|
                0 <= i < proxies.len() && complete(#[trigger] proxies[i]) implies at.contains(i) by {
                assert(before[i] == proxies[i]);
            }
            at
        }
    }
}

/// Whether an outbound has of an entry what outbounds of all types have: its type, its tag and its
/// server, its credentials, and no way through another outbound.
pub open spec fn names_server(c: OutboundConfig, p: ClashProxy) -> bool {
    let t = p.proxy_type@;
    &&& c is Vmess <==> t == "vmess"@
    &&& c is Vless <==> t == "vless"@
    &&& c is Trojan <==> t == "trojan"@
    &&& c is Hysteria2 <==> t == "hysteria2"@ || t == "hy2"@
    &&& c is Tuic <==> t == "tuic"@
    &&& tag_of(c) == p.name@
    &&& server_of(c) == (p.server@, p.port)
    &&& uuid_of(c) matches Some(u) ==> p.uuid == Some(u)
    &&& password_of(c) matches Some(w) ==> p.password == Some(w)
    &&& detour_of(c) is None
}

/// Whether TLS of an outbound is that of an entry: always on for Hysteria 2 and TUIC, on unless
/// switched off for Trojan, and on where switched on for the others, with the server name of the
/// entry, its protocols, and its word on certificates.
pub open spec fn has_tls_of(c: OutboundConfig, p: ClashProxy) -> bool {
    let on = c is Hysteria2 || c is Tuic || p.tls == Some(true) || (c is Trojan && p.tls is None);
    &&& on ==> tls_of(c) is Some
    &&& tls_of(c) matches Some(t) ==> {
        &&& t.enabled == on
        &&& t.server_name == p.sni
        &&& t.insecure == p.skip_cert_verify
        &&& t.ca_path is None
        &&& p.alpn matches Some(a) ==> t.alpn == a
        &&& p.alpn is None ==> t.alpn@.len() == 0
    }
    &&& versions_of(c).0 is None && versions_of(c).1 is None
}

/// Whether an outbound goes over WebSocket as an entry says: exactly where its network is `ws` and
/// its type allows it, at the path that it gives or the root, with its headers and early data.
pub open spec fn has_ws_of(c: OutboundConfig, p: ClashProxy) -> bool {
    &&& ws_of(c) is Some <==> !(c is Hysteria2 || c is Tuic) && (p.network matches Some(n) && n@
        == "ws"@)
    &&& ws_of(c) matches Some(ws) ==> {
        let path = match p.ws_opts {
            Some(o) => o.path,
            None => None,
        };
        let headers = match p.ws_opts {
            Some(o) => o.headers,
            None => None,
        };
        let early = match p.ws_opts {
            Some(o) => o.max_early_data,
            None => None,
        };
        &&& path matches Some(q) ==> ws.path@ == q@
        &&& path is None ==> ws.path@ == "/"@
        &&& headers matches Some(h) ==> ws.headers@ == h@
        &&& headers is None ==> ws.headers@ == Map::<Seq<char>, Seq<char>>::empty()
        &&& early matches Some(n) ==> ws.max_early_data == n
        &&& early is None ==> ws.max_early_data == 0
        &&& p.ws_opts matches Some(o) ==> ws.early_data_header_name == o.early_data_header_name
        &&& p.ws_opts is None ==> ws.early_data_header_name is None
    }
}

/// A text that is given, or else a default.
pub open spec fn given_or(s: String, given: Option<String>, default: Seq<char>) -> bool {
    &&& given matches Some(g) ==> s@ == g@
    &&& given is None ==> s@ == default
}

/// Whether a rate is the one that is given, or zero where none is given or it is no number.
pub open spec fn rate_of(n: u64, given: Option<String>) -> bool {
    match given {
        Some(s) => match mbps_value(s@) {
            Some(v) => n == v,
            None => n == 0,
        },
        None => n == 0,
    }
}

/// Whether an outbound has of an entry what only outbounds of its type have.
pub open spec fn has_options_of(c: OutboundConfig, p: ClashProxy) -> bool {
    match c {
        OutboundConfig::Vmess(v) => given_or(v.security, p.cipher, "auto"@),
        OutboundConfig::Vless(v) => v.tls matches Some(t) ==> {
            &&& t.reality is Some <==> p.reality_opts is Some
            &&& t.reality matches Some(r) ==> {
                &&& r.enabled
                &&& r.public_key == p.reality_opts->0.public_key
                &&& r.short_id == p.reality_opts->0.short_id
            }
        },
        OutboundConfig::Trojan(v) => v.transport is None || ws_of(c) is Some,
        OutboundConfig::Hysteria2(v) => rate_of(v.up_mbps, p.up) && rate_of(v.down_mbps, p.down),
        OutboundConfig::Tuic(v) => {
            &&& given_or(v.congestion_control, p.congestion_controller, "cubic"@)
            &&& given_or(v.udp_relay_mode, p.udp_relay_mode, "native"@)
            &&& v.heartbeat is None
            &&& !v.zero_rtt_handshake
        },
    }
}

/// The outbound of an entry has the server, the credentials, the TLS, the transport and the
/// options of the entry, whatever its type.
pub proof fn law_outbounds_have_what_entries_say(c: OutboundConfig, p: ClashProxy)
    requires
        is_outbound(c, p),
    ensures
        names_server(c, p),
        has_tls_of(c, p),
        has_ws_of(c, p),
        has_options_of(c, p),
{
    lemma_types_differ();
}

/// Every node of a subscription is that of a complete entry and has all that the entry says; its
/// server name for TLS is that of the entry, whatever the type.
pub proof fn law_nodes_have_what_entries_say(
    r: Seq<(String, OutboundConfig)>,
    proxies: Seq<ClashProxy>,
    k: int,
) -> (i: int)
    requires
        are_nodes(r, proxies),
        0 <= k < r.len(),
    ensures
        0 <= i < proxies.len(),
        complete(proxies[i]),
        r[k].0@ == proxies[i].name@,
        names_server(r[k].1, proxies[i]),
        has_tls_of(r[k].1, proxies[i]),
        has_ws_of(r[k].1, proxies[i]),
        has_options_of(r[k].1, proxies[i]),
        tls_of(r[k].1) matches Some(t) ==> t.server_name == proxies[i].sni,
{
    let at = law_complete_entries_become_nodes(r, proxies);
    let i = at[k];
    law_outbounds_have_what_entries_say(r[k].1, proxies[i]);
    i
}

/// An entry that cannot be used is refused for what it is: of a type that is not supported, or
/// without its UUID, or without its password.
pub proof fn law_refusals_name_the_reason(e: ClashError, p: ClashProxy)
    requires
        !usable(p),
        is_reason(e, p),
    ensures
        match e {
            ClashError::Shadowsocks(n) => n@ == p.name@ && (p.proxy_type@ == "ss"@ || p.proxy_type@
                == "shadowsocks"@),
            ClashError::MissingUuid(k) => {
                &&& p.uuid is None
                &&& k is Vmess ==> p.proxy_type@ == "vmess"@
                &&& k is Vless ==> p.proxy_type@ == "vless"@
                &&& k is Tuic ==> p.proxy_type@ == "tuic"@
                &&& k !is Trojan && k !is Hysteria2
            },
            ClashError::MissingPassword(k) => {
                &&& p.password is None
                &&& k is Trojan ==> p.proxy_type@ == "trojan"@
                &&& k is Hysteria2 ==> p.proxy_type@ == "hysteria2"@ || p.proxy_type@ == "hy2"@
                &&& k is Tuic ==> p.proxy_type@ == "tuic"@ && p.uuid is Some
                &&& k !is Vmess && k !is Vless
            },
            ClashError::UnsupportedType(t) => {
                &&& t@ == p.proxy_type@
                &&& t@ != "ss"@ && t@ != "shadowsocks"@ && t@ != "vmess"@ && t@ != "vless"@
                &&& t@ != "trojan"@ && t@ != "hysteria2"@ && t@ != "hy2"@ && t@ != "tuic"@
            },
            ClashError::Yaml(_) => false,
        },
{
    lemma_types_differ();
}

/// The errors in words name the type, or the entry, or what is missing.
pub proof fn law_errors_tell_the_reason(e: ClashError)
    ensures
        e matches ClashError::Yaml(s) ==> e.spec_message() == "clash yaml parse error: "@ + s@,
        e matches ClashError::UnsupportedType(t) ==> e.spec_message()
            == "unsupported proxy type: '"@ + t@ + "'"@,
        e matches ClashError::Shadowsocks(n) ==> e.spec_message()
            == "shadowsocks is not yet supported in Reflex (node: "@ + n@ + ")"@,
        e matches ClashError::MissingUuid(k) ==> e.spec_message() == k.spec_name()
            + ": missing uuid"@,
        e matches ClashError::MissingPassword(k) ==> e.spec_message() == k.spec_name()
            + ": missing password"@,
        ProxyKind::Vmess.spec_name() == "vmess"@,
        ProxyKind::Vless.spec_name() == "vless"@,
        ProxyKind::Trojan.spec_name() == "trojan"@,
        ProxyKind::Hysteria2.spec_name() == "hysteria2"@,
        ProxyKind::Tuic.spec_name() == "tuic"@,
{
}

/// An entry becomes an outbound exactly if it is complete, and the outbound has all that the entry
/// says, above all the server name for TLS; otherwise the reason is given.
pub proof fn law_entries_become_outbounds(p: ClashProxy, r: Result<OutboundConfig, ClashError>)
    requires
        call_ensures(build_outbound, (p,), r),
    ensures
        r is Ok <==> complete(p),
        r matches Ok(c) ==> {
            &&& names_server(c, p)
            &&& has_tls_of(c, p)
            &&& has_ws_of(c, p)
            &&& has_options_of(c, p)
            &&& tls_of(c) matches Some(t) ==> t.server_name == p.sni
        },
        r matches Err(e) ==> is_reason(e, p),
{
    law_complete_entries_are_usable(p);
    if r is Ok {
        law_outbounds_have_what_entries_say(r->Ok_0, p);
    }
}

/// A subscription gives one node for each complete entry, in order, with all that the entry says;
/// a text that is none is refused with what was wrong with it.
pub proof fn law_subscriptions_give_their_nodes(
    doc: Result<ClashDoc, String>,
    r: Result<Vec<(String, OutboundConfig)>, ClashError>,
) -> (at: Seq<int>)
    requires
        call_ensures(parse_clash_yaml, (doc,), r),
    ensures
        r is Ok <==> doc is Ok,
        doc matches Err(e) ==> r == Err::<Vec<(String, OutboundConfig)>, ClashError>(
            ClashError::Yaml(e),
        ),
        doc matches Ok(d) ==> {
            let nodes = r->Ok_0@;
            &&& at.len() == nodes.len()
            &&& forall|i: int|
                0 <= i < d.proxies@.len() && complete(#[trigger] d.proxies@[i]) ==> at.contains(i)
            &&& forall|j: int, k: int| 0 <= j < k < at.len() ==> #[trigger] at[j] < #[trigger] at[k]
            &&& forall|k: int|
                0 <= k < at.len() ==> {
                    let p = d.proxies@[#[trigger] at[k]];
                    &&& 0 <= at[k] < d.proxies@.len()
                    &&& complete(p)
                    &&& nodes[k].0@ == p.name@
                    &&& names_server(nodes[k].1, p)
                    &&& has_tls_of(nodes[k].1, p)
                    &&& has_ws_of(nodes[k].1, p)
                    &&& has_options_of(nodes[k].1, p)
                }
        },
{
    match doc {
        Ok(d) => {
            let nodes = r->Ok_0@;
            let at = law_complete_entries_become_nodes(nodes, d.proxies@);
            assert forall|k: int| 0 <= k < at.len() implies {
                let p = d.proxies@[#[trigger] at[k]];
                &&& 0 <= at[k] < d.proxies@.len()
                &&& complete(p)
                &&& nodes[k].0@ == p.name@
                &&& names_server(nodes[k].1, p)
                &&& has_tls_of(nodes[k].1, p)
                &&& has_ws_of(nodes[k].1, p)
                &&& has_options_of(nodes[k].1, p)
            } by {
                law_outbounds_have_what_entries_say(nodes[k].1, d.proxies@[at[k]]);
            }
            at
        },
        Err(_) => Seq::empty(),
    }
}

/// Whether an outbound has a tag, and the server, the credentials, the TLS, the transport and the
/// options of an entry.
pub open spec fn stands_for(c: OutboundConfig, tag: Seq<char>, p: ClashProxy) -> bool {
    &&& tag_of(c) == tag
    &&& server_of(c) == (p.server@, p.port)
    &&& uuid_of(c) matches Some(u) ==> p.uuid == Some(u)
    &&& password_of(c) matches Some(w) ==> p.password == Some(w)
    &&& detour_of(c) is None
    &&& has_tls_of(c, p)
    &&& has_ws_of(c, p)
    &&& has_options_of(c, p)
}

/// An entry taken as one of type VMess needs its UUID.
pub proof fn law_vmess_needs_its_uuid(
    tag: String,
    p: ClashProxy,
    r: Result<OutboundConfig, ClashError>,
)
    requires
        call_ensures(build_vmess, (tag, p), r),
    ensures
        r is Ok <==> p.uuid is Some,
        r matches Ok(c) ==> c is Vmess && stands_for(c, tag@, p),
        r matches Err(e) ==> e == ClashError::MissingUuid(ProxyKind::Vmess),
{
}

/// An entry taken as one of type VLESS needs its UUID.
pub proof fn law_vless_needs_its_uuid(
    tag: String,
    p: ClashProxy,
    r: Result<OutboundConfig, ClashError>,
)
    requires
        call_ensures(build_vless, (tag, p), r),
    ensures
        r is Ok <==> p.uuid is Some,
        r matches Ok(c) ==> c is Vless && stands_for(c, tag@, p),
        r matches Err(e) ==> e == ClashError::MissingUuid(ProxyKind::Vless),
{
}

/// An entry taken as one of type Trojan needs its password.
pub proof fn law_trojan_needs_its_password(
    tag: String,
    p: ClashProxy,
    r: Result<OutboundConfig, ClashError>,
)
    requires
        call_ensures(build_trojan, (tag, p), r),
    ensures
        r is Ok <==> p.password is Some,
        r matches Ok(c) ==> c is Trojan && stands_for(c, tag@, p),
        r matches Err(e) ==> e == ClashError::MissingPassword(ProxyKind::Trojan),
{
}

/// An entry taken as one of type Hysteria 2 needs its password.
pub proof fn law_hysteria2_needs_its_password(
    tag: String,
    p: ClashProxy,
    r: Result<OutboundConfig, ClashError>,
)
    requires
        call_ensures(build_hysteria2, (tag, p), r),
    ensures
        r is Ok <==> p.password is Some,
        r matches Ok(c) ==> c is Hysteria2 && stands_for(c, tag@, p),
        r matches Err(e) ==> e == ClashError::MissingPassword(ProxyKind::Hysteria2),
{
}

/// An entry taken as one of type TUIC needs its UUID and its password, and the UUID first.
pub proof fn law_tuic_needs_both(
    tag: String,
    p: ClashProxy,
    r: Result<OutboundConfig, ClashError>,
)
    requires
        call_ensures(build_tuic, (tag, p), r),
    ensures
        r is Ok <==> p.uuid is Some && p.password is Some,
        r matches Ok(c) ==> c is Tuic && stands_for(c, tag@, p),
        p.uuid is None ==> r == Err::<OutboundConfig, ClashError>(
            ClashError::MissingUuid(ProxyKind::Tuic),
        ),
        p.uuid is Some && p.password is None ==> r == Err::<OutboundConfig, ClashError>(
            ClashError::MissingPassword(ProxyKind::Tuic),
        ),
{
}

/// An entry taken as one of type Shadowsocks is refused by its name.
pub proof fn law_shadowsocks_is_refused(
    tag: String,
    p: ClashProxy,
    r: Result<OutboundConfig, ClashError>,
)
    requires
        call_ensures(build_ss, (tag, p), r),
    ensures
        r matches Err(e) && e == ClashError::Shadowsocks(p.name),
{
}

/// TLS and the WebSocket transport are built from what is given, with nothing added.
pub proof fn law_tls_is_as_given(
    enabled: bool,
    insecure: bool,
    sni: Option<String>,
    alpn: Option<Vec<String>>,
    t: TlsConfig,
)
    requires
        call_ensures(build_tls, (enabled, insecure, sni, alpn), t),
    ensures
        t.enabled == enabled && t.insecure == insecure && t.server_name == sni,
        t.ca_path is None && t.min_version is None && t.max_version is None,
        alpn matches Some(a) ==> t.alpn == a,
        alpn is None ==> t.alpn@.len() == 0,
{
}

/// A WebSocket transport has the path, the headers and the early data of the options, else the
/// root, no headers and none.
pub proof fn law_ws_is_as_given(opts: Option<ClashWsOpts>, ws: WsTransportConfig)
    requires
        call_ensures(build_ws_transport, (opts,), ws),
    ensures
        opts is None ==> {
            &&& ws.path@ == "/"@
            &&& ws.headers@ == Map::<Seq<char>, Seq<char>>::empty()
            &&& ws.early_data_header_name is None
            &&& ws.max_early_data == 0
        },
        opts matches Some(o) ==> {
            &&& given_or(ws.path, o.path, "/"@)
            &&& o.headers matches Some(h) ==> ws.headers@ == h@
            &&& o.headers is None ==> ws.headers@ == Map::<Seq<char>, Seq<char>>::empty()
            &&& ws.early_data_header_name == o.early_data_header_name
            &&& o.max_early_data matches Some(n) ==> ws.max_early_data == n
            &&& o.max_early_data is None ==> ws.max_early_data == 0
        },
{
}

/// A rate is read from the first word of its text, whatever white space stands before it and
/// whatever follows it.
pub proof fn law_rates_are_read(
    s: &str,
    lead: Seq<char>,
    word: Seq<char>,
    rest: Seq<char>,
    r: Option<u64>,
)
    requires
        call_ensures(parse_mbps, (s,), r),
        s@ == lead + word + rest,
        forall|i: int| 0 <= i < lead.len() ==> white_space(#[trigger] lead[i]),
        forall|i: int| 0 <= i < word.len() ==> !white_space(#[trigger] word[i]),
        rest.len() > 0 ==> white_space(rest[0]),
        word.len() == 0 ==> rest.len() == 0,
    ensures
        r is Some <==> unsigned_value(word, u64::MAX as nat) is Some,
        r matches Some(v) ==> unsigned_value(word, u64::MAX as nat) == Some(v as nat),
{
    law_rate_is_the_first_word(lead, word, rest);
}

} // verus!
