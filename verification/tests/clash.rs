use reflex::config::outbound::{
    OutboundConfig, TrojanTransportConfig, VlessTransportConfig, VmessTransportConfig,
};
use reflex::headers::HeaderMap;
use reflex::provider::parser::clash::{
    build_outbound, build_tls, build_ws_transport, parse_clash_yaml, parse_mbps, ClashDoc,
    ClashError, ClashProxy, ClashRealityOpts, ClashWsOpts,
};
use serde_yaml::Value;

fn text(v: &Value, key: &str) -> Option<String> {
    v.get(key).and_then(|x| x.as_str()).map(|s| s.to_string())
}

fn ws_opts(v: &Value) -> ClashWsOpts {
    let headers = v.get("headers").and_then(|h| h.as_mapping()).map(|m| {
        let mut out = HeaderMap::new();
        for (k, x) in m {
            out.insert(k.as_str().unwrap().to_string(), x.as_str().unwrap().to_string());
        }
        out
    });
    ClashWsOpts {
        path: text(v, "path"),
        headers,
        early_data_header_name: text(v, "early-data-header-name"),
        max_early_data: v.get("max-early-data").and_then(|n| n.as_u64()).map(|n| n as u32),
    }
}

fn proxy(v: &Value) -> ClashProxy {
    ClashProxy {
        name: text(v, "name").unwrap(),
        proxy_type: text(v, "type").unwrap(),
        server: text(v, "server").unwrap_or_default(),
        port: v.get("port").and_then(|n| n.as_u64()).unwrap_or(0) as u16,
        cipher: text(v, "cipher"),
        password: text(v, "password"),
        uuid: text(v, "uuid"),
        alter_id: v.get("alterId").and_then(|n| n.as_u64()).map(|n| n as u32),
        flow: text(v, "flow"),
        tls: v.get("tls").and_then(|b| b.as_bool()),
        skip_cert_verify: v.get("skip-cert-verify").and_then(|b| b.as_bool()).unwrap_or(false),
        sni: text(v, "sni"),
        alpn: v.get("alpn").and_then(|a| a.as_sequence()).map(|s| {
            s.iter().map(|x| x.as_str().unwrap().to_string()).collect()
        }),
        network: text(v, "network"),
        ws_opts: v.get("ws-opts").map(ws_opts),
        up: text(v, "up"),
        down: text(v, "down"),
        congestion_controller: text(v, "congestion-controller"),
        udp_relay_mode: text(v, "udp-relay-mode"),
        reality_opts: v.get("reality-opts").map(|r| ClashRealityOpts {
            public_key: text(r, "public-key").unwrap_or_default(),
            short_id: text(r, "short-id").unwrap_or_default(),
        }),
    }
}

fn doc(yaml: &str) -> Result<ClashDoc, String> {
    let v: Value = serde_yaml::from_str(yaml).map_err(|e| e.to_string())?;
    let proxies = match v.get("proxies").and_then(|p| p.as_sequence()) {
        Some(s) => s.iter().map(proxy).collect(),
        None => vec![],
    };
    Ok(ClashDoc { proxies })
}

fn one(yaml: &str) -> ClashProxy {
    doc(yaml).unwrap().proxies.remove(0)
}

#[test]
fn parse_vmess_ws() {
    let yaml = r#"
proxies:
  - name: "日本 WS"
    type: vmess
    server: jp.example.com
    port: 443
    uuid: "12345678-1234-1234-1234-123456789abc"
    cipher: auto
    tls: true
    network: ws
    ws-opts:
      path: /ws
      headers:
        Host: jp.example.com
    skip-cert-verify: false
"#;
    let nodes = parse_clash_yaml(doc(yaml)).unwrap();
    assert_eq!(nodes.len(), 1);
    assert_eq!(nodes[0].0, "日本 WS");
    assert!(matches!(nodes[0].1, OutboundConfig::Vmess(_)));
}

#[test]
fn parse_hy2() {
    let yaml = r#"
proxies:
  - name: "HK HY2"
    type: hysteria2
    server: hk.example.com
    port: 443
    password: mypassword
    up: "50 mbps"
    down: "100 mbps"
    skip-cert-verify: true
"#;
    let nodes = parse_clash_yaml(doc(yaml)).unwrap();
    assert_eq!(nodes.len(), 1);
    assert!(matches!(nodes[0].1, OutboundConfig::Hysteria2(_)));
}

#[test]
fn skip_unsupported_type() {
    let yaml = r#"
proxies:
  - name: "SS节点"
    type: ss
    server: s.example.com
    port: 1234
    cipher: aes-256-gcm
    password: pass
  - name: "HK HY2"
    type: hy2
    server: hk.example.com
    port: 443
    password: mypassword
"#;
    // The first entry is passed over, the second is kept.
    let nodes = parse_clash_yaml(doc(yaml)).unwrap();
    assert_eq!(nodes.len(), 1);
    assert_eq!(nodes[0].0, "HK HY2");
}

#[test]
fn parse_trojan_tcp_tls() {
    let yaml = r#"
proxies:
  - name: "JP Trojan"
    type: trojan
    server: jp.example.com
    port: 443
    password: mypassword
    sni: jp.example.com
    skip-cert-verify: false
"#;
    let nodes = parse_clash_yaml(doc(yaml)).unwrap();
    assert_eq!(nodes.len(), 1);
    assert_eq!(nodes[0].0, "JP Trojan");
    if let OutboundConfig::Trojan(ref c) = nodes[0].1 {
        assert_eq!(c.server, "jp.example.com");
        assert_eq!(c.server_port, 443);
        assert_eq!(c.password, "mypassword");
        assert!(c.tls.enabled);
        assert_eq!(c.tls.server_name.as_deref(), Some("jp.example.com"));
        assert!(matches!(
            c.transport,
            None | Some(TrojanTransportConfig::Tcp(_))
        ));
    } else {
        panic!("expected Trojan outbound");
    }
}

#[test]
fn parse_trojan_ws_tls() {
    let yaml = r#"
proxies:
  - name: "SG Trojan WS"
    type: trojan
    server: sg.example.com
    port: 443
    password: wspassword
    tls: true
    skip-cert-verify: true
    network: ws
    ws-opts:
      path: /trojan
      headers:
        Host: sg.example.com
"#;
    let nodes = parse_clash_yaml(doc(yaml)).unwrap();
    assert_eq!(nodes.len(), 1);
    if let OutboundConfig::Trojan(ref c) = nodes[0].1 {
        assert!(c.tls.enabled);
        assert!(c.tls.insecure);
        if let Some(TrojanTransportConfig::Ws(ref ws)) = c.transport {
            assert_eq!(ws.path, "/trojan");
            assert_eq!(
                ws.headers.get("Host").map(|s| s.as_str()),
                Some("sg.example.com")
            );
        } else {
            panic!("expected WS transport");
        }
    } else {
        panic!("expected Trojan outbound");
    }
}

#[test]
fn parse_trojan_missing_password() {
    let yaml = r#"
proxies:
  - name: "Bad Trojan"
    type: trojan
    server: x.example.com
    port: 443
"#;
    // The entry lacks its password and is passed over.
    let nodes = parse_clash_yaml(doc(yaml)).unwrap();
    assert_eq!(nodes.len(), 0);
}

#[test]
fn vmess_in_full() {
    let p = one(
        "proxies:\n  - {name: n, type: vmess, server: s, port: 1, uuid: u, tls: true, sni: i, \
         alpn: [h2, h3], network: ws, ws-opts: {path: /p, early-data-header-name: e, \
         max-early-data: 9}}\n",
    );
    match build_outbound(p).unwrap() {
        OutboundConfig::Vmess(c) => {
            assert_eq!((c.tag.as_str(), c.server.as_str(), c.server_port), ("n", "s", 1));
            assert_eq!((c.uuid.as_str(), c.security.as_str()), ("u", "auto"));
            assert!(c.tls.enabled && !c.tls.insecure && c.detour.is_none());
            assert_eq!(c.tls.server_name.as_deref(), Some("i"));
            assert_eq!(c.tls.alpn, vec!["h2", "h3"]);
            match c.transport {
                VmessTransportConfig::Ws(ws) => {
                    assert_eq!(ws.path, "/p");
                    assert!(ws.headers.get("Host").is_none());
                    assert_eq!(ws.early_data_header_name.as_deref(), Some("e"));
                    assert_eq!(ws.max_early_data, 9);
                }
                _ => panic!("ws"),
            }
        }
        _ => panic!("vmess"),
    }
    let p = one(
        "proxies:\n  - {name: n, type: vmess, server: s, port: 1, uuid: u, cipher: none, \
         network: grpc}\n",
    );
    match build_outbound(p).unwrap() {
        OutboundConfig::Vmess(c) => {
            assert_eq!(c.security, "none");
            assert!(!c.tls.enabled && c.tls.alpn.is_empty());
            assert!(matches!(c.transport, VmessTransportConfig::Tcp));
        }
        _ => panic!("vmess"),
    }
}

#[test]
fn vless_in_full() {
    let p = one(
        "proxies:\n  - {name: n, type: vless, server: s, port: 1, uuid: u, tls: true, sni: i, \
         skip-cert-verify: true, network: ws, reality-opts: {public-key: k, short-id: d}}\n",
    );
    match build_outbound(p).unwrap() {
        OutboundConfig::Vless(c) => {
            let t = c.tls.unwrap();
            assert!(t.enabled && t.insecure && t.ca_path.is_none() && t.alpn.is_empty());
            let r = t.reality.unwrap();
            assert!(r.enabled);
            assert_eq!((r.public_key.as_str(), r.short_id.as_str()), ("k", "d"));
            match c.transport.unwrap() {
                VlessTransportConfig::Ws(ws) => assert_eq!(ws.path, "/"),
            }
        }
        _ => panic!("vless"),
    }
    let p = one(
        "proxies:\n  - {name: n, type: vless, uuid: u, reality-opts: {public-key: k}}\n",
    );
    match build_outbound(p).unwrap() {
        OutboundConfig::Vless(c) => assert!(c.tls.is_none() && c.transport.is_none()),
        _ => panic!("vless"),
    }
}

#[test]
fn trojan_tls_is_on_unless_turned_off() {
    let p = one("proxies:\n  - {name: n, type: trojan, password: w, tls: false}\n");
    match build_outbound(p).unwrap() {
        OutboundConfig::Trojan(c) => assert!(!c.tls.enabled),
        _ => panic!("trojan"),
    }
}

#[test]
fn hysteria2_rates() {
    let p = one(
        "proxies:\n  - {name: n, type: hy2, password: w, up: \"50 mbps\", down: \"fast\"}\n",
    );
    match build_outbound(p).unwrap() {
        OutboundConfig::Hysteria2(c) => {
            assert_eq!((c.up_mbps, c.down_mbps), (50, 0));
            assert!(c.tls.enabled);
            assert_eq!(c.password, "w");
        }
        _ => panic!("hysteria2"),
    }
}

#[test]
fn tuic_in_full() {
    let p = one("proxies:\n  - {name: n, type: tuic, uuid: u, password: w}\n");
    match build_outbound(p).unwrap() {
        OutboundConfig::Tuic(c) => {
            assert_eq!(c.congestion_control, "cubic");
            assert_eq!(c.udp_relay_mode, "native");
            assert!(c.tls.enabled && !c.zero_rtt_handshake && c.heartbeat.is_none());
        }
        _ => panic!("tuic"),
    }
    let p = one(
        "proxies:\n  - {name: n, type: tuic, uuid: u, password: w, congestion-controller: bbr, \
         udp-relay-mode: quic}\n",
    );
    match build_outbound(p).unwrap() {
        OutboundConfig::Tuic(c) => {
            assert_eq!(c.congestion_control, "bbr");
            assert_eq!(c.udp_relay_mode, "quic");
        }
        _ => panic!("tuic"),
    }
}

#[test]
fn reasons_in_words() {
    for (entry, words) in [
        ("{name: n, type: ss}", "shadowsocks is not yet supported in Reflex (node: n)"),
        ("{name: m, type: shadowsocks}", "shadowsocks is not yet supported in Reflex (node: m)"),
        ("{name: n, type: snell}", "unsupported proxy type: 'snell'"),
        ("{name: n, type: vmess}", "vmess: missing uuid"),
        ("{name: n, type: vless}", "vless: missing uuid"),
        ("{name: n, type: trojan}", "trojan: missing password"),
        ("{name: n, type: hy2}", "hysteria2: missing password"),
        ("{name: n, type: tuic, password: w}", "tuic: missing uuid"),
        ("{name: n, type: tuic, uuid: u}", "tuic: missing password"),
    ] {
        let p = one(&format!("proxies:\n  - {entry}\n"));
        assert_eq!(build_outbound(p).unwrap_err().message(), words);
    }
    let e = parse_clash_yaml(doc("proxies: [")).unwrap_err();
    assert!(matches!(e, ClashError::Yaml(_)));
    assert!(e.message().starts_with("clash yaml parse error: "));
    assert!(parse_clash_yaml(doc("other: 1")).unwrap().is_empty());
}

#[test]
fn entries_keep_their_order() {
    let yaml = "proxies:\n  - {name: a, type: hy2, password: w}\n  - {name: b, type: ss}\n  \
                - {name: c, type: vless, uuid: u}\n  - {name: a, type: hy2, password: w}\n";
    let nodes = parse_clash_yaml(doc(yaml)).unwrap();
    let names: Vec<&str> = nodes.iter().map(|n| n.0.as_str()).collect();
    assert_eq!(names, vec!["a", "c", "a"]);
}

#[test]
fn rates_in_text() {
    assert_eq!(parse_mbps("100 mbps"), Some(100));
    assert_eq!(parse_mbps("100"), Some(100));
    assert_eq!(parse_mbps(" \t\u{3000}7\u{a0}x"), Some(7));
    assert_eq!(parse_mbps("+7"), Some(7));
    assert_eq!(parse_mbps("18446744073709551615"), Some(u64::MAX));
    for bad in ["", "   ", "mbps", "100mbps", "-1", "18446744073709551616", "+", "1.5"] {
        assert_eq!(parse_mbps(bad), None);
    }
}

#[test]
fn tls_and_ws_by_default() {
    let t = build_tls(true, false, None, None);
    assert!(t.enabled && !t.insecure && t.server_name.is_none() && t.alpn.is_empty());
    assert!(t.ca_path.is_none() && t.min_version.is_none() && t.max_version.is_none());
    let ws = build_ws_transport(None);
    assert_eq!(ws.path, "/");
    assert!(ws.headers.pairs().is_empty());
    assert!(ws.early_data_header_name.is_none());
    assert_eq!(ws.max_early_data, 0);
}
