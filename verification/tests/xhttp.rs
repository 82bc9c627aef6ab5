use bytes::Bytes;
use reflex::config::outbound::{TlsConfig, XhttpTransportConfig};
use reflex::headers::HeaderMap;
use reflex::outbound::xhttp::{
    build_http_client, check_status, closed_message, connect, connect_with_session, normalize_path,
    BodyEvent, ReadStep, RequestBody, RespBodyReader, SendEvent, UploadAction, UploadEvent,
    WriteStep, XhttpMode, XhttpShared, XhttpStage, XhttpStream,
};

fn transport() -> XhttpTransportConfig {
    XhttpTransportConfig {
        host: None,
        path: None,
        mode: None,
        headers: HeaderMap::new(),
        sc_max_each_post_bytes: None,
        sc_min_posts_interval_ms: None,
        uplink_http_method: None,
    }
}

fn tls(enabled: bool) -> TlsConfig {
    TlsConfig {
        enabled,
        server_name: Some("sni.example.com".to_string()),
        insecure: true,
        ca_path: Some("/etc/ca.pem".to_string()),
        alpn: vec![],
        min_version: None,
        max_version: None,
    }
}

fn shared(cfg: &XhttpTransportConfig) -> XhttpShared {
    connect_with_session(
        "example.com",
        8443,
        cfg,
        None,
        &HeaderMap::new(),
        Some("sid".to_string()),
    )
}

#[test]
fn test_normalize_path() {
    assert_eq!(normalize_path(""), "/");
    assert_eq!(normalize_path("/"), "/");
    assert_eq!(normalize_path("ws"), "/ws/");
    assert_eq!(normalize_path("/ws"), "/ws/");
    assert_eq!(normalize_path("/ws/"), "/ws/");
    assert_eq!(normalize_path("/a/b"), "/a/b/");
}

#[test]
fn normalizing_twice_changes_nothing() {
    for p in ["", "x", "/x", "x/", "//", "日本"] {
        let once = normalize_path(p);
        assert_eq!(normalize_path(&once), once);
    }
}

#[test]
fn session_ids_are_random_and_well_formed() {
    let a = connect("example.com", 80, &transport(), None, &HeaderMap::new());
    let b = connect("example.com", 80, &transport(), None, &HeaderMap::new());
    let id = a.session_id.unwrap();
    assert_ne!(id, b.session_id.unwrap());
    assert_eq!(id.len(), 36);
    for (i, c) in id.chars().enumerate() {
        match i {
            8 | 13 | 18 | 23 => assert_eq!(c, '-'),
            14 => assert_eq!(c, '4'),
            19 => assert!("89ab".contains(c)),
            _ => assert!(c.is_ascii_digit() || ('a'..='f').contains(&c)),
        }
    }
}

#[test]
fn one_request_needs_no_session() {
    let mut cfg = transport();
    cfg.mode = Some("stream-one".to_string());
    let s = connect("example.com", 80, &cfg, None, &HeaderMap::new());
    assert!(s.session_id.is_none());
    assert_eq!(s.mode, XhttpMode::StreamOne);
    assert_eq!(s.stream_url(), "http://example.com:80/");
    assert_eq!(s.packet_url(7), "http://example.com:80/7");
    let r = s.connect_stream_one();
    assert_eq!(r.method, "POST");
    assert_eq!(r.url, "http://example.com:80/");
    assert!(matches!(r.body, RequestBody::Stream));
}

#[test]
fn modes() {
    let mut cfg = transport();
    for (text, mode) in [
        (None, XhttpMode::PacketUp),
        (Some("packet-up"), XhttpMode::PacketUp),
        (Some("stream-up"), XhttpMode::StreamUp),
        (Some("stream-one"), XhttpMode::StreamOne),
        (Some("anything"), XhttpMode::PacketUp),
    ] {
        cfg.mode = text.map(|t| t.to_string());
        assert_eq!(shared(&cfg).mode, mode);
    }
}

#[test]
fn urls_and_defaults() {
    let mut cfg = transport();
    cfg.path = Some("up".to_string());
    let on = tls(true);
    let s = connect_with_session(
        "example.com",
        443,
        &cfg,
        Some(&on),
        &HeaderMap::new(),
        Some("abc".to_string()),
    );
    assert_eq!(s.base_url, "https://example.com:443/up/");
    assert_eq!(s.stream_url(), "https://example.com:443/up/?session=abc");
    assert_eq!(s.packet_url(0), "https://example.com:443/up/0?session=abc&seq=0");
    assert_eq!(
        s.packet_url(i64::MIN),
        "https://example.com:443/up/-9223372036854775808?session=abc&seq=-9223372036854775808"
    );
    assert_eq!(s.max_post_bytes, 1_000_000);
    assert_eq!(s.min_post_interval_ms, 0);
    assert_eq!(s.headers.get("Host").map(|h| h.as_str()), Some("sni.example.com"));
    let off = tls(false);
    let s = connect_with_session("h", 1, &cfg, Some(&off), &HeaderMap::new(), None);
    assert_eq!(s.base_url, "http://h:1/up/");
    assert_eq!(s.headers.get("Host").map(|h| h.as_str()), Some("sni.example.com"));
}

#[test]
fn headers_that_are_configured_win() {
    let mut cfg = transport();
    cfg.host = Some("front.example.com".to_string());
    cfg.headers.insert("A".to_string(), "configured".to_string());
    let mut extra = HeaderMap::new();
    extra.insert("A".to_string(), "extra".to_string());
    extra.insert("B".to_string(), "extra".to_string());
    let s = connect_with_session("h", 1, &cfg, None, &extra, None);
    assert_eq!(s.headers.get("A").map(|h| h.as_str()), Some("configured"));
    assert_eq!(s.headers.get("B").map(|h| h.as_str()), Some("extra"));
    assert_eq!(s.headers.get("Host").map(|h| h.as_str()), Some("front.example.com"));
    assert_eq!(s.headers.pairs().len(), 3);
    extra.insert("Host".to_string(), "other".to_string());
    let s = connect_with_session("h", 1, &cfg, None, &extra, None);
    assert_eq!(s.headers.get("Host").map(|h| h.as_str()), Some("other"));
    let s = connect_with_session("h", 1, &transport(), None, &HeaderMap::new(), None);
    assert_eq!(s.headers.get("Host").map(|h| h.as_str()), Some("h"));
}

#[test]
fn upload_methods() {
    let mut cfg = transport();
    for (given, used) in [
        (None, "POST"),
        (Some("PUT"), "PUT"),
        (Some("x-custom!#$%&'*+-.^_`|~9"), "x-custom!#$%&'*+-.^_`|~9"),
        (Some("A-RATHER-LONG-METHOD-NAME"), "A-RATHER-LONG-METHOD-NAME"),
        (Some(""), "POST"),
        (Some("TWO WORDS"), "POST"),
        (Some("SLASH/"), "POST"),
        (Some("ä"), "POST"),
    ] {
        cfg.uplink_http_method = given.map(|m| m.to_string());
        assert_eq!(shared(&cfg).upload_method(), used);
    }
}

#[test]
fn stream_up_has_two_requests() {
    let mut cfg = transport();
    cfg.uplink_http_method = Some("PATCH".to_string());
    let (down, up) = shared(&cfg).connect_stream_up_down();
    assert_eq!(down.method, "GET");
    assert!(matches!(down.body, RequestBody::Empty));
    assert_eq!(up.method, "PATCH");
    assert!(matches!(up.body, RequestBody::Stream));
    assert_eq!(down.url, "http://example.com:8443/?session=sid");
    assert_eq!(up.url, down.url);
}

#[test]
fn short_requests_are_numbered() {
    let mut s = shared(&transport());
    for n in 0..3 {
        let (seq, plan) = s.post_packet(Bytes::from_static(b"x"));
        assert_eq!(seq, n);
        assert_eq!(plan.method, "POST");
        assert_eq!(plan.url, format!("http://example.com:8443/{n}?session=sid&seq={n}"));
        assert!(matches!(plan.body, RequestBody::Octets(b) if &b[..] == b"x"));
    }
    s.seq = i64::MAX;
    assert_eq!(s.post_packet(Bytes::new()).0, i64::MAX);
    assert_eq!(s.seq, i64::MIN);
}

#[test]
fn uploads_are_cut_and_whole() {
    let mut cfg = transport();
    cfg.sc_max_each_post_bytes = Some(4);
    cfg.sc_min_posts_interval_ms = Some(30);
    let (down, mut up) = shared(&cfg).connect_packet_up();
    assert_eq!(down.method, "GET");
    let mut sent: Vec<Vec<u8>> = vec![];
    let pieces: [&[u8]; 4] = [b"ab", b"cdefghij", b"", b"k"];
    for piece in pieces {
        let mut action = up.step(UploadEvent::Piece(Bytes::copy_from_slice(piece)), 10);
        while let UploadAction::Post { wait_ms, payload } = action {
            assert_eq!(wait_ms, 20);
            sent.push(payload.to_vec());
            action = up.step(UploadEvent::Posted, 10);
        }
        assert!(matches!(action, UploadAction::Receive));
    }
    assert_eq!(sent, vec![b"abcd".to_vec(), b"efgh".to_vec()]);
    match up.step(UploadEvent::Closed, 10) {
        UploadAction::Post { wait_ms, payload } => {
            assert_eq!(wait_ms, 20);
            sent.push(payload.to_vec());
        }
        _ => panic!("a last request"),
    }
    assert!(matches!(up.step(UploadEvent::Posted, 0), UploadAction::Stop));
    assert_eq!(sent.concat(), pieces.concat());
}

#[test]
fn uploads_stop_on_failure_and_when_empty() {
    let mut cfg = transport();
    cfg.sc_max_each_post_bytes = Some(1);
    let (_, mut up) = shared(&cfg).connect_packet_up();
    match up.step(UploadEvent::Piece(Bytes::from_static(b"xy")), 0) {
        UploadAction::Post { wait_ms, payload } => {
            assert_eq!(wait_ms, 0);
            assert_eq!(&payload[..], b"x");
        }
        _ => panic!("a request"),
    }
    assert!(matches!(up.step(UploadEvent::PostFailed, 0), UploadAction::Stop));
    let (_, mut idle) = shared(&cfg).connect_packet_up();
    assert!(matches!(idle.step(UploadEvent::Closed, 0), UploadAction::Stop));
}

#[test]
fn interval_counts_from_the_last_request() {
    let mut cfg = transport();
    cfg.sc_max_each_post_bytes = Some(1);
    cfg.sc_min_posts_interval_ms = Some(30);
    for (elapsed, wait) in [(0, 30), (29, 1), (30, 0), (99, 0)] {
        let (_, mut up) = shared(&cfg).connect_packet_up();
        match up.step(UploadEvent::Piece(Bytes::from_static(b"x")), elapsed) {
            UploadAction::Post { wait_ms, .. } => assert_eq!(wait_ms, wait),
            _ => panic!("a request"),
        }
    }
}

#[test]
fn interval_holds_for_the_last_request() {
    for (interval, elapsed, wait) in [(30, 0, 30), (30, 29, 1), (30, 30, 0), (0, 0, 0)] {
        let mut cfg = transport();
        cfg.sc_max_each_post_bytes = Some(4);
        cfg.sc_min_posts_interval_ms = Some(interval);
        let (_, mut up) = shared(&cfg).connect_packet_up();
        assert!(matches!(
            up.step(UploadEvent::Piece(Bytes::from_static(b"fullrst")), 99),
            UploadAction::Post { wait_ms: 0, payload } if &payload[..] == b"full"
        ));
        assert!(matches!(up.step(UploadEvent::Posted, 0), UploadAction::Receive));
        match up.step(UploadEvent::Closed, elapsed) {
            UploadAction::Post { wait_ms, payload } => {
                assert_eq!(wait_ms, wait);
                assert_eq!(&payload[..], b"rst");
            }
            _ => panic!("a last request"),
        }
    }
}

#[test]
fn an_only_request_goes_up_at_once() {
    let mut cfg = transport();
    cfg.sc_min_posts_interval_ms = Some(100);
    let (_, mut up) = shared(&cfg).connect_packet_up();
    assert!(matches!(
        up.step(UploadEvent::Piece(Bytes::from_static(b"short")), 0),
        UploadAction::Receive
    ));
    assert!(matches!(
        up.step(UploadEvent::Closed, 0),
        UploadAction::Post { wait_ms: 0, payload } if &payload[..] == b"short"
    ));
}

#[test]
fn reading_keeps_what_does_not_fit() {
    let mut r = RespBodyReader::new();
    assert!(r.read_buffered(10).is_none());
    match r.on_body(BodyEvent::Piece(Bytes::from_static(b"hello world")), 4) {
        ReadStep::Ready(v) => assert_eq!(v, b"hell"),
        _ => panic!("octets"),
    }
    assert_eq!(r.read_buffered(3), Some(b"o w".to_vec()));
    assert_eq!(r.read_buffered(0), Some(vec![]));
    assert_eq!(r.read_buffered(99), Some(b"orld".to_vec()));
    assert!(r.read_buffered(99).is_none());
    match r.on_body(BodyEvent::Piece(Bytes::from_static(b"ab")), 2) {
        ReadStep::Ready(v) => assert_eq!(v, b"ab"),
        _ => panic!("octets"),
    }
    assert!(r.read_buffered(1).is_none());
    assert!(matches!(r.on_body(BodyEvent::Pending, 1), ReadStep::Pending));
    assert!(matches!(r.on_body(BodyEvent::Failed, 1), ReadStep::Failed));
    assert!(matches!(r.on_body(BodyEvent::End, 1), ReadStep::Ready(v) if v.is_empty()));
    assert!(matches!(
        r.on_body(BodyEvent::Piece(Bytes::new()), 1),
        ReadStep::Ready(v) if v.is_empty()
    ));
}

#[test]
fn writing() {
    let mut s = XhttpStream::new();
    assert_eq!(s.chunk(b"data").unwrap(), Bytes::from_static(b"data"));
    assert!(matches!(s.on_sent(SendEvent::Sent, 4), WriteStep::Written(4)));
    assert!(matches!(s.on_sent(SendEvent::Full, 4), WriteStep::Pending));
    assert!(matches!(s.on_sent(SendEvent::Closed, 4), WriteStep::Broken));
    s.shutdown();
    assert!(s.chunk(b"data").is_none());
    assert!(s.chunk(b"").is_none());
    for event in [SendEvent::Sent, SendEvent::Full, SendEvent::Closed] {
        assert!(matches!(s.on_sent(event, 4), WriteStep::Broken));
    }
    assert_eq!(closed_message(), "xhttp: upload channel closed");
}

#[test]
fn statuses() {
    for code in [200, 204, 299] {
        assert!(check_status(XhttpStage::StreamOne, code, "x".to_string()).is_ok());
    }
    for (stage, text) in [
        (XhttpStage::StreamOne, "xhttp stream-one: server returned 404 Not Found"),
        (XhttpStage::StreamDown, "xhttp stream-down: server returned 404 Not Found"),
        (XhttpStage::PacketDown, "xhttp packet-up/stream-down: server returned 404 Not Found"),
        (XhttpStage::PacketPost(12), "xhttp packet POST 12: server returned 404 Not Found"),
    ] {
        let e = check_status(stage, 404, "404 Not Found".to_string()).unwrap_err();
        assert_eq!(e.message(), text);
    }
    assert!(check_status(XhttpStage::StreamOne, 199, String::new()).is_err());
    assert!(check_status(XhttpStage::StreamOne, 300, String::new()).is_err());
}

#[test]
fn client_plans() {
    let cfg = transport();
    let plain = build_http_client(None, &cfg);
    assert!(plain.tcp_nodelay && !plain.accept_invalid_certs && plain.ca_path.is_none());
    assert_eq!(plain.pool_max_idle_per_host, 16);
    let off = build_http_client(Some(&tls(false)), &cfg);
    assert!(!off.accept_invalid_certs && off.ca_path.is_none());
    let on = build_http_client(Some(&tls(true)), &cfg);
    assert!(on.accept_invalid_certs);
    assert_eq!(on.ca_path.as_deref(), Some("/etc/ca.pem"));
}
