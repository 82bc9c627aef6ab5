//! The XHTTP transport: a stream in both directions over HTTP requests.
//!
//! What comes down is the body of one long response. What goes up is the body of one long request
//! (`stream-one`, `stream-up`) or of many short ones (`packet-up`, the default). A session id ties
//! the requests of one stream together.
use bytes::Bytes;
use vstd::prelude::*;

use crate::buf::{bytes_contents, bytes_of, bytes_skip, bytes_slice};
use crate::config::outbound::{TlsConfig, XhttpTransportConfig};
use crate::headers::HeaderMap;
use crate::text::{
    decimal, law_signed_numerals_differ, lemma_signed_chars, push_numeral, push_signed,
    signed_decimal, str_eq,
};

verus! {

/// Where the octets that go up go.
#[derive(Debug, Clone, Copy, PartialEq, Eq, Structural)]
pub enum XhttpMode {
    /// Into the body of one request, whose response is what comes down.
    StreamOne,
    /// Into the body of one request.
    StreamUp,
    /// Into the bodies of many requests.
    PacketUp,
}

/// How to make the HTTP client.
#[derive(Debug)]
pub struct ClientPlan {
    pub tcp_nodelay: bool,
    pub pool_max_idle_per_host: usize,
    /// Whether any certificate will do.
    pub accept_invalid_certs: bool,
    /// A file with a certificate to trust.
    pub ca_path: Option<String>,
}

/// What the requests of a stream have in common.
#[derive(Debug)]
pub struct XhttpShared {
    pub client: ClientPlan,
    pub mode: XhttpMode,
    pub base_url: String,
    pub session_id: Option<String>,
    pub headers: HeaderMap,
    /// The number of the next short request.
    pub seq: i64,
    /// The most octets in a short request.
    pub max_post_bytes: usize,
    /// The least milliseconds between two short requests; zero stands for no limit.
    pub min_post_interval_ms: u64,
    /// The method of requests that go up, as configured.
    pub uplink_method: String,
}

/// What a request carries.
pub enum RequestBody {
    Empty,
    /// What goes up, as it comes.
    Stream,
    Octets(Bytes),
}

/// A request. The headers are those that all requests of the stream have.
pub struct RequestPlan {
    pub method: String,
    pub url: String,
    pub body: RequestBody,
}

/// `Uuid::new_v4` of the crate `uuid` draws a random id, and `to_string` writes it: groups of 8,
/// 4, 4, 4 and 12 lower-case hexadecimal digits with hyphens between them, of which the first of
/// the third group is the version 4 and the first of the fourth group tells the variant. Which id
/// it is, is left to chance. It panics where the system has no random octets to give.
#[verifier::external_body]
fn random_session_id() -> (r: String)
    ensures
        session_id_form(r@),
{
    uuid::Uuid::new_v4().to_string()
}

/// Whether a text has the form of a random id.
pub open spec fn session_id_form(s: Seq<char>) -> bool {
    &&& s.len() == 36
    &&& forall|i: int|
        0 <= i < 36 ==> if i == 8 || i == 13 || i == 18 || i == 23 {
            #[trigger] s[i] == '-'
        } else {
            '0' <= s[i] <= '9' || 'a' <= s[i] <= 'f'
        }
    &&& s[14] == '4'
    &&& s[19] == '8' || s[19] == '9' || s[19] == 'a' || s[19] == 'b'
}

/// Whether a character may stand in the name of an HTTP method.
pub open spec fn method_char(c: char) -> bool {
    ||| '0' <= c <= '9'
    ||| 'A' <= c <= 'Z'
    ||| 'a' <= c <= 'z'
    ||| c == '!'
    ||| '#' <= c <= '\''
    ||| c == '*'
    ||| c == '+'
    ||| c == '-'
    ||| c == '.'
    ||| '^' <= c <= '`'
    ||| c == '|'
    ||| c == '~'
}

/// Whether a text is the name of an HTTP method.
pub open spec fn method_name(s: Seq<char>) -> bool {
    s.len() > 0 && forall|i: int| 0 <= i < s.len() ==> method_char(#[trigger] s[i])
}

/// `Method::from_bytes` of the crate `reqwest` makes a method of a name that has at least one
/// character and only such as RFC 9110 allows in a token, and of no other. `as_str` gives the name
/// back.
#[verifier::external_body]
fn http_method(name: &str) -> (r: Option<String>)
    ensures
        r is Some <==> method_name(name@),
        r matches Some(m) ==> m@ == name@,
{
    match reqwest::Method::from_bytes(name.as_bytes()) {
        Ok(m) => Some(m.as_str().to_owned()),
        Err(_) => None,
    }
}

/// A path that starts and ends with a slash.
pub open spec fn slashed(path: Seq<char>) -> Seq<char> {
    let p = if path.len() > 0 && path[0] == '/' {
        path
    } else {
        seq!['/'] + path
    };
    if p.last() == '/' {
        p
    } else {
        p.push('/')
    }
}

/// Makes a path start and end with a slash.
pub fn normalize_path(path: &str) -> (r: String)
    ensures
        r@ == slashed(path@),
{
    let chars = crate::text::chars_of(path);
    let mut out: String = String::new();
    if chars.len() == 0 || chars[0] != '/' {
        out.push('/');
    }
    out.append(path);
    assert(path@.len() == 0 || path@[0] != '/' ==> out@ =~= seq!['/'] + path@);
    assert(path@.len() > 0 && path@[0] == '/' ==> out@ =~= path@);
    if chars.len() > 0 && chars[chars.len() - 1] != '/' {
        out.push('/');
    }
    out
}

/// A path that was made to start and end with a slash does so, and making it so again changes
/// nothing.
pub proof fn law_slashed_is_stable(path: Seq<char>)
    ensures
        slashed(path).len() > 0,
        slashed(path)[0] == '/',
        slashed(path).last() == '/',
        slashed(slashed(path)) == slashed(path),
{
}

/// The mode that a configuration asks for.
pub open spec fn chosen_mode(cfg: XhttpTransportConfig) -> XhttpMode {
    match cfg.mode {
        Some(m) => if m@ == "stream-one"@ {
            XhttpMode::StreamOne
        } else if m@ == "stream-up"@ {
            XhttpMode::StreamUp
        } else {
            XhttpMode::PacketUp
        },
        None => XhttpMode::PacketUp,
    }
}

/// Whether TLS is on.
pub open spec fn tls_on(tls: Option<&TlsConfig>) -> bool {
    tls matches Some(t) && t.enabled
}

/// The host that requests are for: the configured one, else the server name of TLS, else the
/// server.
pub open spec fn host_of(
    server: Seq<char>,
    cfg: XhttpTransportConfig,
    tls: Option<&TlsConfig>,
) -> Seq<char> {
    match cfg.host {
        Some(h) => h@,
        None => match tls {
            Some(t) => match t.server_name {
                Some(n) => n@,
                None => server,
            },
            None => server,
        },
    }
}

/// The URL that the URLs of all requests start with.
pub open spec fn base_url_of(
    server: Seq<char>,
    port: u16,
    cfg: XhttpTransportConfig,
    tls: Option<&TlsConfig>,
) -> Seq<char> {
    (if tls_on(tls) {
        "https"@
    } else {
        "http"@
    }) + "://"@ + server + ":"@ + decimal(port as nat) + slashed(
        match cfg.path {
            Some(p) => p@,
            None => "/"@,
        },
    )
}

/// The headers of all requests: the configured ones, then the extra ones, then the host, where
/// they are not set yet.
pub open spec fn headers_of(
    cfg: XhttpTransportConfig,
    extra: Map<Seq<char>, Seq<char>>,
    host: Seq<char>,
) -> Map<Seq<char>, Seq<char>> {
    let m = extra.union_prefer_right(cfg.headers@);
    if m.contains_key("Host"@) {
        m
    } else {
        m.insert("Host"@, host)
    }
}

/// The file with a certificate to trust, where TLS is on and names one.
pub open spec fn trusted_file(tls: Option<&TlsConfig>) -> Option<Seq<char>> {
    match tls {
        Some(t) => match t.ca_path {
            Some(p) => if t.enabled {
                Some(p@)
            } else {
                None
            },
            None => None,
        },
        None => None,
    }
}

/// Whether this is how to make the client.
pub open spec fn is_client_plan(c: ClientPlan, tls: Option<&TlsConfig>) -> bool {
    &&& c.tcp_nodelay
    &&& c.pool_max_idle_per_host == 16
    &&& c.accept_invalid_certs == (tls matches Some(t) && t.enabled && t.insecure)
    &&& match c.ca_path {
        Some(p) => trusted_file(tls) == Some(p@),
        None => trusted_file(tls) is None,
    }
}

/// How to make the HTTP client.
pub fn build_http_client(tls: Option<&TlsConfig>, _cfg: &XhttpTransportConfig) -> (r: ClientPlan)
    ensures
        is_client_plan(r, tls),
{
    let mut accept_invalid_certs = false;
    let mut ca_path: Option<String> = None;
    if let Some(t) = tls {
        if t.enabled {
            if t.insecure {
                accept_invalid_certs = true;
            }
            if let Some(p) = &t.ca_path {
                ca_path = Some(p.clone());
            }
        }
    }
    ClientPlan { tcp_nodelay: true, pool_max_idle_per_host: 16, accept_invalid_certs, ca_path }
}

/// Whether this is what the requests of a stream have in common, but for the session id.
pub open spec fn is_shared(
    s: XhttpShared,
    server: Seq<char>,
    port: u16,
    cfg: XhttpTransportConfig,
    tls: Option<&TlsConfig>,
    extra: Map<Seq<char>, Seq<char>>,
) -> bool {
    &&& is_client_plan(s.client, tls)
    &&& s.mode == chosen_mode(cfg)
    &&& s.base_url@ == base_url_of(server, port, cfg, tls)
    &&& s.headers@ == headers_of(cfg, extra, host_of(server, cfg, tls))
    &&& s.seq == 0
    &&& s.max_post_bytes == match cfg.sc_max_each_post_bytes {
        Some(n) => n as int,
        None => 1_000_000,
    }
    &&& s.min_post_interval_ms == match cfg.sc_min_posts_interval_ms {
        Some(n) => n,
        None => 0,
    }
    &&& s.uplink_method@ == match cfg.uplink_http_method {
        Some(m) => m@,
        None => "POST"@,
    }
}

/// The mode that a configuration asks for.
fn choose_mode(cfg: &XhttpTransportConfig) -> (r: XhttpMode)
    ensures
        r == chosen_mode(*cfg),
{
    match &cfg.mode {
        Some(m) => if str_eq(m.as_str(), "stream-one") {
            XhttpMode::StreamOne
        } else if str_eq(m.as_str(), "stream-up") {
            XhttpMode::StreamUp
        } else {
            XhttpMode::PacketUp
        },
        None => XhttpMode::PacketUp,
    }
}

/// The host that requests are for.
fn choose_host<'a>(
    server: &'a str,
    cfg: &'a XhttpTransportConfig,
    tls: Option<&'a TlsConfig>,
) -> (r: &'a str)
    ensures
        r@ == host_of(server@, *cfg, tls),
{
    if let Some(h) = &cfg.host {
        return h.as_str();
    }
    if let Some(t) = tls {
        if let Some(n) = &t.server_name {
            return n.as_str();
        }
    }
    server
}

/// The URL that the URLs of all requests start with.
fn build_base_url(
    server: &str,
    port: u16,
    cfg: &XhttpTransportConfig,
    tls: Option<&TlsConfig>,
) -> (r: String)
    ensures
        r@ == base_url_of(server@, port, *cfg, tls),
{
    let tls_enabled = match tls {
        Some(t) => t.enabled,
        None => false,
    };
    let mut out: String = if tls_enabled {
        "https".to_owned()
    } else {
        "http".to_owned()
    };
    out.append("://");
    out.append(server);
    out.append(":");
    push_numeral(&mut out, port as u64, 10);
    let path = match &cfg.path {
        Some(p) => normalize_path(p.as_str()),
        None => normalize_path("/"),
    };
    out.append(path.as_str());
    out
}

/// Sets up a stream with the given session id.
pub fn connect_with_session(
    server: &str,
    port: u16,
    cfg: &XhttpTransportConfig,
    tls: Option<&TlsConfig>,
    extra_headers: &HeaderMap,
    session_id: Option<String>,
) -> (r: XhttpShared)
    ensures
        is_shared(r, server@, port, *cfg, tls, extra_headers@),
        r.session_id == session_id,
{
    let host = choose_host(server, cfg, tls);
    let mut headers = cfg.headers.copy();
    headers.extend_absent(extra_headers);
    headers.insert_if_absent("Host", host);
    let max_post_bytes: usize = match cfg.sc_max_each_post_bytes {
        Some(n) => n as usize,
        None => 1_000_000,
    };
    let min_post_interval_ms: u64 = match cfg.sc_min_posts_interval_ms {
        Some(n) => n,
        None => 0,
    };
    let uplink_method: String = match &cfg.uplink_http_method {
        Some(m) => m.clone(),
        None => "POST".to_owned(),
    };
    XhttpShared {
        client: build_http_client(tls, cfg),
        mode: choose_mode(cfg),
        base_url: build_base_url(server, port, cfg, tls),
        session_id,
        headers,
        seq: 0,
        max_post_bytes,
        min_post_interval_ms,
        uplink_method,
    }
}

/// Sets up a stream. It gets a session id of its own, unless it goes over one request.
pub fn connect(
    server: &str,
    port: u16,
    cfg: &XhttpTransportConfig,
    tls: Option<&TlsConfig>,
    extra_headers: &HeaderMap,
) -> (r: XhttpShared)
    ensures
        is_shared(r, server@, port, *cfg, tls, extra_headers@),
        r.session_id is None <==> chosen_mode(*cfg) is StreamOne,
        r.session_id matches Some(id) ==> session_id_form(id@),
{
    let session_id: Option<String> = match choose_mode(cfg) {
        XhttpMode::StreamOne => None,
        _ => Some(random_session_id()),
    };
    connect_with_session(server, port, cfg, tls, extra_headers, session_id)
}

/// The URL of a long request.
pub open spec fn stream_url_of(base: Seq<char>, session_id: Option<String>) -> Seq<char> {
    match session_id {
        Some(id) => base + "?session="@ + id@,
        None => base,
    }
}

/// The URL of the short request with the given number.
pub open spec fn packet_url_of(base: Seq<char>, session_id: Option<String>, seq: int) -> Seq<char> {
    match session_id {
        Some(id) => base + signed_decimal(seq) + "?session="@ + id@ + "&seq="@ + signed_decimal(
            seq,
        ),
        None => base + signed_decimal(seq),
    }
}

/// No two short requests of a stream have the same URL.
pub proof fn law_packet_urls_differ(base: Seq<char>, session_id: Option<String>, a: int, b: int)
    requires
        packet_url_of(base, session_id, a) == packet_url_of(base, session_id, b),
    ensures
        a == b,
{
    let x = signed_decimal(a);
    let y = signed_decimal(b);
    let u = packet_url_of(base, session_id, a);
    lemma_signed_chars(a, '?');
    lemma_signed_chars(b, '?');
    assert(x == y) by {
        match session_id {
            Some(id) => {
                reveal_strlit("?session=");
                let r = "?session="@ + id@ + "&seq="@;
                assert(u.skip(base.len() as int) =~= x + seq!['?'] + (r + x).skip(1));
                assert(u.skip(base.len() as int) =~= y + seq!['?'] + (r + y).skip(1));
                lemma_same_head(x, (r + x).skip(1), y, (r + y).skip(1), '?');
            },
            None => {
                assert(u.skip(base.len() as int) =~= x);
                assert(u.skip(base.len() as int) =~= y);
            },
        }
    }
    law_signed_numerals_differ(a, b);
}

/// What stands before the first `c` of a text.
proof fn lemma_same_head(x: Seq<char>, p: Seq<char>, y: Seq<char>, q: Seq<char>, c: char)
    requires
        x + seq![c] + p == y + seq![c] + q,
        forall|i: int| 0 <= i < x.len() ==> x[i] != c,
        forall|i: int| 0 <= i < y.len() ==> y[i] != c,
    ensures
        x == y,
{
    let s = x + seq![c] + p;
    assert(s[x.len() as int] == c);
    assert(s[y.len() as int] == c);
    if x.len() < y.len() {
        assert(s[x.len() as int] == y[x.len() as int]);
    } else if y.len() < x.len() {
        assert(s[y.len() as int] == x[y.len() as int]);
    }
    assert forall|i: int| 0 <= i < x.len() implies x[i] == y[i] by {
        assert(s[i] == x[i] && s[i] == y[i]);
    }
    assert(x =~= y);
}

/// The method of requests that go up: the configured one, or POST where that is no method.
pub open spec fn upload_method_of(configured: Seq<char>) -> Seq<char> {
    if method_name(configured) {
        configured
    } else {
        "POST"@
    }
}

/// The number after a number; the last is followed by the first.
pub open spec fn seq_after(n: i64) -> i64 {
    if n == i64::MAX {
        i64::MIN
    } else {
        (n + 1) as i64
    }
}

impl XhttpShared {
    /// The URL of a long request.
    pub fn stream_url(&self) -> (r: String)
        ensures
            r@ == stream_url_of(self.base_url@, self.session_id),
    {
        let mut out = self.base_url.clone();
        if let Some(id) = &self.session_id {
            out.append("?session=");
            out.append(id.as_str());
        }
        out
    }

    /// The URL of the short request with the given number.
    pub fn packet_url(&self, seq: i64) -> (r: String)
        ensures
            r@ == packet_url_of(self.base_url@, self.session_id, seq as int),
    {
        let mut out = self.base_url.clone();
        push_signed(&mut out, seq);
        if let Some(id) = &self.session_id {
            out.append("?session=");
            out.append(id.as_str());
            out.append("&seq=");
            push_signed(&mut out, seq);
        }
        out
    }

    /// The method of requests that go up.
    pub fn upload_method(&self) -> (r: String)
        ensures
            r@ == upload_method_of(self.uplink_method@),
    {
        match http_method(self.uplink_method.as_str()) {
            Some(m) => m,
            None => "POST".to_owned(),
        }
    }

    /// The long request whose response is what comes down.
    fn down_request(&self) -> (r: RequestPlan)
        ensures
            r.method@ == "GET"@,
            r.url@ == stream_url_of(self.base_url@, self.session_id),
            r.body is Empty,
    {
        RequestPlan { method: "GET".to_owned(), url: self.stream_url(), body: RequestBody::Empty }
    }

    /// The long request that takes what goes up.
    fn up_request(&self) -> (r: RequestPlan)
        ensures
            r.method@ == upload_method_of(self.uplink_method@),
            r.url@ == stream_url_of(self.base_url@, self.session_id),
            r.body is Stream,
    {
        RequestPlan {
            method: self.upload_method(),
            url: self.stream_url(),
            body: RequestBody::Stream,
        }
    }

    /// The request of the mode `stream-one`: it takes what goes up, and its response is what comes
    /// down.
    pub fn connect_stream_one(&self) -> (r: RequestPlan)
        ensures
            r.method@ == upload_method_of(self.uplink_method@),
            r.url@ == stream_url_of(self.base_url@, self.session_id),
            r.body is Stream,
    {
        self.up_request()
    }

    /// The requests of the mode `stream-up`: the one for what comes down, which must succeed, then
    /// the one for what goes up.
    pub fn connect_stream_up_down(&self) -> (r: (RequestPlan, RequestPlan))
        ensures
            r.0.method@ == "GET"@,
            r.0.url@ == stream_url_of(self.base_url@, self.session_id),
            r.0.body is Empty,
            r.1.method@ == upload_method_of(self.uplink_method@),
            r.1.url@ == stream_url_of(self.base_url@, self.session_id),
            r.1.body is Stream,
    {
        (self.down_request(), self.up_request())
    }

    /// The request of the mode `packet-up` for what comes down, and the cutter of what goes up.
    pub fn connect_packet_up(&self) -> (r: (RequestPlan, PacketUploader))
        ensures
            r.0.method@ == "GET"@,
            r.0.url@ == stream_url_of(self.base_url@, self.session_id),
            r.0.body is Empty,
            r.1@ == (UploadState {
                buf: Seq::empty(),
                max: self.max_post_bytes as nat,
                interval: self.min_post_interval_ms,
                posted: false,
                closing: false,
            }),
    {
        let uploader = PacketUploader {
            buf: Vec::new(),
            max_post_bytes: self.max_post_bytes,
            min_post_interval_ms: self.min_post_interval_ms,
            posted: false,
            closing: false,
        };
        (self.down_request(), uploader)
    }

    /// The next short request, which takes the given octets, and its number.
    pub fn post_packet(&mut self, payload: Bytes) -> (r: (i64, RequestPlan))
        ensures
            r.0 == old(self).seq,
            r.1.method@ == upload_method_of(old(self).uplink_method@),
            r.1.url@ == packet_url_of(
                old(self).base_url@,
                old(self).session_id,
                old(self).seq as int,
            ),
            r.1.body == RequestBody::Octets(payload),
            *final(self) == (XhttpShared { seq: seq_after(old(self).seq), ..*old(self) }),
    {
        let seq = self.seq;
        self.seq = if seq == i64::MAX {
            i64::MIN
        } else {
            seq + 1
        };
        let plan = RequestPlan {
            method: self.upload_method(),
            url: self.packet_url(seq),
            body: RequestBody::Octets(payload),
        };
        (seq, plan)
    }
}

/// Which request a server refused.
#[derive(Debug, Clone, Copy, PartialEq, Eq, Structural)]
pub enum XhttpStage {
    StreamOne,
    StreamDown,
    PacketDown,
    /// A short request, by its number.
    PacketPost(i64),
}

/// A server refused a request.
#[derive(Debug)]
pub struct XhttpRefused {
    pub stage: XhttpStage,
    /// The status in words.
    pub status: String,
}

impl XhttpRefused {
    /// The error in words.
    pub open spec fn spec_message(self) -> Seq<char> {
        match self.stage {
            XhttpStage::StreamOne => "xhttp stream-one: server returned "@ + self.status@,
            XhttpStage::StreamDown => "xhttp stream-down: server returned "@ + self.status@,
            XhttpStage::PacketDown => "xhttp packet-up/stream-down: server returned "@
                + self.status@,
            XhttpStage::PacketPost(n) => "xhttp packet POST "@ + signed_decimal(n as int)
                + ": server returned "@ + self.status@,
        }
    }

    /// The error in words.
    pub fn message(&self) -> (r: String)
        ensures
            r@ == self.spec_message(),
    {
        let mut out: String = match self.stage {
            XhttpStage::StreamOne => "xhttp stream-one: server returned ".to_owned(),
            XhttpStage::StreamDown => "xhttp stream-down: server returned ".to_owned(),
            XhttpStage::PacketDown => "xhttp packet-up/stream-down: server returned ".to_owned(),
            XhttpStage::PacketPost(n) => {
                let mut head = "xhttp packet POST ".to_owned();
                push_signed(&mut head, n);
                head.append(": server returned ");
                head
            },
        };
        out.append(self.status.as_str());
        out
    }
}

/// Takes a response by its status, a number and the same in words: those from 200 to 299 tell
/// success.
pub fn check_status(stage: XhttpStage, code: u16, status: String) -> (r: Result<(), XhttpRefused>)
    ensures
        r == if 200 <= code < 300 {
            Ok::<(), XhttpRefused>(())
        } else {
            Err(XhttpRefused { stage, status })
        },
{
    if 200 <= code && code < 300 {
        Ok(())
    } else {
        Err(XhttpRefused { stage, status })
    }
}

/// Cuts what goes up into short requests.
pub struct PacketUploader {
    /// What has not been sent.
    pub buf: Vec<u8>,
    /// The octets in each request but the last.
    pub max_post_bytes: usize,
    /// The least milliseconds between two requests; zero stands for no limit.
    pub min_post_interval_ms: u64,
    /// Whether there was a request.
    pub posted: bool,
    /// Whether the last request is on its way.
    pub closing: bool,
}

/// What moves the uploader.
pub enum UploadEvent {
    /// Octets that are to go up.
    Piece(Bytes),
    /// Nothing more is to go up.
    Closed,
    /// A request succeeded.
    Posted,
    /// A request failed.
    PostFailed,
}

/// What the uploader wants done.
pub enum UploadAction {
    /// Wait for the next piece.
    Receive,
    /// Wait for some milliseconds, then send a short request with these octets.
    Post { wait_ms: u64, payload: Bytes },
    /// Nothing more.
    Stop,
}

/// What the uploader wants done, as a mathematical object.
pub enum UploadModel {
    Receive,
    Post { wait_ms: u64, payload: Seq<u8> },
    Stop,
}

impl UploadAction {
    /// What the uploader wants done.
    pub open spec fn model(self) -> UploadModel {
        match self {
            UploadAction::Receive => UploadModel::Receive,
            UploadAction::Post { wait_ms, payload } => UploadModel::Post {
                wait_ms,
                payload: bytes_contents(payload),
            },
            UploadAction::Stop => UploadModel::Stop,
        }
    }
}

/// Milliseconds to wait before a request, when so many have passed since the last one.
pub open spec fn wait_for(interval: u64, elapsed_ms: u64) -> u64 {
    if elapsed_ms < interval {
        (interval - elapsed_ms) as u64
    } else {
        0
    }
}

/// An uploader, as a mathematical object.
pub struct UploadState {
    /// What has not been sent.
    pub buf: Seq<u8>,
    /// The octets in each request but the last.
    pub max: nat,
    /// The least milliseconds between two requests.
    pub interval: u64,
    /// Whether there was a request.
    pub posted: bool,
    /// Whether the last request is on its way.
    pub closing: bool,
}

impl View for PacketUploader {
    type V = UploadState;

    open spec fn view(&self) -> UploadState {
        UploadState {
            buf: self.buf@,
            max: self.max_post_bytes as nat,
            interval: self.min_post_interval_ms,
            posted: self.posted,
            closing: self.closing,
        }
    }
}

impl UploadState {
    /// Cuts a request from what waits, once there is enough for one. Gives what then holds, and
    /// what to do.
    pub open spec fn cut(self, elapsed_ms: u64) -> (UploadState, UploadModel) {
        if self.buf.len() >= self.max {
            (
                UploadState { buf: self.buf.skip(self.max as int), posted: true, ..self },
                UploadModel::Post {
                    wait_ms: wait_for(self.interval, elapsed_ms),
                    payload: self.buf.take(self.max as int),
                },
            )
        } else {
            (self, UploadModel::Receive)
        }
    }

    /// What holds after an event, and what to do, when so many milliseconds have passed since the
    /// last request, or, before the first, since the upload began. What is left at the end goes up
    /// at once where there was no request before it.
    pub open spec fn after(self, event: UploadEvent, elapsed_ms: u64) -> (
        UploadState,
        UploadModel,
    ) {
        match event {
            UploadEvent::Piece(b) => UploadState {
                buf: self.buf + bytes_contents(b),
                ..self
            }.cut(elapsed_ms),
            UploadEvent::Posted => if self.closing {
                (self, UploadModel::Stop)
            } else {
                self.cut(elapsed_ms)
            },
            UploadEvent::PostFailed => (self, UploadModel::Stop),
            UploadEvent::Closed => (
                UploadState {
                    buf: Seq::empty(),
                    posted: self.posted || self.buf.len() > 0,
                    closing: true,
                    ..self
                },
                if self.buf.len() > 0 {
                    UploadModel::Post {
                        wait_ms: if self.posted {
                            wait_for(self.interval, elapsed_ms)
                        } else {
                            0
                        },
                        payload: self.buf,
                    }
                } else {
                    UploadModel::Stop
                },
            ),
        }
    }

    /// What holds after events, each with the milliseconds since the last request.
    pub open spec fn after_all(self, events: Seq<(UploadEvent, u64)>) -> UploadState
        decreases events.len(),
    {
        if events.len() == 0 {
            self
        } else {
            self.after_all(events.drop_last()).after(events.last().0, events.last().1).0
        }
    }

    /// The octets that went up on events, in order.
    pub open spec fn sent(self, events: Seq<(UploadEvent, u64)>) -> Seq<u8>
        decreases events.len(),
    {
        if events.len() == 0 {
            Seq::empty()
        } else {
            self.sent(events.drop_last()) + sent_by(
                self.after_all(events.drop_last()).after(events.last().0, events.last().1).1,
            )
        }
    }
}

impl PacketUploader {
    /// Milliseconds to wait before a request.
    fn wait(&self, elapsed_ms: u64) -> (r: u64)
        ensures
            r == wait_for(self.min_post_interval_ms, elapsed_ms),
    {
        if elapsed_ms < self.min_post_interval_ms {
            self.min_post_interval_ms - elapsed_ms
        } else {
            0
        }
    }

    /// Cuts a request from what waits, once there is enough for one.
    fn cut(&mut self, elapsed_ms: u64) -> (r: UploadAction)
        ensures
            (final(self)@, r.model()) == old(self)@.cut(elapsed_ms),
    {
        let n = self.max_post_bytes;
        let len = self.buf.len();
        if len < n {
            return UploadAction::Receive;
        }
        let wait_ms = self.wait(elapsed_ms);
        let all = self.buf.as_slice();
        let payload = vstd::slice::slice_to_vec(vstd::slice::slice_subrange(all, 0, n));
        let rest = vstd::slice::slice_to_vec(vstd::slice::slice_subrange(all, n, len));
        assert(payload@ =~= self.buf@.take(n as int));
        assert(rest@ =~= self.buf@.skip(n as int));
        self.buf = rest;
        self.posted = true;
        UploadAction::Post { wait_ms, payload: bytes_of(payload) }
    }

    /// Decides what to do after an event, when so many milliseconds have passed since the last
    /// request, or, before the first, since the upload began.
    pub fn step(&mut self, event: UploadEvent, elapsed_ms: u64) -> (r: UploadAction)
        ensures
            (final(self)@, r.model()) == old(self)@.after(event, elapsed_ms),
    {
        match event {
            UploadEvent::Piece(b) => {
                self.buf.extend_from_slice(bytes_slice(&b));
                assert(self.buf@ =~= old(self).buf@ + bytes_contents(b));
                self.cut(elapsed_ms)
            },
            UploadEvent::Posted => if self.closing {
                UploadAction::Stop
            } else {
                self.cut(elapsed_ms)
            },
            UploadEvent::PostFailed => UploadAction::Stop,
            UploadEvent::Closed => {
                self.closing = true;
                if self.buf.len() > 0 {
                    let mut rest: Vec<u8> = Vec::new();
                    std::mem::swap(&mut rest, &mut self.buf);
                    assert(self.buf@ =~= Seq::<u8>::empty());
                    let wait_ms: u64 = if self.posted {
                        self.wait(elapsed_ms)
                    } else {
                        0
                    };
                    self.posted = true;
                    UploadAction::Post { wait_ms, payload: bytes_of(rest) }
                } else {
                    assert(self.buf@ =~= Seq::<u8>::empty());
                    UploadAction::Stop
                }
            },
        }
    }
}

/// The octets that an event brings.
pub open spec fn brought(event: UploadEvent) -> Seq<u8> {
    match event {
        UploadEvent::Piece(b) => bytes_contents(b),
        _ => Seq::empty(),
    }
}

/// The octets that an action sends.
pub open spec fn sent_by(action: UploadModel) -> Seq<u8> {
    match action {
        UploadModel::Post { payload, .. } => payload,
        _ => Seq::empty(),
    }
}

/// The octets that events bring, in order.
pub open spec fn brought_by(events: Seq<(UploadEvent, u64)>) -> Seq<u8>
    decreases events.len(),
{
    if events.len() == 0 {
        Seq::empty()
    } else {
        brought_by(events.drop_last()) + brought(events.last().0)
    }
}

/// No step loses, adds or reorders octets: what it sends and what then waits make up what waited
/// and what came.
pub proof fn law_step_loses_nothing(u: UploadState, event: UploadEvent, elapsed_ms: u64)
    ensures
        ({
            let (next, action) = u.after(event, elapsed_ms);
            sent_by(action) + next.buf == u.buf + brought(event)
        }),
{
    let (next, action) = u.after(event, elapsed_ms);
    assert(sent_by(action) + next.buf =~= u.buf + brought(event));
}

/// What goes up arrives whole: whatever events come, the octets that were sent and those that wait
/// make up those that waited at first and those that came, in order.
pub proof fn law_upload_loses_nothing(u: UploadState, events: Seq<(UploadEvent, u64)>)
    ensures
        u.sent(events) + u.after_all(events).buf == u.buf + brought_by(events),
    decreases events.len(),
{
    if events.len() == 0 {
        assert(u.sent(events) + u.after_all(events).buf =~= u.buf + brought_by(events));
    } else {
        let before = events.drop_last();
        let (event, elapsed_ms) = events.last();
        let mid = u.after_all(before);
        let (next, action) = mid.after(event, elapsed_ms);
        law_upload_loses_nothing(u, before);
        law_step_loses_nothing(mid, event, elapsed_ms);
        assert((u.sent(before) + sent_by(action)) + next.buf =~= u.sent(before) + (sent_by(action)
            + next.buf));
        assert(u.sent(before) + (mid.buf + brought(event)) =~= (u.sent(before) + mid.buf) + brought(
            event,
        ));
        assert((u.buf + brought_by(before)) + brought(event) =~= u.buf + (brought_by(before)
            + brought(event)));
    }
}

/// Once nothing more is to go up, all that came has been sent.
pub proof fn law_closing_sends_all(
    u: UploadState,
    events: Seq<(UploadEvent, u64)>,
    elapsed_ms: u64,
)
    ensures
        u.sent(events.push((UploadEvent::Closed, elapsed_ms))) == u.buf + brought_by(events),
{
    let all = events.push((UploadEvent::Closed, elapsed_ms));
    law_upload_loses_nothing(u, all);
    assert(all.drop_last() =~= events);
    assert(u.after_all(all).buf =~= Seq::<u8>::empty());
    assert(u.sent(all) + Seq::<u8>::empty() =~= u.sent(all));
    assert(brought_by(events) + Seq::<u8>::empty() =~= brought_by(events));
}

/// Every request but the last has the full size, and a piece is only waited for when there is not
/// enough for a request.
pub proof fn law_requests_are_full(u: UploadState, event: UploadEvent, elapsed_ms: u64)
    requires
        event !is Closed,
    ensures
        ({
            let (next, action) = u.after(event, elapsed_ms);
            &&& action matches UploadModel::Post { payload, .. } ==> payload.len() == u.max
            &&& action is Receive ==> next.buf.len() < u.max
        }),
{
}

/// Any two requests are at least the interval apart, the last one too: what has passed since the
/// one before and what is still waited for make it up. Without an interval there is no wait, nor
/// for what is left at the end where there was no request before it.
pub proof fn law_requests_keep_the_interval(u: UploadState, event: UploadEvent, elapsed_ms: u64)
    ensures
        u.posted ==> u.after(event, elapsed_ms).0.posted,
        u.after(event, elapsed_ms).1 matches UploadModel::Post { wait_ms, .. } ==> {
            &&& u.after(event, elapsed_ms).0.posted
            &&& u.posted ==> elapsed_ms + wait_ms >= u.interval
            &&& u.interval == 0 ==> wait_ms == 0
            &&& event is Closed && !u.posted ==> wait_ms == 0
            &&& wait_ms > 0 ==> elapsed_ms + wait_ms == u.interval
        },
{
}

/// What comes down, piece by piece.
pub struct RespBodyReader {
    /// What has come and has not been read.
    current: Bytes,
}

/// What came of waiting for a piece.
pub enum BodyEvent {
    /// Nothing yet.
    Pending,
    /// There are no more.
    End,
    /// The response broke off.
    Failed,
    Piece(Bytes),
}

/// What a read gives.
pub enum ReadStep {
    /// Wait.
    Pending,
    /// Fail.
    Failed,
    /// Hand these octets on; none where what comes down has ended.
    Ready(Vec<u8>),
}

impl View for RespBodyReader {
    type V = Seq<u8>;

    closed spec fn view(&self) -> Seq<u8> {
        bytes_contents(self.current)
    }
}

/// The part of some octets that there is room for.
pub open spec fn fitting(s: Seq<u8>, room: usize) -> Seq<u8> {
    s.take(
        if room < s.len() {
            room as int
        } else {
            s.len() as int
        },
    )
}

/// The first octets of a buffer, as many as there is room for.
fn first_octets(b: &Bytes, room: usize) -> (r: (Vec<u8>, usize))
    ensures
        r.0@ == fitting(bytes_contents(*b), room),
        r.1 == r.0@.len(),
        r.1 <= bytes_contents(*b).len(),
{
    let all = bytes_slice(b);
    let n: usize = if room < all.len() {
        room
    } else {
        all.len()
    };
    let out = vstd::slice::slice_to_vec(vstd::slice::slice_subrange(all, 0, n));
    assert(out@ =~= bytes_contents(*b).take(n as int));
    (out, n)
}

impl RespBodyReader {
    /// A reader to which nothing has come.
    pub fn new() -> (r: RespBodyReader)
        ensures
            r@ == Seq::<u8>::empty(),
    {
        RespBodyReader { current: Bytes::new() }
    }

    /// Reads what has come, if anything has; else the next piece is to be waited for.
    pub fn read_buffered(&mut self, room: usize) -> (r: Option<Vec<u8>>)
        ensures
            r is Some <==> old(self)@.len() > 0,
            r matches Some(out) ==> {
                &&& out@ == fitting(old(self)@, room)
                &&& final(self)@ == old(self)@.skip(out@.len() as int)
            },
            r is None ==> final(self)@ == old(self)@,
    {
        if self.current.is_empty() {
            return None;
        }
        let (out, n) = first_octets(&self.current, room);
        self.current = bytes_skip(&self.current, n);
        Some(out)
    }

    /// Takes what came of waiting, when nothing that has come is left.
    pub fn on_body(&mut self, event: BodyEvent, room: usize) -> (r: ReadStep)
        requires
            old(self)@.len() == 0,
        ensures
            match event {
                BodyEvent::Pending => r is Pending && final(self)@ == old(self)@,
                BodyEvent::End => r matches ReadStep::Ready(out) && out@.len() == 0 && final(self)@
                    == old(self)@,
                BodyEvent::Failed => r is Failed && final(self)@ == old(self)@,
                BodyEvent::Piece(b) => r matches ReadStep::Ready(out) && {
                    &&& out@ == fitting(bytes_contents(b), room)
                    &&& final(self)@ == bytes_contents(b).skip(out@.len() as int)
                },
            },
    {
        match event {
            BodyEvent::Pending => ReadStep::Pending,
            BodyEvent::End => ReadStep::Ready(Vec::new()),
            BodyEvent::Failed => ReadStep::Failed,
            BodyEvent::Piece(b) => {
                let (out, n) = first_octets(&b, room);
                if n < b.len() {
                    self.current = bytes_skip(&b, n);
                } else {
                    assert(self@ =~= bytes_contents(b).skip(n as int));
                }
                ReadStep::Ready(out)
            },
        }
    }
}

/// Reading hands on what has come, in order and without loss: what a read gives and what is left
/// make up what there was.
pub proof fn law_reading_loses_nothing(s: Seq<u8>, room: usize)
    ensures
        fitting(s, room) + s.skip(fitting(s, room).len() as int) == s,
        fitting(s, room).len() <= room,
        room > 0 && s.len() > 0 ==> fitting(s, room).len() > 0,
{
    assert(fitting(s, room) + s.skip(fitting(s, room).len() as int) =~= s);
}

/// What is left after reads, each with the octets that came for it and its room.
pub open spec fn left_after(s: Seq<u8>, reads: Seq<(Seq<u8>, usize)>) -> Seq<u8>
    decreases reads.len(),
{
    if reads.len() == 0 {
        s
    } else {
        let there = left_after(s, reads.drop_last()) + reads.last().0;
        there.skip(fitting(there, reads.last().1).len() as int)
    }
}

/// The octets that reads give, in order.
pub open spec fn read_by(s: Seq<u8>, reads: Seq<(Seq<u8>, usize)>) -> Seq<u8>
    decreases reads.len(),
{
    if reads.len() == 0 {
        Seq::empty()
    } else {
        let there = left_after(s, reads.drop_last()) + reads.last().0;
        read_by(s, reads.drop_last()) + fitting(there, reads.last().1)
    }
}

/// The octets that came for reads, in order.
pub open spec fn came_for(reads: Seq<(Seq<u8>, usize)>) -> Seq<u8>
    decreases reads.len(),
{
    if reads.len() == 0 {
        Seq::empty()
    } else {
        came_for(reads.drop_last()) + reads.last().0
    }
}

/// What comes down arrives whole: however much room there is for each read, what the reads give
/// and what is left make up what was there and what came, in order.
pub proof fn law_reads_lose_nothing(s: Seq<u8>, reads: Seq<(Seq<u8>, usize)>)
    ensures
        read_by(s, reads) + left_after(s, reads) == s + came_for(reads),
    decreases reads.len(),
{
    if reads.len() == 0 {
        assert(read_by(s, reads) + left_after(s, reads) =~= s + came_for(reads));
    } else {
        let before = reads.drop_last();
        let (piece, room) = reads.last();
        let there = left_after(s, before) + piece;
        law_reads_lose_nothing(s, before);
        law_reading_loses_nothing(there, room);
        assert((read_by(s, before) + fitting(there, room)) + left_after(s, reads) =~= read_by(
            s,
            before,
        ) + (fitting(there, room) + left_after(s, reads)));
        assert(read_by(s, before) + there =~= (read_by(s, before) + left_after(s, before)) + piece);
        assert((s + came_for(before)) + piece =~= s + (came_for(before) + piece));
    }
}

/// What came of handing octets on that are to go up.
pub enum SendEvent {
    /// They were taken.
    Sent,
    /// There is no room for them yet.
    Full,
    /// Nothing is taken any more.
    Closed,
}

/// What a write gives.
pub enum WriteStep {
    /// So many octets were written.
    Written(usize),
    /// Wait for room.
    Pending,
    /// Fail: nothing more can go up.
    Broken,
}

/// A stream in both directions.
pub struct XhttpStream {
    pub reader: RespBodyReader,
    /// Whether octets may go up.
    pub writable: bool,
}

impl XhttpStream {
    /// A stream to which nothing has come.
    pub fn new() -> (r: XhttpStream)
        ensures
            r.reader@ == Seq::<u8>::empty(),
            r.writable,
    {
        XhttpStream { reader: RespBodyReader::new(), writable: true }
    }

    /// The octets to hand on for a write: none after the stream was shut down.
    pub open spec fn handed_on(self, data: Seq<u8>) -> Option<Seq<u8>> {
        if self.writable {
            Some(data)
        } else {
            None
        }
    }

    /// What a write of `len` octets gives, by what came of handing them on. After the stream was
    /// shut down it fails.
    pub open spec fn write_step(self, event: SendEvent, len: usize) -> WriteStep {
        if self.writable {
            match event {
                SendEvent::Sent => WriteStep::Written(len),
                SendEvent::Full => WriteStep::Pending,
                SendEvent::Closed => WriteStep::Broken,
            }
        } else {
            WriteStep::Broken
        }
    }

    /// The stream after it was shut down.
    pub open spec fn shut_down(self) -> XhttpStream {
        XhttpStream { reader: self.reader, writable: false }
    }

    /// The octets to hand on for a write, unless the stream was shut down.
    pub fn chunk(&self, data: &[u8]) -> (r: Option<Bytes>)
        ensures
            match r {
                Some(b) => self.handed_on(data@) == Some(bytes_contents(b)),
                None => self.handed_on(data@) is None,
            },
    {
        if self.writable {
            Some(Bytes::copy_from_slice(data))
        } else {
            None
        }
    }

    /// Takes what came of handing `len` octets on. After the stream was shut down nothing is handed
    /// on, and the write fails.
    pub fn on_sent(&self, event: SendEvent, len: usize) -> (r: WriteStep)
        ensures
            r == self.write_step(event, len),
            !self.writable ==> r == WriteStep::Broken,
    {
        if !self.writable {
            return WriteStep::Broken;
        }
        match event {
            SendEvent::Sent => WriteStep::Written(len),
            SendEvent::Full => WriteStep::Pending,
            SendEvent::Closed => WriteStep::Broken,
        }
    }

    /// Ends what goes up.
    pub fn shutdown(&mut self)
        ensures
            *final(self) == old(self).shut_down(),
    {
        self.writable = false;
    }
}

/// After a stream was shut down no octets are handed on and every write fails, whatever it writes
/// and whatever came of it, and shutting it down again changes nothing. What comes down is not
/// affected.
pub proof fn law_no_write_after_shutdown(
    s: XhttpStream,
    data: Seq<u8>,
    event: SendEvent,
    len: usize,
)
    ensures
        s.shut_down().handed_on(data) is None,
        s.shut_down().write_step(event, len) == WriteStep::Broken,
        s.shut_down().shut_down() == s.shut_down(),
        s.shut_down().reader@ == s.reader@,
{
}

/// The text of the failure of a write after nothing more can go up.
pub fn closed_message() -> (r: String)
    ensures
        r@ == "xhttp: upload channel closed"@,
{
    "xhttp: upload channel closed".to_owned()
}

} // verus!
