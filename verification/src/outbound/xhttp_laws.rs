//! What the requests of an XHTTP stream come to.
use bytes::Bytes;
use vstd::prelude::*;

use crate::buf::bytes_contents;
use crate::config::outbound::{TlsConfig, XhttpTransportConfig};
use crate::headers::HeaderMap;
use crate::outbound::xhttp::{
    build_http_client, check_status, closed_message, connect, connect_with_session, fitting,
    is_client_plan, is_shared, method_name, normalize_path, packet_url_of, seq_after,
    session_id_form, slashed, stream_url_of, upload_method_of, BodyEvent, ClientPlan,
    PacketUploader, ReadStep, RequestBody, RequestPlan, RespBodyReader, SendEvent, UploadAction,
    UploadEvent, UploadModel, UploadState, WriteStep, XhttpRefused, XhttpShared, XhttpStage,
    XhttpStream,
};
use crate::text::{decimal, signed_decimal};

verus! {

/// What waits together with what an event brings.
pub open spec fn in_hand(u: UploadState, event: UploadEvent) -> Seq<u8> {
    match event {
        UploadEvent::Piece(b) => u.buf + bytes_contents(b),
        _ => u.buf,
    }
}

/// Whether an event lets the upload go on: a piece came, or a request succeeded that was not the
/// last.
pub open spec fn goes_on(u: UploadState, event: UploadEvent) -> bool {
    event is Piece || (event is Posted && !u.closing)
}

/// The upload stops only after a failed request, after the last request, or at the end with
/// nothing left. As long as it goes on, it sends a request exactly when there is enough for one,
/// and waits for more otherwise. At the end it sends what is left.
pub proof fn law_upload_stops_at_the_end(u: UploadState, event: UploadEvent, elapsed_ms: u64)
    ensures
        ({
            let action = u.after(event, elapsed_ms).1;
            &&& action is Stop <==> {
                ||| event is PostFailed
                ||| event is Posted && u.closing
                ||| event is Closed && u.buf.len() == 0
            }
            &&& goes_on(u, event) ==> (action is Post <==> in_hand(u, event).len() >= u.max)
            &&& goes_on(u, event) ==> (action is Receive <==> in_hand(u, event).len() < u.max)
            &&& event is Closed ==> (action is Post <==> u.buf.len() > 0)
        }),
{
}

/// A request takes the first octets in hand, as many as there may be in one, and the last request
/// takes all; what it does not take waits.
pub proof fn law_requests_take_the_first_octets(
    u: UploadState,
    event: UploadEvent,
    elapsed_ms: u64,
)
    ensures
        ({
            let (next, action) = u.after(event, elapsed_ms);
            let all = in_hand(u, event);
            match action {
                UploadModel::Post { payload, .. } => if event is Closed {
                    payload == all && next.buf == Seq::<u8>::empty()
                } else {
                    &&& payload.len() == u.max
                    &&& payload == all.take(u.max as int)
                    &&& next.buf == all.skip(u.max as int)
                },
                _ => next.buf == all,
            }
        }),
{
    let (next, action) = u.after(event, elapsed_ms);
    if event is Closed && u.buf.len() == 0 {
        assert(next.buf =~= in_hand(u, event));
    }
}

/// A request waits for what is left of the interval since the one before; what is left at the end
/// does not wait where there was no request before it.
pub proof fn law_requests_wait_for_the_interval(
    u: UploadState,
    event: UploadEvent,
    elapsed_ms: u64,
)
    ensures
        u.after(event, elapsed_ms).1 matches UploadModel::Post { wait_ms, .. } ==> wait_ms == if (
        event is Closed && !u.posted) || u.interval <= elapsed_ms {
            0
        } else {
            u.interval - elapsed_ms
        },
{
}

/// No event changes the limits of an upload, the end is noted when it comes, and a request is
/// noted when it is sent.
pub proof fn law_upload_keeps_its_limits(u: UploadState, event: UploadEvent, elapsed_ms: u64)
    ensures
        ({
            let (next, action) = u.after(event, elapsed_ms);
            &&& next.max == u.max
            &&& next.interval == u.interval
            &&& next.closing <==> u.closing || event is Closed
            &&& next.posted <==> u.posted || action is Post
        }),
{
}

/// What the uploader wants done is what the step says, with the octets of the request.
pub proof fn law_actions_are_whole(action: UploadAction)
    ensures
        action is Receive <==> action.model() is Receive,
        action is Stop <==> action.model() is Stop,
        action matches UploadAction::Post { wait_ms, payload } ==> (
        action.model() matches UploadModel::Post { wait_ms: w, payload: p } && w == wait_ms && p
            == bytes_contents(payload)),
{
}

/// Whether `p` is a path with a slash put before it where it has none there, and after it where it
/// has none there.
pub open spec fn between_slashes(p: Seq<char>, path: Seq<char>) -> bool {
    if path.len() == 0 || path == seq!['/'] {
        p == seq!['/']
    } else {
        &&& path[0] == '/' && path.last() == '/' ==> p == path
        &&& path[0] == '/' && path.last() != '/' ==> p == path + seq!['/']
        &&& path[0] != '/' && path.last() == '/' ==> p == seq!['/'] + path
        &&& path[0] != '/' && path.last() != '/' ==> p == seq!['/'] + path + seq!['/']
    }
}

proof fn lemma_between_slashes(path: Seq<char>)
    ensures
        between_slashes(slashed(path), path),
{
    let p = slashed(path);
    if path.len() == 0 || path == seq!['/'] {
        assert(p =~= seq!['/']);
    } else if path[0] == '/' && path.last() != '/' {
        assert(p =~= path + seq!['/']);
    } else if path[0] != '/' && path.last() == '/' {
        assert(p =~= seq!['/'] + path);
    } else if path[0] != '/' {
        assert(p =~= seq!['/'] + path + seq!['/']);
    }
}

/// The requests of a stream go to the server and the port, over TLS exactly where it is on, at the
/// configured path or else at the root.
pub proof fn law_requests_go_to_the_server(
    s: XhttpShared,
    server: Seq<char>,
    port: u16,
    cfg: XhttpTransportConfig,
    tls: Option<&TlsConfig>,
    extra: Map<Seq<char>, Seq<char>>,
) -> (p: Seq<char>)
    requires
        is_shared(s, server, port, cfg, tls, extra),
    ensures
        cfg.path matches Some(path) ==> between_slashes(p, path@),
        cfg.path is None ==> p == seq!['/'],
        (tls matches Some(t) && t.enabled) ==> s.base_url@ == "https"@ + "://"@ + server + ":"@
            + decimal(port as nat) + p,
        !(tls matches Some(t) && t.enabled) ==> s.base_url@ == "http"@ + "://"@ + server + ":"@
            + decimal(port as nat) + p,
{
    reveal_strlit("/");
    let path = match cfg.path {
        Some(path) => path@,
        None => "/"@,
    };
    assert("/"@ =~= seq!['/']);
    lemma_between_slashes(path);
    slashed(path)
}

/// Each header of the requests has its configured value, else its extra value; the host is always
/// there, by default the configured host, else the server name of TLS, else the server; there are
/// no others.
pub proof fn law_headers_have_their_values(
    s: XhttpShared,
    server: Seq<char>,
    port: u16,
    cfg: XhttpTransportConfig,
    tls: Option<&TlsConfig>,
    extra: Map<Seq<char>, Seq<char>>,
    name: Seq<char>,
)
    requires
        is_shared(s, server, port, cfg, tls, extra),
    ensures
        s.headers@.contains_key(name) <==> cfg.headers@.contains_key(name) || extra.contains_key(
            name,
        ) || name == "Host"@,
        cfg.headers@.contains_key(name) ==> s.headers@[name] == cfg.headers@[name],
        !cfg.headers@.contains_key(name) && extra.contains_key(name) ==> s.headers@[name]
            == extra[name],
        !cfg.headers@.contains_key("Host"@) && !extra.contains_key("Host"@) ==> {
            let host = s.headers@["Host"@];
            &&& cfg.host matches Some(h) ==> host == h@
            &&& cfg.host is None && tls is None ==> host == server
            &&& cfg.host is None && (tls matches Some(t) && t.server_name is None) ==> host
                == server
            &&& cfg.host is None && (tls matches Some(t) && t.server_name is Some) ==> host
                == tls->0.server_name->0@
        },
{
}

/// The mode is the one that is configured by its name; any other name, or none, stands for short
/// requests.
pub proof fn law_modes_go_by_name(
    s: XhttpShared,
    server: Seq<char>,
    port: u16,
    cfg: XhttpTransportConfig,
    tls: Option<&TlsConfig>,
    extra: Map<Seq<char>, Seq<char>>,
)
    requires
        is_shared(s, server, port, cfg, tls, extra),
    ensures
        s.mode is StreamOne <==> (cfg.mode matches Some(m) && m@ == "stream-one"@),
        s.mode is StreamUp <==> (cfg.mode matches Some(m) && m@ == "stream-up"@),
        s.mode is PacketUp <==> !(cfg.mode matches Some(m) && (m@ == "stream-one"@ || m@
            == "stream-up"@)),
{
    reveal_strlit("stream-one");
    reveal_strlit("stream-up");
    assert("stream-one"@.len() != "stream-up"@.len());
}

/// The limits of the requests are the configured ones, else a million octets and no interval, and
/// the numbers start at zero.
pub proof fn law_limits_are_configured(
    s: XhttpShared,
    server: Seq<char>,
    port: u16,
    cfg: XhttpTransportConfig,
    tls: Option<&TlsConfig>,
    extra: Map<Seq<char>, Seq<char>>,
)
    requires
        is_shared(s, server, port, cfg, tls, extra),
    ensures
        s.seq == 0,
        cfg.sc_max_each_post_bytes matches Some(n) ==> s.max_post_bytes == n,
        cfg.sc_max_each_post_bytes is None ==> s.max_post_bytes == 1_000_000,
        cfg.sc_min_posts_interval_ms matches Some(n) ==> s.min_post_interval_ms == n,
        cfg.sc_min_posts_interval_ms is None ==> s.min_post_interval_ms == 0,
        cfg.uplink_http_method matches Some(m) ==> s.uplink_method@ == m@,
        cfg.uplink_http_method is None ==> s.uplink_method@ == "POST"@,
        is_client_plan(s.client, tls),
{
}

/// The client takes certificates that do not verify only where TLS is on and is configured so, and
/// trusts a certificate of its own only where TLS is on and names one.
pub proof fn law_clients_verify(c: ClientPlan, tls: Option<&TlsConfig>)
    requires
        is_client_plan(c, tls),
    ensures
        c.tcp_nodelay,
        c.pool_max_idle_per_host == 16,
        c.accept_invalid_certs <==> (tls matches Some(t) && t.enabled && t.insecure),
        c.ca_path is Some <==> (tls matches Some(t) && t.enabled && t.ca_path is Some),
        c.ca_path matches Some(p) ==> p@ == tls->0.ca_path->0@,
{
}

/// Long requests of a stream with a session name it, and so do short ones, with their number,
/// which stands at the end of the path too. Without a session there is nothing but the path.
pub proof fn law_urls_name_the_session(base: Seq<char>, session_id: Option<String>, n: int)
    ensures
        session_id is None ==> stream_url_of(base, session_id) == base,
        session_id is None ==> packet_url_of(base, session_id, n) == base + signed_decimal(n),
        session_id matches Some(id) ==> stream_url_of(base, session_id) == base + "?session="@
            + id@,
        session_id matches Some(id) ==> packet_url_of(base, session_id, n) == base
            + signed_decimal(n) + "?session="@ + id@ + "&seq="@ + signed_decimal(n),
{
}

/// Requests that go up have the configured method where it is one, and are posted otherwise.
pub proof fn law_methods_are_configured(configured: Seq<char>)
    ensures
        method_name(configured) ==> upload_method_of(configured) == configured,
        !method_name(configured) ==> upload_method_of(configured) == "POST"@,
{
}

/// A refusal tells which request was refused and what the server returned.
pub proof fn law_refusals_tell_the_request(e: XhttpRefused)
    ensures
        e.stage is StreamOne ==> e.spec_message() == "xhttp stream-one: server returned "@
            + e.status@,
        e.stage is StreamDown ==> e.spec_message() == "xhttp stream-down: server returned "@
            + e.status@,
        e.stage is PacketDown ==> e.spec_message()
            == "xhttp packet-up/stream-down: server returned "@ + e.status@,
        e.stage matches XhttpStage::PacketPost(n) ==> e.spec_message() == "xhttp packet POST "@
            + signed_decimal(n as int) + ": server returned "@ + e.status@,
{
}

/// The numbers of the short requests go up by one and wrap around.
pub proof fn law_numbers_go_up(n: i64)
    ensures
        n < i64::MAX ==> seq_after(n) == n + 1,
        n == i64::MAX ==> seq_after(n) == i64::MIN,
{
}

/// A write before the shutdown hands all its octets on, and gives what came of it.
pub proof fn law_writes_go_up(s: XhttpStream, data: Seq<u8>, len: usize)
    requires
        s.writable,
    ensures
        s.handed_on(data) == Some(data),
        s.write_step(SendEvent::Sent, len) == WriteStep::Written(len),
        s.write_step(SendEvent::Full, len) == WriteStep::Pending,
        s.write_step(SendEvent::Closed, len) == WriteStep::Broken,
        !s.shut_down().writable,
{
}

/// A read gives as many octets as there are and as there is room for, from the first on.
pub proof fn law_reads_fill_the_room(s: Seq<u8>, room: usize)
    ensures
        fitting(s, room).len() <= room && fitting(s, room).len() <= s.len(),
        fitting(s, room).len() == room || fitting(s, room).len() == s.len(),
        forall|i: int| 0 <= i < fitting(s, room).len() ==> fitting(s, room)[i] == s[i],
{
}

/// A response tells success exactly if its status is from 200 to 299; a refusal names the request
/// and the status.
pub proof fn law_success_is_two_hundred(
    stage: XhttpStage,
    code: u16,
    status: String,
    r: Result<(), XhttpRefused>,
)
    requires
        call_ensures(check_status, (stage, code, status), r),
    ensures
        r is Ok <==> code / 100 == 2,
        r matches Err(e) ==> e.stage == stage && e.status@ == status@,
{
}

/// What waits in an uploader together with what an event brings.
pub open spec fn at_hand(u: PacketUploader, event: UploadEvent) -> Seq<u8> {
    match event {
        UploadEvent::Piece(b) => u.buf@ + bytes_contents(b),
        _ => u.buf@,
    }
}

/// A step of an uploader stops only after a failed request, after the request that follows the
/// end, or at the end with nothing left. On a piece, and after a request that was not the last, it
/// sends a request exactly when there is enough for one, and waits for more otherwise; at the end
/// it sends what is left. A request takes the first octets, and the rest waits.
pub proof fn law_steps_send_what_came(
    u: &mut PacketUploader,
    event: UploadEvent,
    elapsed_ms: u64,
    r: UploadAction,
)
    requires
        call_ensures(PacketUploader::step, (u, event, elapsed_ms), r),
    ensures
        ({
            let all = at_hand(*old(u), event);
            let max = old(u).max_post_bytes as int;
            let going = event is Piece || (event is Posted && !old(u).closing);
            &&& r is Stop <==> {
                ||| event is PostFailed
                ||| event is Posted && old(u).closing
                ||| event is Closed && old(u).buf@.len() == 0
            }
            &&& going ==> (r is Post <==> all.len() >= max)
            &&& going ==> (r is Receive <==> all.len() < max)
            &&& r matches UploadAction::Post { wait_ms, payload } ==> {
                &&& event is Closed ==> bytes_contents(payload) == all && final(u).buf@.len() == 0
                &&& event !is Closed ==> bytes_contents(payload) == all.take(max) && final(u).buf@
                    == all.skip(max)
                &&& wait_ms == if (event is Closed && !old(u).posted) || old(u).min_post_interval_ms
                    <= elapsed_ms {
                    0
                } else {
                    old(u).min_post_interval_ms - elapsed_ms
                }
            }
            &&& r !is Post ==> final(u).buf@ == all
            &&& final(u).max_post_bytes == old(u).max_post_bytes
            &&& final(u).min_post_interval_ms == old(u).min_post_interval_ms
            &&& final(u).closing <==> old(u).closing || event is Closed
            &&& final(u).posted <==> old(u).posted || r is Post
        }),
{
    let s = old(u)@;
    law_upload_stops_at_the_end(s, event, elapsed_ms);
    law_requests_take_the_first_octets(s, event, elapsed_ms);
    law_requests_wait_for_the_interval(s, event, elapsed_ms);
    law_upload_keeps_its_limits(s, event, elapsed_ms);
    law_actions_are_whole(r);
}

/// A path is made to start and end with a slash, and no more is changed.
pub proof fn law_paths_stand_between_slashes(path: &str, r: String)
    requires
        call_ensures(normalize_path, (path,), r),
    ensures
        between_slashes(r@, path@),
{
    lemma_between_slashes(path@);
}

/// The requests of the three modes: which method, which URL, which body.
pub proof fn law_modes_make_their_requests(
    s: XhttpShared,
    one: RequestPlan,
    both: (RequestPlan, RequestPlan),
    packets: (RequestPlan, PacketUploader),
)
    requires
        call_ensures(XhttpShared::connect_stream_one, (&s,), one),
        call_ensures(XhttpShared::connect_stream_up_down, (&s,), both),
        call_ensures(XhttpShared::connect_packet_up, (&s,), packets),
    ensures
        ({
            let url = match s.session_id {
                Some(id) => s.base_url@ + "?session="@ + id@,
                None => s.base_url@,
            };
            let method = if method_name(s.uplink_method@) {
                s.uplink_method@
            } else {
                "POST"@
            };
            &&& one.url@ == url && one.method@ == method && one.body is Stream
            &&& both.0.url@ == url && both.0.method@ == "GET"@ && both.0.body is Empty
            &&& both.1.url@ == url && both.1.method@ == method && both.1.body is Stream
            &&& packets.0.url@ == url && packets.0.method@ == "GET"@ && packets.0.body is Empty
            &&& packets.1.buf@.len() == 0
            &&& packets.1.max_post_bytes == s.max_post_bytes
            &&& packets.1.min_post_interval_ms == s.min_post_interval_ms
            &&& !packets.1.posted && !packets.1.closing
        }),
{
    assert(packets.1@.buf == Seq::<u8>::empty());
}

/// A short request has the next number in its URL and takes the given octets; the next one has the
/// number after it, and nothing else changes.
pub proof fn law_short_requests_are_numbered(
    s: &mut XhttpShared,
    payload: Bytes,
    r: (i64, RequestPlan),
)
    requires
        call_ensures(XhttpShared::post_packet, (s, payload), r),
    ensures
        r.0 == old(s).seq,
        r.1.body == RequestBody::Octets(payload),
        r.1.method@ == if method_name(old(s).uplink_method@) {
            old(s).uplink_method@
        } else {
            "POST"@
        },
        r.1.url@ == old(s).base_url@ + signed_decimal(r.0 as int) + match old(s).session_id {
            Some(id) => "?session="@ + id@ + "&seq="@ + signed_decimal(r.0 as int),
            None => Seq::empty(),
        },
        final(s).seq == if old(s).seq == i64::MAX {
            i64::MIN as int
        } else {
            old(s).seq + 1
        },
        final(s).base_url == old(s).base_url && final(s).session_id == old(s).session_id,
        final(s).uplink_method == old(s).uplink_method && final(s).mode == old(s).mode,
        final(s).headers == old(s).headers && final(s).client == old(s).client,
        final(s).max_post_bytes == old(s).max_post_bytes,
        final(s).min_post_interval_ms == old(s).min_post_interval_ms,
{
    assert(r.1.url@ =~= old(s).base_url@ + signed_decimal(r.0 as int) + match old(s).session_id {
        Some(id) => "?session="@ + id@ + "&seq="@ + signed_decimal(r.0 as int),
        None => Seq::empty(),
    });
}

/// A stream has a session exactly if it does not go over one request, and has what the
/// configuration says in any case.
pub proof fn law_streams_have_sessions(
    server: &str,
    port: u16,
    cfg: XhttpTransportConfig,
    tls: Option<&TlsConfig>,
    extra: HeaderMap,
    r: XhttpShared,
)
    requires
        call_ensures(connect, (server, port, &cfg, tls, &extra), r),
    ensures
        r.session_id is None <==> (cfg.mode matches Some(m) && m@ == "stream-one"@),
        r.session_id matches Some(id) ==> session_id_form(id@),
        is_shared(r, server@, port, cfg, tls, extra@),
{
    law_modes_go_by_name(r, server@, port, cfg, tls, extra@);
}

/// A stream with a given session has it, and what the configuration says.
pub proof fn law_streams_keep_their_session(
    server: &str,
    port: u16,
    cfg: XhttpTransportConfig,
    tls: Option<&TlsConfig>,
    extra: HeaderMap,
    session_id: Option<String>,
    r: XhttpShared,
)
    requires
        call_ensures(connect_with_session, (server, port, &cfg, tls, &extra, session_id), r),
    ensures
        r.session_id == session_id,
        is_shared(r, server@, port, cfg, tls, extra@),
{
}

/// A read gives the first octets that have come, as many as there is room for, and leaves the
/// rest; where nothing has come it gives nothing.
pub proof fn law_reads_give_what_has_come(
    b: &mut RespBodyReader,
    room: usize,
    r: Option<Vec<u8>>,
)
    requires
        call_ensures(RespBodyReader::read_buffered, (b, room), r),
    ensures
        r is None <==> old(b)@.len() == 0,
        r is None ==> final(b)@ == old(b)@,
        r matches Some(out) ==> {
            &&& out@ + final(b)@ == old(b)@
            &&& out@.len() == room || (out@.len() < room && final(b)@.len() == 0)
        },
{
    if r is Some {
        assert(r->0@ + final(b)@ =~= old(b)@);
    }
}

/// What comes is handed on: a piece as far as there is room, the end as no octets, and a failure
/// as a failure; what is not handed on waits.
pub proof fn law_pieces_are_handed_on(
    b: &mut RespBodyReader,
    event: BodyEvent,
    room: usize,
    r: ReadStep,
)
    requires
        call_ensures(RespBodyReader::on_body, (b, event, room), r),
    ensures
        event is Pending <==> r is Pending,
        event is Failed <==> r is Failed,
        event is End ==> (r matches ReadStep::Ready(out) && out@.len() == 0),
        event !is Piece ==> final(b)@ == old(b)@,
        event matches BodyEvent::Piece(p) ==> (r matches ReadStep::Ready(out) && {
            &&& out@ + final(b)@ == bytes_contents(p)
            &&& out@.len() == room || (out@.len() < room && final(b)@.len() == 0)
        }),
{
    match (event, r) {
        (BodyEvent::Piece(p), ReadStep::Ready(out)) => {
            assert(out@ + final(b)@ =~= bytes_contents(p));
        },
        _ => {},
    }
}

/// A write hands its octets on, unless the stream was shut down; then it fails, as it does where
/// nothing is taken any more.
pub proof fn law_writes_give_what_came_of_them(
    s: XhttpStream,
    data: &[u8],
    event: SendEvent,
    len: usize,
    chunk: Option<Bytes>,
    r: WriteStep,
)
    requires
        call_ensures(XhttpStream::chunk, (&s, data), chunk),
        call_ensures(XhttpStream::on_sent, (&s, event, len), r),
    ensures
        chunk is Some <==> s.writable,
        chunk matches Some(b) ==> bytes_contents(b) == data@,
        r == WriteStep::Written(len) <==> s.writable && event is Sent,
        r == WriteStep::Pending <==> s.writable && event is Full,
        r == WriteStep::Broken <==> !s.writable || event is Closed,
{
}

/// A stream can be written to until it is shut down, which does not affect what comes down.
pub proof fn law_streams_start_open(fresh: XhttpStream, s: &mut XhttpStream, r: ())
    requires
        call_ensures(XhttpStream::new, (), fresh),
        call_ensures(XhttpStream::shutdown, (s,), r),
    ensures
        fresh.writable && fresh.reader@.len() == 0,
        !final(s).writable,
        final(s).reader == old(s).reader,
{
}

/// The client is made as TLS says.
pub proof fn law_clients_are_made(
    tls: Option<&TlsConfig>,
    cfg: XhttpTransportConfig,
    c: ClientPlan,
)
    requires
        call_ensures(build_http_client, (tls, &cfg), c),
    ensures
        c.tcp_nodelay,
        c.pool_max_idle_per_host == 16,
        c.accept_invalid_certs <==> (tls matches Some(t) && t.enabled && t.insecure),
        c.ca_path is Some <==> (tls matches Some(t) && t.enabled && t.ca_path is Some),
        c.ca_path matches Some(p) ==> p@ == tls->0.ca_path->0@,
{
    law_clients_verify(c, tls);
}

/// The URLs and the method of the requests of a stream, and what is told where it is closed.
pub proof fn law_requests_are_addressed(
    s: XhttpShared,
    n: i64,
    long: String,
    short: String,
    method: String,
    closed: String,
)
    requires
        call_ensures(XhttpShared::stream_url, (&s,), long),
        call_ensures(XhttpShared::packet_url, (&s, n), short),
        call_ensures(XhttpShared::upload_method, (&s,), method),
        call_ensures(closed_message, (), closed),
    ensures
        s.session_id is None ==> long@ == s.base_url@ && short@ == s.base_url@ + signed_decimal(
            n as int,
        ),
        s.session_id matches Some(id) ==> {
            &&& long@ == s.base_url@ + "?session="@ + id@
            &&& short@ == s.base_url@ + signed_decimal(n as int) + "?session="@ + id@ + "&seq="@
                + signed_decimal(n as int)
        },
        method_name(s.uplink_method@) ==> method@ == s.uplink_method@,
        !method_name(s.uplink_method@) ==> method@ == "POST"@,
        closed@ == "xhttp: upload channel closed"@,
{
}

} // verus!
