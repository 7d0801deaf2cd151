//! The HTTP-side upgrade handshake: query parsing, Engine.IO version
//! selection, the `Sec-WebSocket-Accept` computation, the opening frames,
//! and the translation of transport frames into mailbox messages for the
//! read loop. The embedding server owns the HTTP request and the WebSocket
//! stream; everything decided about them is decided here.

use vstd::prelude::*;

verus! {

use vstd::string::StrSliceExecFns;
use vstd::string::StringExecFns;
use crypto::digest::Digest;
use crate::socketio_message::InternalMessage;
use crate::socketio_message::WSSocketMessage;
use crate::text::find_char_from;
use crate::text::lemma_spec_find;
use crate::text::spec_find;
use crate::text::str_eq;

/// Milliseconds between server keepalive pings, as promised in the
/// handshake.
pub const PING_INTERVAL_MS: u64 = 25000;

/// Milliseconds the peer may stay silent before the connection is
/// considered dead, as promised in the handshake.
pub const PING_TIMEOUT_MS: u64 = 20000;

/// The SHA-1 digest of a string's characters.
pub uninterp spec fn sha1_of(s: Seq<char>) -> Seq<u8>;

/// The standard base64 rendering of a byte sequence.
pub uninterp spec fn base64_of(b: Seq<u8>) -> Seq<char>;

/// Relies on rust-crypto's `Sha1` (`input_str`, then `result`): the digest
/// is 160 bits long and depends on the input characters alone.
#[verifier::external_body]
fn sha1_digest(s: &str) -> (r: Vec<u8>)
    ensures
        r@ == sha1_of(s@),
        r@.len() == 20,
{
    let mut hasher = crypto::sha1::Sha1::new();
    hasher.input_str(s);
    let mut buf = vec![0u8; 20];
    hasher.result(&mut buf);
    buf
}

/// Relies on `base64::encode`: the standard alphabet with padding, a
/// function of the input bytes alone.
#[verifier::external_body]
fn base64_encode(bytes: &Vec<u8>) -> (r: String)
    ensures
        r@ == base64_of(bytes@),
{
    base64::encode(bytes)
}

/// The `Sec-WebSocket-Accept` value for a client key: the key concatenated
/// with the WebSocket GUID, hashed with SHA-1, rendered in base64.
pub fn websocket_accept_key(key: &str) -> (r: String)
    ensures
        r@ == base64_of(sha1_of(key@ + "258EAFA5-E914-47DA-95CA-C5AB0DC85B11"@)),
{
    let mut joined = key.to_owned();
    joined.append("258EAFA5-E914-47DA-95CA-C5AB0DC85B11");
    let digest = sha1_digest(joined.as_str());
    base64_encode(&digest)
}

/// The pieces of `s` between occurrences of `c`, in order; `s` itself when
/// `c` does not occur. Always at least one piece.
pub open spec fn spec_split(s: Seq<char>, c: char) -> Seq<Seq<char>>
    decreases s.len(),
{
    match spec_find(s, c, 0) {
        Some(i) => {
            if 0 <= i < s.len() {
                seq![s.subrange(0, i)] + spec_split(s.subrange(i + 1, s.len() as int), c)
            } else {
                seq![s]
            }
        },
        None => seq![s],
    }
}

/// Splits `s` at every occurrence of `c`.
pub fn split_on(s: &str, c: char) -> (r: Vec<String>)
    ensures
        r@.map_values(|x: String| x@) == spec_split(s@, c),
        r@.len() >= 1,
    decreases s@.len(),
{
    let n = s.unicode_len();
    match find_char_from(s, c, 0) {
        None => {
            let mut v: Vec<String> = Vec::new();
            v.push(s.to_owned());
            proof {
                assert(v@.map_values(|x: String| x@) =~= seq![s@]);
            }
            v
        },
        Some(i) => {
            proof {
                lemma_spec_find(s@, c, 0);
            }
            let head = s.substring_char(0, i).to_owned();
            let tail = s.substring_char(i + 1, n);
            let mut rest = split_on(tail, c);
            rest.insert(0, head);
            proof {
                let ghost f = |x: String| x@;
                assert forall|k: int| 0 <= k < rest@.len() implies rest@.map_values(f)[k]
                    == (seq![s@.subrange(0, i as int)] + spec_split(tail@, c))[k] by {
                    if k > 0 {
                        assert(rest@[k] == rest@.subrange(1, rest@.len() as int)[k - 1]);
                    }
                }
                assert(rest@.map_values(f) =~= seq![s@.subrange(0, i as int)] + spec_split(
                    tail@,
                    c,
                ));
            }
            rest
        },
    }
}

/// The key/value pair one query fragment denotes: what stands before the
/// first `=`, and what stands between it and the next `=`, or nothing.
pub open spec fn spec_kv(p: Seq<char>) -> (Seq<char>, Seq<char>) {
    let kv = spec_split(p, '=');
    (kv[0], if kv.len() >= 2 {
        kv[1]
    } else {
        Seq::empty()
    })
}

/// The query parameters of a route: the fragment after the first `?`,
/// split at `&`, each piece read as `key=value`. No `?`, no parameters.
pub open spec fn spec_parse_query(route: Seq<char>) -> Seq<(Seq<char>, Seq<char>)> {
    let qp = spec_split(route, '?');
    if qp.len() < 2 {
        Seq::empty()
    } else {
        spec_split(qp[1], '&').map_values(|p: Seq<char>| spec_kv(p))
    }
}

/// Parses the query string of a route into key/value pairs, in order.
pub fn parse_query(route: &str) -> (r: Vec<(String, String)>)
    ensures
        r@.map_values(|kv: (String, String)| (kv.0@, kv.1@)) == spec_parse_query(route@),
{
    let mut qp = split_on(route, '?');
    if qp.len() < 2 {
        let r: Vec<(String, String)> = Vec::new();
        proof {
            assert(r@.map_values(|kv: (String, String)| (kv.0@, kv.1@)) =~= spec_parse_query(
                route@,
            ));
        }
        return r;
    }
    let query = qp.remove(1);
    proof {
        assert(query@ == spec_split(route@, '?')[1]);
    }
    let parts = split_on(query.as_str(), '&');
    let ghost parts_v = parts@.map_values(|x: String| x@);
    let mut out: Vec<(String, String)> = Vec::new();
    let n = parts.len();
    let mut i: usize = 0;
    while i < n
        invariant
            i <= n,
            n == parts@.len(),
            parts_v == parts@.map_values(|x: String| x@),
            out@.len() == i,
            forall|k: int|
                0 <= k < i ==> ((#[trigger] out@[k]).0@, out@[k].1@) == spec_kv(parts_v[k]),
        decreases n - i,
    {
        let mut kv = split_on(parts[i].as_str(), '=');
        let key = kv.remove(0);
        let value = if kv.len() >= 1 {
            kv.remove(0)
        } else {
            String::new()
        };
        proof {
            assert(parts_v[i as int] == parts@[i as int]@);
            assert(key@ == spec_split(parts_v[i as int], '=')[0]);
            if spec_split(parts_v[i as int], '=').len() >= 2 {
                assert(value@ == spec_split(parts_v[i as int], '=')[1]);
            }
            assert((key@, value@) == spec_kv(parts_v[i as int]));
        }
        out.push((key, value));
        i = i + 1;
    }
    proof {
        assert(out@.map_values(|kv: (String, String)| (kv.0@, kv.1@)) =~= parts_v.map_values(
            |p: Seq<char>| spec_kv(p),
        ));
    }
    out
}

/// The value under `k`, later pairs overriding earlier ones, as a map
/// built by insertion would have it.
pub open spec fn spec_lookup(ps: Seq<(Seq<char>, Seq<char>)>, k: Seq<char>) -> Option<Seq<char>>
    decreases ps.len(),
{
    if ps.len() == 0 {
        None
    } else if ps.last().0 == k {
        Some(ps.last().1)
    } else {
        spec_lookup(ps.drop_last(), k)
    }
}

/// Looks a parameter up by key; the last occurrence wins.
pub fn get_param(params: &Vec<(String, String)>, key: &str) -> (r: Option<String>)
    ensures
        match r {
            Some(v) => spec_lookup(
                params@.map_values(|kv: (String, String)| (kv.0@, kv.1@)),
                key@,
            ) == Some(v@),
            None => spec_lookup(params@.map_values(|kv: (String, String)| (kv.0@, kv.1@)), key@)
                is None,
        },
{
    let ghost ps = params@.map_values(|kv: (String, String)| (kv.0@, kv.1@));
    let mut i = params.len();
    proof {
        assert(ps.take(i as int) =~= ps);
    }
    while i > 0
        invariant
            i <= params@.len(),
            ps == params@.map_values(|kv: (String, String)| (kv.0@, kv.1@)),
            spec_lookup(ps, key@) == spec_lookup(ps.take(i as int), key@),
        decreases i,
    {
        proof {
            assert(ps.take(i as int).last() == ps[i as int - 1]);
            assert(ps.take(i as int).drop_last() =~= ps.take(i as int - 1));
        }
        if str_eq(params[i - 1].0.as_str(), key) {
            return Some(params[i - 1].1.clone());
        }
        i = i - 1;
    }
    proof {
        assert(ps.take(0) =~= Seq::<(Seq<char>, Seq<char>)>::empty());
    }
    None
}

/// The Engine.IO dialects this server speaks.
#[derive(Debug, PartialEq, Eq, Structural, Clone, Copy)]
pub enum AllowedVersions {
    V3,
    V4,
}

/// Selects the dialect: query parameter `EIO` equal to `4` means v4,
/// anything else — the parameter absent included — means v3.
pub fn select_version(params: &Vec<(String, String)>) -> (r: AllowedVersions)
    ensures
        r == (if spec_lookup(params@.map_values(|kv: (String, String)| (kv.0@, kv.1@)), "EIO"@)
            == Some("4"@) {
            AllowedVersions::V4
        } else {
            AllowedVersions::V3
        }),
{
    match get_param(params, "EIO") {
        Some(v) => {
            if str_eq(v.as_str(), "4") {
                AllowedVersions::V4
            } else {
                AllowedVersions::V3
            }
        },
        None => AllowedVersions::V3,
    }
}

/// `sub` occurs somewhere in `s`.
pub open spec fn has_substring(s: Seq<char>, sub: Seq<char>) -> bool {
    exists|i: int| 0 <= i <= s.len() - sub.len() && (#[trigger] s.subrange(i, i + sub.len())) == sub
}

/// Scans `s` for an occurrence of `sub`.
pub fn contains_str(s: &str, sub: &str) -> (r: bool)
    ensures
        r == has_substring(s@, sub@),
{
    let n = s.unicode_len();
    let m = sub.unicode_len();
    if m > n {
        return false;
    }
    let mut i: usize = 0;
    while i <= n - m
        invariant
            m <= n,
            n == s@.len(),
            m == sub@.len(),
            i <= n - m + 1,
            forall|i2: int| 0 <= i2 < i ==> (#[trigger] s@.subrange(i2, i2 + m)) != sub@,
        decreases n - i,
    {
        let mut j: usize = 0;
        while j < m && s.get_char(i + j) == sub.get_char(j)
            invariant
                j <= m,
                i + m <= n,
                n == s@.len(),
                m == sub@.len(),
                forall|jj: int| 0 <= jj < j ==> s@[i + jj] == sub@[jj],
            decreases m - j,
        {
            j = j + 1;
        }
        if j == m {
            proof {
                assert(s@.subrange(i as int, i + m) =~= sub@);
            }
            return true;
        }
        proof {
            assert(s@.subrange(i as int, i + m)[j as int] != sub@[j as int]);
            assert(s@.subrange(i as int, i + m) != sub@);
        }
        i = i + 1;
    }
    proof {
        assert forall|i2: int| 0 <= i2 <= n - m implies (#[trigger] s@.subrange(i2, i2 + m))
            != sub@ by {}
    }
    false
}

/// The peer asked for the long-poll transport, which this server does not
/// implement.
pub fn polling_requested(params: &Vec<(String, String)>) -> (r: bool)
    ensures
        r == (match spec_lookup(
            params@.map_values(|kv: (String, String)| (kv.0@, kv.1@)),
            "transport"@,
        ) {
            Some(v) => has_substring(v, "polling"@),
            None => false,
        }),
{
    match get_param(params, "transport") {
        Some(v) => contains_str(v.as_str(), "polling"),
        None => false,
    }
}

/// The Engine.IO opening frame: `0` followed by the handshake JSON, naming
/// the sid, the websocket upgrade, and the keepalive intervals.
pub fn handshake_open_frame(sid: &str) -> (r: String)
    ensures
        r@ == "0{\"sid\":\""@ + sid@
            + "\",\"upgrades\":[\"websocket\"],\"pingInterval\":25000,\"pingTimeout\":20000}"@,
{
    let mut s = "0{\"sid\":\"".to_owned();
    s.append(sid);
    s.append("\",\"upgrades\":[\"websocket\"],\"pingInterval\":25000,\"pingTimeout\":20000}");
    proof {
        assert(s@ =~= "0{\"sid\":\""@ + sid@
            + "\",\"upgrades\":[\"websocket\"],\"pingInterval\":25000,\"pingTimeout\":20000}"@);
    }
    s
}

/// The Socket.IO connect frame that follows the opening frame: bare `40`
/// for v3, `40{"sid":"<sid>"}` for v4.
pub fn connect_frame(version: AllowedVersions, sid: &str) -> (r: String)
    ensures
        version is V3 ==> r@ == "40"@,
        version is V4 ==> r@ == "40{\"sid\":\""@ + sid@ + "\"}"@,
{
    match version {
        AllowedVersions::V3 => "40".to_owned(),
        AllowedVersions::V4 => {
            let mut s = "40{\"sid\":\"".to_owned();
            s.append(sid);
            s.append("\"}");
            proof {
                assert(s@ =~= "40{\"sid\":\""@ + sid@ + "\"}"@);
            }
            s
        },
    }
}

/// What the middleware answers an incoming request with.
pub enum UpgradeDecision {
    /// Respond 101 with `Upgrade: websocket`, `Connection: Upgrade`, and
    /// this `Sec-WebSocket-Accept` value, then detach the transport and
    /// spawn the session.
    Accept { accept_key: String },
    /// Respond with this status and body; no session is created.
    Reject { status: u16, body: String },
}

/// Decides the handshake: an upgrade request with a `Sec-WebSocket-Key`
/// is accepted with the computed accept key; a request without the
/// `Upgrade` header gets a 400 whose body depends on whether it asked for
/// the unimplemented polling transport; an upgrade request without a key
/// is a protocol violation and gets a 400.
pub fn upgrade_response(
    params: &Vec<(String, String)>,
    has_upgrade_header: bool,
    sec_websocket_key: Option<&str>,
) -> (r: UpgradeDecision)
    ensures
        ({
            let ps = params@.map_values(|kv: (String, String)| (kv.0@, kv.1@));
            match r {
                UpgradeDecision::Accept { accept_key } => {
                    &&& has_upgrade_header
                    &&& sec_websocket_key matches Some(key) && accept_key@ == base64_of(
                        sha1_of(key@ + "258EAFA5-E914-47DA-95CA-C5AB0DC85B11"@),
                    )
                },
                UpgradeDecision::Reject { status, body } => {
                    &&& status == 400
                    &&& !(has_upgrade_header && sec_websocket_key is Some)
                    &&& if !has_upgrade_header {
                        body@ == (if (match spec_lookup(ps, "transport"@) {
                            Some(v) => has_substring(v, "polling"@),
                            None => false,
                        }) {
                            "Polling transport is not implemented yet."@
                        } else {
                            "Polling transport disabled, but no upgrade header for websocket."@
                        })
                    } else {
                        body@ == "Missing Sec-WebSocket-Key header."@
                    }
                },
            }
        }),
{
    if has_upgrade_header {
        match sec_websocket_key {
            Some(key) => UpgradeDecision::Accept { accept_key: websocket_accept_key(key) },
            None => UpgradeDecision::Reject {
                status: 400,
                body: "Missing Sec-WebSocket-Key header.".to_owned(),
            },
        }
    } else {
        if polling_requested(params) {
            UpgradeDecision::Reject {
                status: 400,
                body: "Polling transport is not implemented yet.".to_owned(),
            }
        } else {
            UpgradeDecision::Reject {
                status: 400,
                body: "Polling transport disabled, but no upgrade header for websocket.".to_owned(),
            }
        }
    }
}

/// One frame, or terminal condition, observed by the read loop.
pub enum WsFrame {
    /// A UTF-8 text frame.
    Text(String),
    /// A binary frame; this server ignores them.
    Binary(Vec<u8>),
    /// A WebSocket-layer ping frame.
    Ping,
    /// A WebSocket-layer pong frame.
    Pong,
    /// The peer closed the connection.
    Close,
    /// The transport failed.
    Error,
    /// The stream ended.
    Eof,
}

/// What the read loop does with one observed frame.
pub struct ReadStep {
    /// The mailbox message to enqueue, if any.
    pub enqueue: Option<InternalMessage>,
    /// Whether the read loop exits; on exit it enqueues `Close` once.
    pub exit: bool,
}

/// Translates one transport frame for the read loop: text `2` becomes an
/// Engine.IO ping, any other text is handed on raw, WebSocket ping and
/// pong frames become their mailbox counterparts, binary frames are
/// ignored, and close, error, and end of stream end the loop.
pub fn read_loop_step(frame: WsFrame) -> (r: ReadStep)
    ensures
        match frame {
            WsFrame::Text(t) => {
                &&& !r.exit
                &&& if t@.len() == 1 && t@[0] == '2' {
                    r.enqueue matches Some(m) && m == InternalMessage::WS(WSSocketMessage::Ping)
                } else {
                    r.enqueue matches Some(m) && (m matches InternalMessage::WS(
                        WSSocketMessage::RawMessage(p),
                    ) && p@ == t@)
                }
            },
            WsFrame::Binary(_) => !r.exit && r.enqueue is None,
            WsFrame::Ping => !r.exit && (r.enqueue matches Some(m) && m == InternalMessage::WS(
                WSSocketMessage::WsPing,
            )),
            WsFrame::Pong => !r.exit && (r.enqueue matches Some(m) && m == InternalMessage::WS(
                WSSocketMessage::WsPong,
            )),
            _ => r.exit && r.enqueue is None,
        },
{
    match frame {
        WsFrame::Text(t) => {
            let is_ping = t.as_str().unicode_len() == 1 && t.as_str().get_char(0) == '2';
            if is_ping {
                ReadStep { enqueue: Some(InternalMessage::WS(WSSocketMessage::Ping)), exit: false }
            } else {
                ReadStep {
                    enqueue: Some(InternalMessage::WS(WSSocketMessage::RawMessage(t))),
                    exit: false,
                }
            }
        },
        WsFrame::Binary(_) => ReadStep { enqueue: None, exit: false },
        WsFrame::Ping => ReadStep {
            enqueue: Some(InternalMessage::WS(WSSocketMessage::WsPing)),
            exit: false,
        },
        WsFrame::Pong => ReadStep {
            enqueue: Some(InternalMessage::WS(WSSocketMessage::WsPong)),
            exit: false,
        },
        WsFrame::Close => ReadStep { enqueue: None, exit: true },
        WsFrame::Error => ReadStep { enqueue: None, exit: true },
        WsFrame::Eof => ReadStep { enqueue: None, exit: true },
    }
}

} // verus!
