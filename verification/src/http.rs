//! The HTTP side of transport negotiation: classify the first bytes of a new
//! stream into one of the four request kinds, and build the fixed polling
//! responses. The table: a non-GET/POST method or an `EIO` value other than
//! `4` is rejected; `Upgrade` on a GET is a WebSocket upgrade; a POST carries
//! the sid in its body; a GET with a `sid` query polls, without one it opens.

use vstd::prelude::*;

use crate::decimal::{dec_digits, dec_value, format_u64, is_digit};
use crate::engine::{EngineFrame, EnginePacket, EnginePacketId};
use crate::handshake::{spec_handshake_json, HandshakePacket};
use crate::packet::find_byte;
use crate::server::Server;
use crate::sid::Sid;

verus! {

/// How a new byte-stream wants to be served.
#[derive(Clone, Debug, PartialEq, Eq)]
pub enum RequestType {
    /// A WebSocket handshake, upgrading the session with the given sid when
    /// one is named.
    WsUpgrade(Option<Vec<u8>>),
    /// A polling GET without a sid: open a new session.
    PollingOpen,
    /// A polling GET for an existing session.
    PollingGet(Vec<u8>),
    /// A polling POST; the body bytes name the session.
    PollingPost(Vec<u8>),
}

/// The classification over plain sequences, which `parse_request_type`
/// computes.
pub enum SpecRequestType {
    WsUpgrade(Option<Seq<u8>>),
    PollingOpen,
    PollingGet(Seq<u8>),
    PollingPost(Seq<u8>),
}

/// The bytes of `GET`.
pub open spec fn spec_get() -> Seq<u8> {
    seq![71u8, 69, 84]
}

/// The bytes of `POST`.
pub open spec fn spec_post() -> Seq<u8> {
    seq![80u8, 79, 83, 84]
}

/// The bytes of the query key `EIO`.
pub open spec fn spec_eio() -> Seq<u8> {
    seq![69u8, 73, 79]
}

/// The bytes of the query key `sid`.
pub open spec fn spec_sid_key() -> Seq<u8> {
    seq![115u8, 105, 100]
}

/// The bytes of the header name `Upgrade`.
pub open spec fn spec_upgrade() -> Seq<u8> {
    seq![85u8, 112, 103, 114, 97, 100, 101]
}

/// The bytes of the header name `Content-Length`.
pub open spec fn spec_content_length() -> Seq<u8> {
    seq![67u8, 111, 110, 116, 101, 110, 116, 45, 76, 101, 110, 103, 116, 104]
}


/// The bytes of the transport name `websocket`.
pub open spec fn spec_websocket() -> Seq<u8> {
    seq![119u8, 101, 98, 115, 111, 99, 107, 101, 116]
}

/// `find_byte` finds within the bounds it was given.
pub proof fn lemma_find_byte_bounds(s: Seq<u8>, from: int, b: u8)
    requires
        0 <= from <= s.len(),
    ensures
        from <= find_byte(s, from, b) <= s.len(),
    decreases s.len() - from,
{
    if from < s.len() && s[from] != b {
        lemma_find_byte_bounds(s, from + 1, b);
    }
}

/// Walk the query pairs of `path` from `pos`: reject when `EIO` is present
/// with a value other than `4`, and remember the last `sid` value.
pub open spec fn spec_query_pairs(path: Seq<u8>, pos: int, sid: Option<Seq<u8>>) -> Option<
    Option<Seq<u8>>,
>
    decreases path.len() - pos,
    via spec_query_pairs_dec
{
    if pos < 0 || pos >= path.len() {
        Some(sid)
    } else {
        let amp = find_byte(path, pos, 38);
        let eq = find_byte(path, pos, 61);
        let key = if eq < amp {
            path.subrange(pos, eq)
        } else {
            path.subrange(pos, amp)
        };
        let value = if eq < amp {
            path.subrange(eq + 1, amp)
        } else {
            Seq::<u8>::empty()
        };
        let nxt = if amp + 1 < path.len() {
            amp + 1
        } else {
            path.len() as int
        };
        if key == spec_eio() && value != seq![52u8] {
            None
        } else {
            spec_query_pairs(path, nxt, if key == spec_sid_key() {
                Some(value)
            } else {
                sid
            })
        }
    }
}

#[via_fn]
proof fn spec_query_pairs_dec(path: Seq<u8>, pos: int, sid: Option<Seq<u8>>) {
    if 0 <= pos < path.len() {
        lemma_find_byte_bounds(path, pos, 38);
    }
}

/// The sid taken from the query string of `path`, or `None` when `EIO` is
/// present and not `4`.
pub open spec fn spec_query(path: Seq<u8>) -> Option<Option<Seq<u8>>> {
    let q = find_byte(path, 0, 63);
    if q >= path.len() {
        Some(None)
    } else {
        spec_query_pairs(path, q + 1, None)
    }
}

/// The first index at or after `pos` (bounded by `to`) that is not a space.
pub open spec fn skip_spaces(s: Seq<u8>, pos: int, to: int) -> int
    decreases to - pos,
{
    if pos < 0 || pos >= to {
        to
    } else if s[pos] == 32 {
        skip_spaces(s, pos + 1, to)
    } else {
        pos
    }
}

/// What the head yields once its headers end at `pos` (the body start): a
/// POST carries the sid in its first `content_length` body bytes; a GET
/// polls its sid or opens a new session.
pub open spec fn spec_finish(
    buf: Seq<u8>,
    pos: int,
    is_get: bool,
    sid: Option<Seq<u8>>,
    content_length: int,
) -> Option<SpecRequestType> {
    if !is_get {
        if pos + content_length > buf.len() {
            None
        } else {
            Some(SpecRequestType::PollingPost(buf.subrange(pos, pos + content_length)))
        }
    } else {
        match sid {
            Some(s) => Some(SpecRequestType::PollingGet(s)),
            None => Some(SpecRequestType::PollingOpen),
        }
    }
}

/// Walk the header lines from `pos`: the first `Upgrade` header on a GET
/// classifies as a WebSocket upgrade; a `Content-Length` header must parse
/// as a decimal; more than 124 headers, or a malformed line, rejects.
pub open spec fn spec_headers(
    buf: Seq<u8>,
    pos: int,
    is_get: bool,
    sid: Option<Seq<u8>>,
    content_length: int,
    n_headers: int,
) -> Option<SpecRequestType>
    decreases buf.len() - pos,
    via spec_headers_dec
{
    if pos < 0 || pos + 2 > buf.len() {
        None
    } else if buf[pos] == 13 && buf[pos + 1] == 10 {
        spec_finish(buf, pos + 2, is_get, sid, content_length)
    } else if n_headers >= 124 {
        None
    } else {
        let le = find_byte(buf, pos, 13);
        let ce = find_byte(buf, pos, 58);
        if le + 2 > buf.len() || buf[le + 1] != 10 {
            None
        } else if ce >= le {
            None
        } else {
            let name = buf.subrange(pos, ce);
            let value = buf.subrange(skip_spaces(buf, ce + 1, le), le);
            if name == spec_upgrade() && is_get {
                Some(SpecRequestType::WsUpgrade(sid))
            } else if name == spec_content_length() {
                if value.len() == 0 || exists|k: int|
                    0 <= k < value.len() && !is_digit(#[trigger] value[k]) {
                    None
                } else if dec_value(value) > 0x1_0000_0000 {
                    None
                } else {
                    spec_headers(buf, le + 2, is_get, sid, dec_value(value) as int, n_headers + 1)
                }
            } else {
                spec_headers(buf, le + 2, is_get, sid, content_length, n_headers + 1)
            }
        }
    }
}

#[via_fn]
proof fn spec_headers_dec(
    buf: Seq<u8>,
    pos: int,
    is_get: bool,
    sid: Option<Seq<u8>>,
    content_length: int,
    n_headers: int,
) {
    if 0 <= pos && pos + 2 <= buf.len() {
        lemma_find_byte_bounds(buf, pos, 13);
    }
}

/// Classify the peeked head bytes of a new stream, per the table above.
/// `None` rejects the request.
pub open spec fn spec_classify(buf: Seq<u8>) -> Option<SpecRequestType> {
    let m_end = find_byte(buf, 0, 32);
    if m_end >= buf.len() {
        None
    } else {
        let method = buf.subrange(0, m_end);
        if method != spec_get() && method != spec_post() {
            None
        } else {
            let p_end = find_byte(buf, m_end + 1, 32);
            if p_end >= buf.len() {
                None
            } else {
                let path = buf.subrange(m_end + 1, p_end);
                let le = find_byte(buf, p_end + 1, 13);
                if le + 2 > buf.len() || buf[le + 1] != 10 {
                    None
                } else {
                    match spec_query(path) {
                        None => None,
                        Some(sid) => spec_headers(
                            buf,
                            le + 2,
                            method == spec_get(),
                            sid,
                            0,
                            0,
                        ),
                    }
                }
            }
        }
    }
}


/// The view of a classification result over plain sequences.
pub open spec fn rt_view(r: RequestType) -> SpecRequestType {
    match r {
        RequestType::WsUpgrade(s) => SpecRequestType::WsUpgrade(opt_bytes(s)),
        RequestType::PollingOpen => SpecRequestType::PollingOpen,
        RequestType::PollingGet(s) => SpecRequestType::PollingGet(s@),
        RequestType::PollingPost(s) => SpecRequestType::PollingPost(s@),
    }
}

pub open spec fn opt_bytes(o: Option<Vec<u8>>) -> Option<Seq<u8>> {
    match o {
        Some(v) => Some(v@),
        None => None,
    }
}

fn pat_get() -> (v: Vec<u8>)
    ensures
        v@ == spec_get(),
{
    let mut v: Vec<u8> = Vec::new();
    v.push(71);
    v.push(69);
    v.push(84);
    proof {
        assert(v@ =~= spec_get());
    }
    v
}

fn pat_post() -> (v: Vec<u8>)
    ensures
        v@ == spec_post(),
{
    let mut v: Vec<u8> = Vec::new();
    v.push(80);
    v.push(79);
    v.push(83);
    v.push(84);
    proof {
        assert(v@ =~= spec_post());
    }
    v
}

fn pat_eio() -> (v: Vec<u8>)
    ensures
        v@ == spec_eio(),
{
    let mut v: Vec<u8> = Vec::new();
    v.push(69);
    v.push(73);
    v.push(79);
    proof {
        assert(v@ =~= spec_eio());
    }
    v
}

fn pat_sid_key() -> (v: Vec<u8>)
    ensures
        v@ == spec_sid_key(),
{
    let mut v: Vec<u8> = Vec::new();
    v.push(115);
    v.push(105);
    v.push(100);
    proof {
        assert(v@ =~= spec_sid_key());
    }
    v
}

fn pat_upgrade() -> (v: Vec<u8>)
    ensures
        v@ == spec_upgrade(),
{
    let mut v: Vec<u8> = Vec::new();
    v.push(85);
    v.push(112);
    v.push(103);
    v.push(114);
    v.push(97);
    v.push(100);
    v.push(101);
    proof {
        assert(v@ =~= spec_upgrade());
    }
    v
}

fn pat_content_length() -> (v: Vec<u8>)
    ensures
        v@ == spec_content_length(),
{
    let mut v: Vec<u8> = Vec::new();
    v.push(67);
    v.push(111);
    v.push(110);
    v.push(116);
    v.push(101);
    v.push(110);
    v.push(116);
    v.push(45);
    v.push(76);
    v.push(101);
    v.push(110);
    v.push(103);
    v.push(116);
    v.push(104);
    proof {
        assert(v@ =~= spec_content_length());
    }
    v
}


fn pat_websocket() -> (v: Vec<u8>)
    ensures
        v@ == spec_websocket(),
{
    let mut v: Vec<u8> = Vec::new();
    v.push(119);
    v.push(101);
    v.push(98);
    v.push(115);
    v.push(111);
    v.push(99);
    v.push(107);
    v.push(101);
    v.push(116);
    proof {
        assert(v@ =~= spec_websocket());
    }
    v
}

/// Whether `s[from..to]` equals the pattern.
fn range_matches(s: &[u8], from: usize, to: usize, pat: &Vec<u8>) -> (r: bool)
    requires
        from <= to <= s@.len(),
    ensures
        r == (s@.subrange(from as int, to as int) == pat@),
{
    if to - from != pat.len() {
        proof {
            assert(s@.subrange(from as int, to as int).len() != pat@.len());
        }
        return false;
    }
    let n = pat.len();
    let mut i: usize = 0;
    while i < n
        invariant
            from <= to <= s@.len(),
            n == pat@.len(),
            to - from == n,
            0 <= i <= n,
            forall|j: int| 0 <= j < i ==> s@.subrange(from as int, to as int)[j] == pat@[j],
        decreases n - i,
    {
        if *vstd::slice::slice_index_get(s, from + i) != pat[i] {
            proof {
                assert(s@.subrange(from as int, to as int)[i as int] != pat@[i as int]);
            }
            return false;
        }
        i = i + 1;
    }
    proof {
        assert(s@.subrange(from as int, to as int) =~= pat@);
    }
    true
}

/// Step past leading spaces, up to `to`.
fn skip_spaces_in(s: &[u8], pos: usize, to: usize) -> (r: usize)
    requires
        pos <= to <= s@.len(),
    ensures
        pos <= r <= to,
        r == skip_spaces(s@, pos as int, to as int),
    decreases to - pos,
{
    if pos == to {
        return pos;
    }
    if *vstd::slice::slice_index_get(s, pos) == 32 {
        skip_spaces_in(s, pos + 1, to)
    } else {
        pos
    }
}

/// Classify the peeked head bytes of a new stream; `None` rejects it. The
/// caller peeks at most 1024 bytes, as the transport contract says.
#[verifier::loop_isolation(false)]
pub fn parse_request_type(buf: &[u8]) -> (r: Option<RequestType>)
    requires
        buf@.len() <= 1024,
    ensures
        match spec_classify(buf@) {
            None => r is None,
            Some(t) => r matches Some(x) && rt_view(x) == t,
        },
{
    let m_end = crate::packet::find_byte_in(buf, 0, 32);
    if m_end == buf.len() {
        return None;
    }
    let is_get = range_matches(buf, 0, m_end, &pat_get());
    let is_post = range_matches(buf, 0, m_end, &pat_post());
    if !is_get && !is_post {
        return None;
    }
    let p_end = crate::packet::find_byte_in(buf, m_end + 1, 32);
    if p_end == buf.len() {
        return None;
    }
    let le = crate::packet::find_byte_in(buf, p_end + 1, 13);
    if le + 2 > buf.len() {
        return None;
    }
    if *vstd::slice::slice_index_get(buf, le + 1) != 10 {
        return None;
    }

    // the query string of the path
    let path = vstd::slice::slice_subrange(buf, m_end + 1, p_end);
    let mut sid: Option<Vec<u8>> = None;
    let q = crate::packet::find_byte_in(path, 0, 63);
    if q < path.len() {
        let mut pos: usize = q + 1;
        while pos < path.len()
            invariant
                buf@.len() <= 1024,
                path@ == buf@.subrange(m_end + 1, p_end as int),
                q < path@.len(),
                q + 1 <= pos <= path@.len(),
                spec_query_pairs(path@, q + 1, None) == spec_query_pairs(
                    path@,
                    pos as int,
                    opt_bytes(sid),
                ),
            decreases path@.len() - pos,
        {
            let amp = crate::packet::find_byte_in(path, pos, 38);
            let eq = crate::packet::find_byte_in(path, pos, 61);
            let kend = if eq < amp {
                eq
            } else {
                amp
            };
            let ghost value: Seq<u8> = if eq < amp {
                path@.subrange(eq + 1, amp as int)
            } else {
                Seq::<u8>::empty()
            };
            let value_is_4 = eq < amp && amp - eq == 2 && *vstd::slice::slice_index_get(
                path,
                eq + 1,
            ) == 52;
            proof {
                if eq < amp {
                    if value_is_4 {
                        assert(value =~= seq![52u8]);
                    } else if value == seq![52u8] {
                        assert(value.len() == 1);
                        assert(value[0] == 52);
                        assert(false);
                    }
                }
            }
            if range_matches(path, pos, kend, &pat_eio()) && !value_is_4 {
                return None;
            }
            if range_matches(path, pos, kend, &pat_sid_key()) {
                if eq < amp {
                    sid = Some(vstd::slice::slice_to_vec(vstd::slice::slice_subrange(
                        path,
                        eq + 1,
                        amp,
                    )));
                } else {
                    sid = Some(Vec::new());
                    proof {
                        assert(opt_bytes(sid) == Some(value));
                    }
                }
            }
            pos = if amp + 1 < path.len() {
                amp + 1
            } else {
                path.len()
            };
        }
    }

    // the header lines
    let mut pos: usize = le + 2;
    let mut content_length: u64 = 0;
    let mut n_headers: u64 = 0;
    let ghost sid0 = opt_bytes(sid);
    loop
        invariant
            buf@.len() <= 1024,
            le + 2 <= buf@.len(),
            pos <= buf@.len(),
            n_headers <= 124,
            content_length <= 0x1_0000_0000,
            sid0 == opt_bytes(sid),
            spec_headers(buf@, le + 2, is_get, sid0, 0, 0) == spec_headers(
                buf@,
                pos as int,
                is_get,
                sid0,
                content_length as int,
                n_headers as int,
            ),
        decreases buf@.len() - pos,
    {
        if pos + 2 > buf.len() {
            return None;
        }
        if *vstd::slice::slice_index_get(buf, pos) == 13 && *vstd::slice::slice_index_get(
            buf,
            pos + 1,
        ) == 10 {
            // end of the head
            if is_get {
                return match sid {
                    Some(s) => Some(RequestType::PollingGet(s)),
                    None => Some(RequestType::PollingOpen),
                };
            }
            if content_length > 1024 {
                return None;
            }
            let cl = content_length as usize;
            if pos + 2 + cl > buf.len() {
                return None;
            }
            let body = vstd::slice::slice_to_vec(vstd::slice::slice_subrange(
                buf,
                pos + 2,
                pos + 2 + cl,
            ));
            return Some(RequestType::PollingPost(body));
        }
        if n_headers >= 124 {
            return None;
        }
        let hle = crate::packet::find_byte_in(buf, pos, 13);
        let hce = crate::packet::find_byte_in(buf, pos, 58);
        if hle + 2 > buf.len() {
            return None;
        }
        if *vstd::slice::slice_index_get(buf, hle + 1) != 10 {
            return None;
        }
        if hce >= hle {
            return None;
        }
        if is_get && range_matches(buf, pos, hce, &pat_upgrade()) {
            return Some(RequestType::WsUpgrade(sid));
        }
        if range_matches(buf, pos, hce, &pat_content_length()) {
            let vstart = skip_spaces_in(buf, hce + 1, hle);
            if vstart == hle {
                return None;
            }
            let (vend, val) = crate::decimal::scan_decimal(buf, vstart, 0x1_0000_0000);
            proof {
                crate::decimal::lemma_digit_run_all_digits(buf@, vstart as int);
                crate::packet::lemma_find_byte_found(buf@, pos as int, 13);
                assert(vend <= hle) by {
                    if vend > hle {
                        assert(crate::decimal::is_digit(buf@[hle as int]));
                    }
                }
            }
            if vend != hle {
                proof {
                    assert(vend < hle);
                    let value2 = buf@.subrange(vstart as int, hle as int);
                    assert(!is_digit(value2[vend - vstart]));
                }
                return None;
            }
            match val {
                None => {
                    proof {
                        let value2 = buf@.subrange(vstart as int, hle as int);
                        assert forall|k: int| 0 <= k < value2.len() implies is_digit(
                            value2[k],
                        ) by {
                            assert(value2[k] == buf@[vstart + k]);
                        }
                        assert(dec_value(value2) > 0x1_0000_0000);
                    }
                    return None;
                },
                Some(v) => {
                    content_length = v;
                },
            }
        }
        pos = hle + 2;
        n_headers = n_headers + 1;
    }
}

/// The fixed part of a 200 response head, up to the Content-Length value.
pub open spec fn response_head() -> Seq<u8> {
    seq![72u8, 84, 84, 80, 47, 49, 46, 49, 32, 50, 48, 48, 32, 79, 75, 13, 10, 67, 111, 110, 116, 101, 110, 116, 45, 84, 121, 112, 101, 58, 32, 116, 101, 120, 116, 47, 112, 108, 97, 105, 110, 59, 32, 99, 104, 97, 114, 115, 101, 116, 61, 85, 84, 70, 45, 56, 13, 10, 67, 111, 110, 110, 101, 99, 116, 105, 111, 110, 58, 32, 67, 108, 111, 115, 101, 13, 10, 67, 111, 110, 116, 101, 110, 116, 45, 76, 101, 110, 103, 116, 104, 58, 32]
}

/// The whole 200 response for a body: the status line, the three fixed
/// headers, a blank line, the body.
pub open spec fn spec_http_response(body: Seq<u8>) -> Seq<u8> {
    response_head() + dec_digits(body.len() as nat) + seq![13u8, 10, 13, 10] + body
}

#[verifier::rlimit(100)]
fn response_head_bytes() -> (v: Vec<u8>)
    ensures
        v@ == response_head(),
{
    let mut v: Vec<u8> = Vec::new();
    v.push(72);
    v.push(84);
    v.push(84);
    v.push(80);
    v.push(47);
    v.push(49);
    v.push(46);
    v.push(49);
    v.push(32);
    v.push(50);
    v.push(48);
    v.push(48);
    v.push(32);
    v.push(79);
    v.push(75);
    v.push(13);
    v.push(10);
    v.push(67);
    v.push(111);
    v.push(110);
    v.push(116);
    v.push(101);
    v.push(110);
    v.push(116);
    v.push(45);
    v.push(84);
    v.push(121);
    v.push(112);
    v.push(101);
    v.push(58);
    v.push(32);
    v.push(116);
    v.push(101);
    v.push(120);
    v.push(116);
    v.push(47);
    v.push(112);
    v.push(108);
    v.push(97);
    v.push(105);
    v.push(110);
    v.push(59);
    v.push(32);
    v.push(99);
    v.push(104);
    v.push(97);
    v.push(114);
    v.push(115);
    v.push(101);
    v.push(116);
    v.push(61);
    v.push(85);
    v.push(84);
    v.push(70);
    v.push(45);
    v.push(56);
    v.push(13);
    v.push(10);
    v.push(67);
    v.push(111);
    v.push(110);
    v.push(110);
    v.push(101);
    v.push(99);
    v.push(116);
    v.push(105);
    v.push(111);
    v.push(110);
    v.push(58);
    v.push(32);
    v.push(67);
    v.push(108);
    v.push(111);
    v.push(115);
    v.push(101);
    v.push(13);
    v.push(10);
    v.push(67);
    v.push(111);
    v.push(110);
    v.push(116);
    v.push(101);
    v.push(110);
    v.push(116);
    v.push(45);
    v.push(76);
    v.push(101);
    v.push(110);
    v.push(103);
    v.push(116);
    v.push(104);
    v.push(58);
    v.push(32);
    proof {
        assert(v@ =~= response_head());
    }
    v
}

/// Build the HTTP response for a polling reply. Only status 200 is ever
/// sent on this path.
pub fn http_response(status: u16, body: &Vec<u8>) -> (v: Vec<u8>)
    requires
        status == 200,
    ensures
        v@ == spec_http_response(body@),
{
    let mut v = response_head_bytes();
    format_u64(&mut v, body.len() as u64);
    v.push(13);
    v.push(10);
    v.push(13);
    v.push(10);
    proof {
        assert(v@ =~= response_head() + dec_digits(body@.len() as nat) + seq![13u8, 10, 13, 10]);
    }
    v.extend_from_slice(body.as_slice());
    proof {
        assert(v@ =~= spec_http_response(body@));
    }
    v
}


/// The body of a polling open reply: the Engine.IO `Open` digit followed by
/// the handshake JSON.
pub fn open_packet_body(packet: &HandshakePacket) -> (v: Vec<u8>)
    ensures
        v@ == seq![48u8] + spec_handshake_json(
            packet.sid@,
            crate::payload::atts_bytes(packet.upgrades@),
            packet.ping_interval,
            packet.ping_timeout,
        ),
{
    let mut v: Vec<u8> = Vec::new();
    v.push(48);
    let json = packet.to_json();
    v.extend_from_slice(json.as_slice());
    proof {
        assert(v@ =~= seq![48u8] + json@);
    }
    v
}

/// Serves the polling transport: the open handshake and the stubbed poll
/// reply; the stream I/O happens outside.
pub struct PollingAcceptor {}

impl PollingAcceptor {
    /// The HTTP reply for a polling request: a fresh handshake for an open,
    /// the Engine.IO `Upgrade` digit for a poll, a bare 200 for a post, and
    /// nothing for a request this acceptor does not serve.
    pub fn accept(server: &mut Server, request: &RequestType) -> (r: Option<Vec<u8>>)
        requires
            old(server).id_generator.seq_no < u64::MAX,
        ensures
            final(server).port == old(server).port,
            final(server).server_option == old(server).server_option,
            final(server).sockets == old(server).sockets,
            old(server).wf() ==> final(server).wf(),
            match request {
                RequestType::PollingOpen => r matches Some(v) && v@ == spec_http_response(
                    seq![48u8] + spec_handshake_json(
                        crate::sid::sid_text_of(old(server).id_generator.seq_no),
                        seq![spec_websocket()],
                        old(server).server_option.ping_interval,
                        old(server).server_option.ping_timeout,
                    ),
                ),
                RequestType::PollingGet(_) => r matches Some(v) && v@ == spec_http_response(
                    seq![53u8],
                ),
                RequestType::PollingPost(_) => r matches Some(v) && v@ == spec_http_response(
                    Seq::<u8>::empty(),
                ),
                RequestType::WsUpgrade(_) => r is None && final(server).id_generator == old(
                    server,
                ).id_generator,
            },
    {
        match request {
            RequestType::PollingOpen => {
                let mut upgrades: Vec<Vec<u8>> = Vec::new();
                upgrades.push(pat_websocket());
                proof {
                    assert(crate::payload::atts_bytes(upgrades@) =~= seq![spec_websocket()]);
                }
                let packet = server.handshake_packet(upgrades, None);
                let body = open_packet_body(&packet);
                Some(http_response(200, &body))
            },
            RequestType::PollingGet(_) => {
                let mut body: Vec<u8> = Vec::new();
                body.push(53);
                proof {
                    assert(body@ =~= seq![53u8]);
                }
                Some(http_response(200, &body))
            },
            RequestType::PollingPost(_) => {
                let body: Vec<u8> = Vec::new();
                proof {
                    assert(body@ =~= Seq::<u8>::empty());
                }
                Some(http_response(200, &body))
            },
            RequestType::WsUpgrade(_) => None,
        }
    }
}

/// The opening frame of a WebSocket session: a fresh sid and the Engine.IO
/// `Open` text frame that announces it, with no further upgrades to offer.
pub fn handshake(server: &mut Server) -> (r: (Sid, EngineFrame))
    requires
        old(server).id_generator.seq_no < u64::MAX,
    ensures
        final(server).port == old(server).port,
        final(server).server_option == old(server).server_option,
        final(server).sockets == old(server).sockets,
        final(server).id_generator.seq_no == old(server).id_generator.seq_no + 1,
        old(server).wf() ==> final(server).wf() && !final(server).contains_sid(r.0.num),
        r.0.num == old(server).id_generator.seq_no,
        r.0.wf(),
        !crate::engine::frame_is_binary(r.1),
        crate::engine::frame_bytes(r.1) == seq![48u8] + spec_handshake_json(
            crate::sid::sid_text_of(r.0.num),
            Seq::<Seq<u8>>::empty(),
            old(server).server_option.ping_interval,
            old(server).server_option.ping_timeout,
        ),
{
    let sid = server.sid();
    let text = sid.text.clone();
    let packet = server.handshake_packet(Vec::new(), Some(Sid { num: sid.num, text }));
    let json = packet.to_json();
    proof {
        assert(crate::payload::atts_bytes(Seq::<Vec<u8>>::empty()) =~= Seq::<Seq<u8>>::empty());
    }
    let frame = EnginePacket::new(EnginePacketId::Open, json).serialize();
    proof {
        assert(crate::engine::frame_bytes(frame) =~= seq![48u8] + spec_handshake_json(
            crate::sid::sid_text_of(sid.num),
            Seq::<Seq<u8>>::empty(),
            old(server).server_option.ping_interval,
            old(server).server_option.ping_timeout,
        ));
    }
    (sid, frame)
}

} // verus!
