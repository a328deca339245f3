//! HTTP/1.x head handling for the local proxy: where a head (or a chunked
//! body) ends, how a `CONNECT` authority or an absolute-form target is split,
//! what a client head asks for, how the request is rewritten to origin form,
//! and whether the client wants keep-alive.

use vstd::prelude::*;
use vstd::string::StringExecFns;
use vstd::utf8::{decode_utf8, valid_utf8};
use crate::bindings::{
    header_views, httparse_request, parse_request, parse_url, url_parse, HeaderField, RequestHead,
    RequestHeadView, UrlParts, UrlPartsView,
};
use crate::text::{
    chars_of, contains, dec_chars, find_bytes, find_chars, first_index, is_ws, last_index_below,
    last_index_of, lemma_first_index_from, lower, parse_unsigned, parse_unsigned_range,
    push_decimal, sub_string, trim_bracket_bounds, trim_brackets, trim_ws, trim_ws_bounds,
};

verus! {

broadcast use vstd::string::group_string_axioms, vstd::array::group_array_axioms, vstd::slice::group_slice_axioms;

/// The blank line that ends an HTTP head.
pub open spec fn head_terminator() -> Seq<u8> {
    seq![13u8, 10u8, 13u8, 10u8]
}

/// The last-chunk marker `0\r\n\r\n` of a chunked body.
pub open spec fn chunk_terminator() -> Seq<u8> {
    seq![48u8, 13u8, 10u8, 13u8, 10u8]
}

/// Length of the head in `buf`, terminator included, if it is complete.
pub open spec fn head_end(buf: Seq<u8>) -> Option<int> {
    match first_index(buf, head_terminator()) {
        Some(i) => Some(i + 4),
        None => None,
    }
}

/// Length of the head in `buf` (terminator included), if the terminator
/// has arrived.
pub fn find_head_end(buf: &[u8]) -> (r: Option<usize>)
    ensures
        match head_end(buf@) {
            Some(n) => r == Some(n as usize),
            None => r is None,
        },
        r matches Some(n) ==> 4 <= n <= buf@.len(),
        head_end(buf@) matches Some(n) ==> 4 <= n <= buf@.len(),
{
    let pat: [u8; 4] = [13, 10, 13, 10];
    let ps = pat.as_slice();
    assert(ps@ =~= head_terminator());
    proof {
        lemma_first_index_from(buf@, head_terminator(), 0);
    }
    match find_bytes(buf, ps) {
        Some(i) => {
            assert(buf@.len() == buf.len());
            Some(i + 4)
        },
        None => None,
    }
}

/// Length of the head in `raw`, or all of `raw` when no blank line ends it.
pub fn header_len(raw: &[u8]) -> (n: usize)
    ensures
        n == match head_end(raw@) {
            Some(k) => k,
            None => raw@.len() as int,
        },
{
    assert(raw@.len() == raw.len());
    match find_head_end(raw) {
        Some(n) => n,
        None => raw.len(),
    }
}

/// Where a chunked body ends: just past its first `0\r\n\r\n`.
pub open spec fn chunk_end(acc: Seq<u8>) -> Option<int> {
    match first_index(acc, chunk_terminator()) {
        Some(i) => Some(i + 5),
        None => None,
    }
}

/// End of a chunked body in `acc` (just past the first `0\r\n\r\n`), if
/// it has arrived. Trailers and chunk extensions are not interpreted.
pub fn find_chunk_end(acc: &[u8]) -> (r: Option<usize>)
    ensures
        match chunk_end(acc@) {
            Some(n) => r == Some(n as usize),
            None => r is None,
        },
        r matches Some(n) ==> 5 <= n <= acc@.len(),
        chunk_end(acc@) matches Some(n) ==> 5 <= n <= acc@.len(),
{
    let pat: [u8; 5] = [48, 13, 10, 13, 10];
    let ps = pat.as_slice();
    assert(ps@ =~= chunk_terminator());
    proof {
        lemma_first_index_from(acc@, chunk_terminator(), 0);
    }
    match find_bytes(acc, ps) {
        Some(i) => {
            assert(acc@.len() == acc.len());
            Some(i + 5)
        },
        None => None,
    }
}

/// Largest request head accepted from a client, in bytes.
pub const MAX_REQUEST_HEAD: usize = 65536;

/// Largest response head accepted from upstream, in bytes.
pub const MAX_RESPONSE_HEAD: usize = 131072;

/// How far reading a head has come.
#[derive(Debug, Clone, Copy, PartialEq, Eq, Structural)]
pub enum HeadProgress {
    /// The head is complete and this many bytes long.
    Complete(usize),
    /// More bytes are needed.
    NeedMore,
    /// The buffered bytes exceed the limit: give up.
    TooBig,
}

/// After a read from the client: past the limit first, then a complete head.
pub fn request_head_progress(buf: &[u8]) -> (r: HeadProgress)
    ensures
        buf@.len() > MAX_REQUEST_HEAD ==> r == HeadProgress::TooBig,
        buf@.len() <= MAX_REQUEST_HEAD ==> match head_end(buf@) {
            Some(n) => r == HeadProgress::Complete(n as usize),
            None => r == HeadProgress::NeedMore,
        },
{
    if buf.len() > MAX_REQUEST_HEAD {
        return HeadProgress::TooBig;
    }
    match find_head_end(buf) {
        Some(n) => HeadProgress::Complete(n),
        None => HeadProgress::NeedMore,
    }
}

/// After a read from upstream: a complete head first, then past the limit.
pub fn response_head_progress(buf: &[u8]) -> (r: HeadProgress)
    ensures
        match head_end(buf@) {
            Some(n) => r == HeadProgress::Complete(n as usize),
            None => if buf@.len() > MAX_RESPONSE_HEAD {
                r == HeadProgress::TooBig
            } else {
                r == HeadProgress::NeedMore
            },
        },
{
    match find_head_end(buf) {
        Some(n) => HeadProgress::Complete(n),
        None => if buf.len() > MAX_RESPONSE_HEAD {
            HeadProgress::TooBig
        } else {
            HeadProgress::NeedMore
        },
    }
}


/// How `split_host_port` reads `host[:port]`: white space trimmed; a port
/// after the last `:` only when it parses as a `u16` (brackets then trimmed
/// off the host part); otherwise the whole text is the host and the port is
/// `default_port`. `None` only for blank input.
pub open spec fn split_host_port_spec(auth: Seq<char>, default_port: u16) -> Option<(Seq<char>, u16)> {
    let a = trim_ws(auth);
    if a.len() == 0 {
        None
    } else {
        match last_index_of(a, ':') {
            Some(i) => match parse_unsigned(a.subrange(i + 1, a.len() as int), 65535) {
                Some(p) => Some((trim_brackets(a.subrange(0, i)), p as u16)),
                None => Some((a, default_port)),
            },
            None => Some((a, default_port)),
        }
    }
}

/// Splits `host[:port]` (as in a `CONNECT` authority or a `Host` header);
/// the port defaults to `default_port`.
pub fn split_host_port(auth: &str, default_port: u16) -> (r: Option<(String, u16)>)
    ensures
        match split_host_port_spec(auth@, default_port) {
            Some((h, p)) => r matches Some(x) && x.0@ == h && x.1 == p,
            None => r is None,
        },
{
    let cs = chars_of(auth);
    let (a, b) = trim_ws_bounds(&cs, 0, cs.len());
    assert(cs@.subrange(0, cs@.len() as int) =~= cs@);
    let ghost t = cs@.subrange(a as int, b as int);
    if a == b {
        return None;
    }
    let mut k = b;
    while k > a && cs[k - 1] != ':'
        invariant
            a <= k <= b <= cs@.len(),
            t == cs@.subrange(a as int, b as int),
            last_index_of(t, ':') == last_index_below(t, ':', k - a),
        decreases k,
    {
        assert(t[k - 1 - a] == cs@[k - 1]);
        k = k - 1;
    }
    if k > a {
        assert(t[k - 1 - a] == ':');
        assert(last_index_of(t, ':') == Some(k - 1 - a));
        assert(t.subrange(k - a, t.len() as int) =~= cs@.subrange(k as int, b as int));
        match parse_unsigned_range(cs.as_slice(), k, b, 65535) {
            Some(p) => {
                let (x, y) = trim_bracket_bounds(&cs, a, k - 1);
                assert(t.subrange(0, k - 1 - a) =~= cs@.subrange(a as int, k - 1));
                let host = sub_string(auth, x, y);
                return Some((host, p as u16));
            },
            None => {},
        }
    }
    Some((sub_string(auth, a, b), default_port))
}


/// Target of a plain-HTTP request given what `url::Url::parse` made of its
/// path: an absolute `http` URL gives its host, port (80 by default) and
/// path plus query; any other absolute URL (or one without host) gives
/// nothing; a path that is not a URL needs a `Host` header.
pub open spec fn absolute_target_spec(
    parsed: Option<UrlPartsView>,
    path: Seq<char>,
    host_hdr: Option<Seq<char>>,
) -> Option<(Seq<char>, u16, Seq<char>)> {
    match parsed {
        Some((scheme, host, port, p, q)) => if scheme != "http"@ {
            None
        } else {
            match host {
                None => None,
                Some(h) => Some((
                    h,
                    match port { Some(x) => x, None => 80u16 },
                    match q { Some(q) => p + seq!['?'] + q, None => p },
                )),
            }
        },
        None => match host_hdr {
            None => None,
            Some(hh) => match split_host_port_spec(hh, 80) {
                None => None,
                Some((h, pt)) => Some((h, pt, path)),
            },
        },
    }
}

/// Target (host, port, origin-form path) of a plain-HTTP request, from the
/// result of parsing its path as a URL.
pub fn absolute_target(parsed: Option<UrlParts>, path: &str, host_hdr: Option<&str>) -> (r: Option<(String, u16, String)>)
    ensures
        match absolute_target_spec(
            match parsed { Some(u) => Some(u@), None => None },
            path@,
            match host_hdr { Some(h) => Some(h@), None => None },
        ) {
            Some((h, p, o)) => r matches Some(x) && x.0@ == h && x.1 == p && x.2@ == o,
            None => r is None,
        },
{
    match parsed {
        Some(u) => {
            if !crate::text::str_eq(u.scheme.as_str(), "http") {
                return None;
            }
            let host = match u.host {
                Some(h) => h,
                None => return None,
            };
            let port = match u.port {
                Some(p) => p,
                None => 80,
            };
            let mut op = u.path;
            match u.query {
                Some(q) => {
                    crate::bindings::push_char(&mut op, '?');
                    op.append(q.as_str());
                },
                None => {},
            }
            Some((host, port, op))
        },
        None => {
            let h = match host_hdr {
                Some(h) => h,
                None => return None,
            };
            match split_host_port(h, 80) {
                Some((host, port)) => Some((host, port, String::from_str(path))),
                None => None,
            }
        },
    }
}

/// Splits the target of a plain-HTTP request: an absolute URI, or an
/// origin-form path together with the `Host` header.
pub fn split_absolute(path: &str, host_hdr: Option<&str>) -> (r: Option<(String, u16, String)>)
    ensures
        match absolute_target_spec(
            url_parse(path@),
            path@,
            match host_hdr { Some(h) => Some(h@), None => None },
        ) {
            Some((h, p, o)) => r matches Some(x) && x.0@ == h && x.1 == p && x.2@ == o,
            None => r is None,
        },
{
    let parsed = parse_url(path);
    absolute_target(parsed, path, host_hdr)
}


/// Most headers a parsed head may carry.
pub const MAX_HEADERS: usize = 64;

/// A header name equals `lit` ignoring ASCII case.
pub open spec fn named(name: Seq<char>, lit: Seq<char>) -> bool {
    lower(name) == lower(lit)
}

/// The `Host` value sent upstream: the port is shown unless it is 80.
pub open spec fn host_value(host: Seq<char>, port: u16) -> Seq<char> {
    if port == 80 {
        host
    } else {
        host + seq![':'] + dec_chars(port as nat)
    }
}

/// One client header as forwarded: `Host` replaced, `Connection` and
/// `Proxy-Connection` dropped, a value that is not UTF-8 dropped.
pub open spec fn forwarded_header(h: (Seq<char>, Seq<u8>), hv: Seq<char>) -> Seq<char> {
    if named(h.0, "host"@) {
        "Host: "@ + hv + "\r\n"@
    } else if named(h.0, "proxy-connection"@) || named(h.0, "connection"@) {
        Seq::empty()
    } else if valid_utf8(h.1) {
        h.0 + ": "@ + decode_utf8(h.1) + "\r\n"@
    } else {
        Seq::empty()
    }
}

pub open spec fn forwarded_headers(hs: Seq<(Seq<char>, Seq<u8>)>, hv: Seq<char>) -> Seq<char>
    decreases hs.len(),
{
    if hs.len() == 0 {
        Seq::empty()
    } else {
        forwarded_headers(hs.drop_last(), hv) + forwarded_header(hs.last(), hv)
    }
}

/// Some header is a `Host` header.
pub open spec fn has_host_header(hs: Seq<(Seq<char>, Seq<u8>)>) -> bool {
    exists|i: int| 0 <= i < hs.len() && named(#[trigger] hs[i].0, "host"@)
}

/// The origin-form request head sent upstream: request line with the
/// origin path and `HTTP/1.1`, the forwarded headers, a `Host` header when
/// the client sent none, and `Connection: close`.
pub open spec fn origin_request_text(
    method: Seq<char>,
    origin: Seq<char>,
    hs: Seq<(Seq<char>, Seq<u8>)>,
    host: Seq<char>,
    port: u16,
) -> Seq<char> {
    let hv = host_value(host, port);
    method + seq![' '] + origin + " HTTP/1.1\r\n"@ + forwarded_headers(hs, hv) + (if has_host_header(hs) {
        Seq::empty()
    } else {
        "Host: "@ + hv + "\r\n"@
    }) + "Connection: close\r\n\r\n"@
}

fn push_host_line(out: &mut String, hv: &str)
    ensures
        final(out)@ == old(out)@ + "Host: "@ + hv@ + "\r\n"@,
{
    out.append("Host: ");
    out.append(hv);
    out.append("\r\n");
}

/// The bytes of a string.
pub fn string_bytes(s: &String) -> (r: Vec<u8>)
    ensures
        r@ == vstd::utf8::encode_utf8(s@),
{
    vstd::slice::slice_to_vec(s.as_str().as_bytes())
}

/// Rebuilds a request head in origin form from the client's headers.
pub fn rebuild_from_headers(method: &str, origin: &str, headers: &Vec<HeaderField>, host: &str, port: u16) -> (r: Vec<u8>)
    ensures
        r@ == vstd::utf8::encode_utf8(origin_request_text(method@, origin@, header_views(headers@), host@, port)),
{
    let ghost hs = header_views(headers@);
    let mut hv = String::from_str(host);
    if port != 80 {
        crate::bindings::push_char(&mut hv, ':');
        push_decimal(&mut hv, port as u64);
    }
    assert(hv@ == host_value(host@, port));
    let mut out = String::from_str(method);
    crate::bindings::push_char(&mut out, ' ');
    out.append(origin);
    out.append(" HTTP/1.1\r\n");
    let ghost start = out@;
    let mut wrote_host = false;
    let mut i: usize = 0;
    while i < headers.len()
        invariant
            i <= headers@.len(),
            hs == header_views(headers@),
            hv@ == host_value(host@, port),
            out@ == start + forwarded_headers(hs.take(i as int), hv@),
            wrote_host == has_host_header(hs.take(i as int)),
        decreases headers@.len() - i,
    {
        let h = &headers[i];
        let ghost hi = (h.name@, h.value@);
        assert(hs[i as int] == hi);
        assert(hs.take(i + 1).drop_last() =~= hs.take(i as int));
        assert(hs.take(i + 1).last() == hi);
        let n = h.name.as_str();
        if crate::text::eq_ignore_case(n, "host") {
            push_host_line(&mut out, hv.as_str());
            wrote_host = true;
            assert(named(hs.take(i + 1)[i as int].0, "host"@));
        } else {
            if crate::text::eq_ignore_case(n, "proxy-connection") || crate::text::eq_ignore_case(n, "connection") {
            } else {
                match crate::bindings::utf8_text(h.value.as_slice()) {
                    Some(v) => {
                        out.append(n);
                        out.append(": ");
                        out.append(v.as_str());
                        out.append("\r\n");
                    },
                    None => {},
                }
            }
            assert(has_host_header(hs.take(i + 1)) == has_host_header(hs.take(i as int))) by {
                if has_host_header(hs.take(i + 1)) {
                    let j = choose|j: int| 0 <= j < i + 1 && named(#[trigger] hs.take(i + 1)[j].0, "host"@);
                    assert(j != i);
                    assert(hs.take(i as int)[j] == hs.take(i + 1)[j]);
                }
                if has_host_header(hs.take(i as int)) {
                    let j = choose|j: int| 0 <= j < i && named(#[trigger] hs.take(i as int)[j].0, "host"@);
                    assert(hs.take(i as int)[j] == hs.take(i + 1)[j]);
                }
            }
        }
        i = i + 1;
    }
    assert(hs.take(i as int) =~= hs);
    if !wrote_host {
        push_host_line(&mut out, hv.as_str());
    }
    out.append("Connection: close\r\n\r\n");
    assert(out@ =~= origin_request_text(method@, origin@, hs, host@, port));
    string_bytes(&out)
}

/// Rebuilds the request head `head` in origin form for `host:port`, with
/// `Connection: close` towards the server.
pub fn rebuild_origin(method: &str, origin: &str, head: &[u8], host: &str, port: u16) -> (r: Vec<u8>)
    ensures
        r@ == vstd::utf8::encode_utf8(origin_request_text(method@, origin@, httparse_request(head@, MAX_HEADERS).4, host@, port)),
{
    let parsed = parse_request(head, MAX_HEADERS);
    rebuild_from_headers(method, origin, &parsed.headers, host, port)
}


/// Index of the first header, from `k` on, named `lit` (ignoring case).
pub open spec fn first_named_from(hs: Seq<(Seq<char>, Seq<u8>)>, lit: Seq<char>, k: int) -> Option<int>
    decreases hs.len() - k,
{
    if k < 0 || k >= hs.len() {
        None
    } else if named(hs[k].0, lit) {
        Some(k)
    } else {
        first_named_from(hs, lit, k + 1)
    }
}

/// Value of the first header named `lit`, when that value is UTF-8.
pub open spec fn first_header_text(hs: Seq<(Seq<char>, Seq<u8>)>, lit: Seq<char>) -> Option<Seq<char>> {
    match first_named_from(hs, lit, 0) {
        Some(i) => if valid_utf8(hs[i].1) {
            Some(decode_utf8(hs[i].1))
        } else {
            None
        },
        None => None,
    }
}

/// Value of the first header named `lit` (ignoring case), when it is UTF-8.
pub fn first_header_text_exec(headers: &Vec<HeaderField>, lit: &str) -> (r: Option<String>)
    ensures
        match first_header_text(header_views(headers@), lit@) {
            Some(v) => r matches Some(s) && s@ == v,
            None => r is None,
        },
{
    let ghost hs = header_views(headers@);
    let mut i: usize = 0;
    while i < headers.len()
        invariant
            i <= headers@.len(),
            hs == header_views(headers@),
            first_named_from(hs, lit@, 0) == first_named_from(hs, lit@, i as int),
        decreases headers@.len() - i,
    {
        if crate::text::eq_ignore_case(headers[i].name.as_str(), lit) {
            assert(hs[i as int].0 == headers@[i as int].name@);
            assert(first_named_from(hs, lit@, i as int) == Some(i as int));
            return crate::bindings::utf8_text(headers[i].value.as_slice());
        }
        i = i + 1;
    }
    None
}

/// Whether a client wants the connection kept open after this request:
/// never for an unparsable head or `Connection: close`; by default for
/// HTTP/1.1; for HTTP/1.0 only with `Connection: keep-alive`. Only the
/// first `Connection` header counts.
pub open spec fn keep_alive_spec(p: RequestHeadView) -> bool {
    match p.0 {
        Ok(Some(_)) => {
            let c = lower(
                match first_header_text(p.4, "connection"@) {
                    Some(v) => v,
                    None => Seq::empty(),
                },
            );
            if contains(c, "close"@) {
                false
            } else if (match p.3 {
                Some(v) => v,
                None => 1u8,
            }) == 1 {
                true
            } else {
                contains(c, "keep-alive"@)
            }
        },
        _ => false,
    }
}

/// `t` occurs in `s`.
fn contains_str(s: &Vec<char>, t: &str) -> (r: bool)
    ensures
        r == contains(s@, t@),
{
    let tc = chars_of(t);
    find_chars(s.as_slice(), tc.as_slice()).is_some()
}

/// Keep-alive decision for a parsed request head.
pub fn keep_alive_of(p: &RequestHead) -> (r: bool)
    ensures
        r == keep_alive_spec(p@),
{
    match p.status {
        Ok(Some(_)) => {},
        _ => return false,
    }
    let c = match first_header_text_exec(&p.headers, "connection") {
        Some(v) => chars_of(v.as_str()),
        None => Vec::new(),
    };
    let c = crate::text::lower_vec(&c);
    if contains_str(&c, "close") {
        return false;
    }
    let ver = match p.version {
        Some(v) => v,
        None => 1,
    };
    if ver == 1 {
        return true;
    }
    contains_str(&c, "keep-alive")
}

/// Whether the client that sent `head` wants keep-alive.
pub fn wants_keep_alive(head: &[u8]) -> (r: bool)
    ensures
        r == keep_alive_spec(httparse_request(head@, MAX_HEADERS)),
{
    let p = parse_request(head, MAX_HEADERS);
    keep_alive_of(&p)
}


/// What to do with a request head read from a client.
#[derive(Debug)]
pub enum RequestPlan {
    /// Drop the connection.
    Close,
    /// Tunnel to this `host[:port]` authority.
    Connect(String),
    /// Forward one plain-HTTP request to `host:port` with this origin path;
    /// the head takes `head_len` bytes of the buffer, the rest is body.
    Forward { method: String, host: String, port: u16, origin: String, head_len: usize },
}

/// Plain-value form of a `RequestPlan`.
pub ghost enum PlanView {
    Close,
    Connect(Seq<char>),
    Forward(Seq<char>, Seq<char>, u16, Seq<char>, int),
}

impl View for RequestPlan {
    type V = PlanView;

    open spec fn view(&self) -> PlanView {
        match self {
            RequestPlan::Close => PlanView::Close,
            RequestPlan::Connect(a) => PlanView::Connect(a@),
            RequestPlan::Forward { method, host, port, origin, head_len } =>
                PlanView::Forward(method@, host@, *port, origin@, *head_len as int),
        }
    }
}

pub open spec fn text_or_empty(o: Option<Seq<char>>) -> Seq<char> {
    match o {
        Some(s) => s,
        None => Seq::empty(),
    }
}

/// Head length as `header_len` computes it.
pub open spec fn header_len_spec(raw: Seq<u8>) -> int {
    match head_end(raw) {
        Some(k) => k,
        None => raw.len() as int,
    }
}

/// The plan for a parsed client head: `CONNECT` (any case) tunnels to the
/// request target; any other method is forwarded when its target resolves;
/// an incomplete or malformed head closes the connection.
pub open spec fn plan_spec(p: RequestHeadView, raw: Seq<u8>) -> PlanView {
    match p.0 {
        Ok(Some(_)) => {
            let method = text_or_empty(p.1);
            let path = text_or_empty(p.2);
            if named(method, "CONNECT"@) {
                PlanView::Connect(path)
            } else {
                match absolute_target_spec(url_parse(path), path, first_header_text(p.4, "host"@)) {
                    None => PlanView::Close,
                    Some((h, pt, o)) => PlanView::Forward(method, h, pt, o, header_len_spec(raw)),
                }
            }
        },
        _ => PlanView::Close,
    }
}

/// Plans the handling of a client head `raw` given its parse.
pub fn plan_from_head(p: &RequestHead, raw: &[u8]) -> (r: RequestPlan)
    ensures
        r@ == plan_spec(p@, raw@),
{
    match p.status {
        Ok(Some(_)) => {},
        _ => return RequestPlan::Close,
    }
    let method = match &p.method {
        Some(m) => m.clone(),
        None => String::new(),
    };
    let path = match &p.path {
        Some(x) => x.clone(),
        None => String::new(),
    };
    let host_hdr = first_header_text_exec(&p.headers, "host");
    if crate::text::eq_ignore_case(method.as_str(), "CONNECT") {
        return RequestPlan::Connect(path);
    }
    let hh: Option<&str> = match &host_hdr {
        Some(h) => Some(h.as_str()),
        None => None,
    };
    match split_absolute(path.as_str(), hh) {
        Some((host, port, origin)) => RequestPlan::Forward { method, host, port, origin, head_len: header_len(raw) },
        None => RequestPlan::Close,
    }
}

/// Plans the handling of the head a client sent (`raw` holds it, possibly
/// followed by body bytes).
pub fn plan_request(raw: &[u8]) -> (r: RequestPlan)
    ensures
        r@ == plan_spec(httparse_request(raw@, MAX_HEADERS), raw@),
{
    let p = parse_request(raw, MAX_HEADERS);
    plan_from_head(&p, raw)
}


proof fn lemma_last_colon(a: Seq<char>, at: int, k: int)
    requires
        0 <= at < k <= a.len(),
        a[at] == ':',
        forall|j: int| at < j < a.len() ==> a[j] != ':',
    ensures
        last_index_below(a, ':', k) == Some(at),
    decreases k,
{
    if k - 1 != at {
        lemma_last_colon(a, at, k - 1);
    }
}

/// `host:port` as written (say, by `listen_addr_text` or a client's
/// `CONNECT` line) is split back into that host and port, whenever the host
/// is non-empty, does not start with white space and neither starts nor
/// ends with a bracket.
pub proof fn law_split_host_port_roundtrip(host: Seq<char>, port: u16, default_port: u16)
    requires
        host.len() > 0,
        !is_ws(host[0]),
        !crate::text::is_bracket(host[0]),
        !crate::text::is_bracket(host.last()),
    ensures
        split_host_port_spec(host + seq![':'] + dec_chars(port as nat), default_port) == Some((host, port)),
{
    let d = dec_chars(port as nat);
    crate::text::lemma_dec_chars(port as nat);
    let a = host + seq![':'] + d;
    assert(a[0] == host[0]);
    assert(crate::text::trim_start_ws(a) == a);
    assert(a.last() == d.last());
    assert(crate::text::is_digit(d[d.len() - 1]));
    assert(crate::text::trim_end_ws(a) == a);
    assert(trim_ws(a) == a);
    let at = host.len() as int;
    assert forall|j: int| at < j < a.len() implies a[j] != ':' by {
        assert(a[j] == d[j - at - 1]);
        assert(crate::text::is_digit(d[j - at - 1]));
    }
    lemma_last_colon(a, at, a.len() as int);
    assert(a.subrange(at + 1, a.len() as int) =~= d);
    assert(d[0] != '+') by {
        assert(crate::text::is_digit(d[0]));
    }
    assert(parse_unsigned(d, 65535) == Some(port as nat));
    assert(a.subrange(0, at) =~= host);
    assert(crate::text::trim_start_brackets(host) == host);
    assert(crate::text::trim_end_brackets(host) == host);
}

/// The head sent upstream is always in origin form, starts with the
/// method and origin path on an `HTTP/1.1` request line, and ends by
/// asking the server to close the connection.
pub proof fn law_origin_request_shape(
    method: Seq<char>,
    origin: Seq<char>,
    hs: Seq<(Seq<char>, Seq<u8>)>,
    host: Seq<char>,
    port: u16,
)
    ensures
        ({
            let t = origin_request_text(method, origin, hs, host, port);
            let line = method + seq![' '] + origin + " HTTP/1.1\r\n"@;
            &&& t.len() >= line.len() + "Connection: close\r\n\r\n"@.len()
            &&& t.subrange(0, line.len() as int) == line
            &&& crate::text::ends_with(t, "Connection: close\r\n\r\n"@)
        }),
{
    let t = origin_request_text(method, origin, hs, host, port);
    let line = method + seq![' '] + origin + " HTTP/1.1\r\n"@;
    let hv = host_value(host, port);
    let mid = forwarded_headers(hs, hv) + (if has_host_header(hs) { Seq::empty() } else { "Host: "@ + hv + "\r\n"@ });
    let tail = "Connection: close\r\n\r\n"@;
    assert(t =~= line + mid + tail);
    assert(t.subrange(0, line.len() as int) =~= line);
    assert(t.subrange(t.len() - tail.len(), t.len() as int) =~= tail);
}

proof fn lemma_forwarded_host_line(hs: Seq<(Seq<char>, Seq<u8>)>, hv: Seq<char>) -> (i: int)
    requires
        has_host_header(hs),
    ensures
        crate::text::occurs_at(forwarded_headers(hs, hv), "Host: "@ + hv + "\r\n"@, i),
    decreases hs.len(),
{
    let line = "Host: "@ + hv + "\r\n"@;
    let prev = forwarded_headers(hs.drop_last(), hv);
    let all = forwarded_headers(hs, hv);
    if named(hs.last().0, "host"@) {
        assert(all == prev + line);
        assert(all.subrange(prev.len() as int, (prev.len() + line.len()) as int) =~= line);
        prev.len() as int
    } else {
        let j = choose|j: int| 0 <= j < hs.len() && named(#[trigger] hs[j].0, "host"@);
        assert(j != hs.len() - 1);
        assert(hs.drop_last()[j] == hs[j]);
        let i = lemma_forwarded_host_line(hs.drop_last(), hv);
        let x = forwarded_header(hs.last(), hv);
        assert(all == prev + x);
        assert(all.subrange(i, i + line.len()) =~= prev.subrange(i, i + line.len()));
        i
    }
}

/// The head sent upstream always carries a `Host` header naming the target
/// (with its port unless that is 80): every client `Host` header is
/// rewritten to it, and one is added when the client sent none.
pub proof fn law_origin_request_names_target(
    method: Seq<char>,
    origin: Seq<char>,
    hs: Seq<(Seq<char>, Seq<u8>)>,
    host: Seq<char>,
    port: u16,
)
    ensures
        contains(origin_request_text(method, origin, hs, host, port), "Host: "@ + host_value(host, port) + "\r\n"@),
{
    let hv = host_value(host, port);
    let t = origin_request_text(method, origin, hs, host, port);
    let line = method + seq![' '] + origin + " HTTP/1.1\r\n"@;
    let fwd = forwarded_headers(hs, hv);
    let host_line = "Host: "@ + hv + "\r\n"@;
    let add = if has_host_header(hs) { Seq::<char>::empty() } else { host_line };
    let tail = "Connection: close\r\n\r\n"@;
    assert(t =~= line + fwd + add + tail);
    if has_host_header(hs) {
        let i = lemma_forwarded_host_line(hs, hv);
        let at = line.len() as int + i;
        assert(t.subrange(at, at + host_line.len()) =~= fwd.subrange(i, i + host_line.len()));
        crate::text::lemma_occurs_contains(t, host_line, at);
    } else {
        let at = (line.len() + fwd.len()) as int;
        assert(t.subrange(at, at + host_line.len()) =~= host_line);
        crate::text::lemma_occurs_contains(t, host_line, at);
    }
}

/// A client header that is neither `Host`, `Connection` nor
/// `Proxy-Connection` (ignoring case) and whose value is UTF-8.
pub open spec fn plain_header(h: (Seq<char>, Seq<u8>)) -> bool {
    !named(h.0, "host"@) && !named(h.0, "connection"@) && !named(h.0, "proxy-connection"@) && valid_utf8(h.1)
}

/// The header line `name: value` with its line end.
pub open spec fn header_line(h: (Seq<char>, Seq<u8>)) -> Seq<char> {
    h.0 + ": "@ + decode_utf8(h.1) + "\r\n"@
}

proof fn lemma_forwarded_prefix(hs: Seq<(Seq<char>, Seq<u8>)>, hv: Seq<char>, k: int)
    requires
        0 <= k <= hs.len(),
    ensures
        forwarded_headers(hs.take(k), hv).len() <= forwarded_headers(hs, hv).len(),
        forwarded_headers(hs, hv).subrange(0, forwarded_headers(hs.take(k), hv).len() as int)
            == forwarded_headers(hs.take(k), hv),
    decreases hs.len() - k,
{
    let a = forwarded_headers(hs.take(k), hv);
    if k == hs.len() {
        assert(hs.take(k) =~= hs);
        assert(a.subrange(0, a.len() as int) =~= a);
    } else {
        lemma_forwarded_prefix(hs, hv, k + 1);
        let b = forwarded_headers(hs.take(k + 1), hv);
        assert(hs.take(k + 1).drop_last() =~= hs.take(k));
        assert(b == a + forwarded_header(hs.take(k + 1).last(), hv));
        let all = forwarded_headers(hs, hv);
        assert(all.subrange(0, a.len() as int) =~= b.subrange(0, a.len() as int));
        assert(b.subrange(0, a.len() as int) =~= a);
    }
}

/// Where a plain header's line stands in the forwarded headers.
proof fn lemma_plain_header_at(hs: Seq<(Seq<char>, Seq<u8>)>, hv: Seq<char>, i: int)
    requires
        0 <= i < hs.len(),
        plain_header(hs[i]),
    ensures
        crate::text::occurs_at(forwarded_headers(hs, hv), header_line(hs[i]), forwarded_headers(hs.take(i), hv).len() as int),
        forwarded_headers(hs.take(i), hv).len() + header_line(hs[i]).len()
            == forwarded_headers(hs.take(i + 1), hv).len(),
{
    lemma_forwarded_prefix(hs, hv, i + 1);
    let a = forwarded_headers(hs.take(i), hv);
    let b = forwarded_headers(hs.take(i + 1), hv);
    let l = header_line(hs[i]);
    assert(hs.take(i + 1).drop_last() =~= hs.take(i));
    assert(hs.take(i + 1).last() == hs[i]);
    assert(forwarded_header(hs[i], hv) == l);
    assert(b == a + l);
    let all = forwarded_headers(hs, hv);
    assert(all.subrange(a.len() as int, (a.len() + l.len()) as int) =~= b.subrange(a.len() as int, (a.len() + l.len()) as int));
    assert(b.subrange(a.len() as int, (a.len() + l.len()) as int) =~= l);
}

/// Every client header other than `Host`, `Connection` and
/// `Proxy-Connection` whose value is UTF-8 is sent upstream as the line
/// `name: value`, and two such headers are sent in the client's order.
pub proof fn law_origin_request_keeps_other_headers(
    method: Seq<char>,
    origin: Seq<char>,
    hs: Seq<(Seq<char>, Seq<u8>)>,
    host: Seq<char>,
    port: u16,
    i: int,
    j: int,
)
    requires
        0 <= i < j < hs.len(),
        plain_header(hs[i]),
        plain_header(hs[j]),
    ensures
        ({
            let t = origin_request_text(method, origin, hs, host, port);
            &&& contains(t, header_line(hs[i]))
            &&& contains(t, header_line(hs[j]))
            &&& exists|pi: int, pj: int|
                #![trigger crate::text::occurs_at(t, header_line(hs[i]), pi), crate::text::occurs_at(t, header_line(hs[j]), pj)]
                pi + header_line(hs[i]).len() <= pj && crate::text::occurs_at(t, header_line(hs[i]), pi)
                    && crate::text::occurs_at(t, header_line(hs[j]), pj)
        }),
{
    let hv = host_value(host, port);
    let t = origin_request_text(method, origin, hs, host, port);
    let line = method + seq![' '] + origin + " HTTP/1.1\r\n"@;
    let fwd = forwarded_headers(hs, hv);
    let add = if has_host_header(hs) { Seq::<char>::empty() } else { "Host: "@ + hv + "\r\n"@ };
    let tail = "Connection: close\r\n\r\n"@;
    assert(t =~= line + fwd + add + tail);
    lemma_plain_header_at(hs, hv, i);
    lemma_plain_header_at(hs, hv, j);
    lemma_forwarded_prefix(hs.take(j), hv, i + 1);
    assert(hs.take(j).take(i + 1) =~= hs.take(i + 1));
    let li = header_line(hs[i]);
    let lj = header_line(hs[j]);
    let qi = forwarded_headers(hs.take(i), hv).len() as int;
    let qj = forwarded_headers(hs.take(j), hv).len() as int;
    let pi = line.len() + qi;
    let pj = line.len() + qj;
    assert(t.subrange(pi, pi + li.len()) =~= fwd.subrange(qi, qi + li.len()));
    assert(t.subrange(pj, pj + lj.len()) =~= fwd.subrange(qj, qj + lj.len()));
    assert(crate::text::occurs_at(t, li, pi));
    assert(crate::text::occurs_at(t, lj, pj));
    crate::text::lemma_occurs_contains(t, li, pi);
    crate::text::lemma_occurs_contains(t, lj, pj);
}

proof fn lemma_no_colon_below(s: Seq<char>, k: int)
    requires
        0 <= k <= s.len(),
        forall|j: int| 0 <= j < k ==> s[j] != ':',
    ensures
        crate::text::last_index_below(s, ':', k) is None,
    decreases k,
{
    if k > 0 {
        lemma_no_colon_below(s, k - 1);
    }
}

/// A plain-HTTP request without an explicit port goes to port 80: in origin
/// form, a `Host` header naming a host without a port gives that host
/// (white space trimmed), port 80 and the path unchanged; with a port
/// suffix it gives that host and port; an absolute `http` URL without a
/// port gives its host, port 80 and its path (an explicit port is kept, and
/// a query is put back behind `?`).
pub proof fn law_plain_target_port(
    path: Seq<char>,
    h: Seq<char>,
    port: u16,
    url_host: Seq<char>,
    url_path: Seq<char>,
    host_hdr: Option<Seq<char>>,
)
    ensures
        trim_ws(h).len() > 0 && (forall|k: int| 0 <= k < trim_ws(h).len() ==> #[trigger] trim_ws(h)[k] != ':')
            ==> absolute_target_spec(None, path, Some(h)) == Some((trim_ws(h), 80u16, path)),
        h.len() > 0 && !is_ws(h[0]) && !crate::text::is_bracket(h[0]) && !crate::text::is_bracket(h.last())
            ==> absolute_target_spec(None, path, Some(h + seq![':'] + dec_chars(port as nat))) == Some((h, port, path)),
        absolute_target_spec(Some(("http"@, Some(url_host), None, url_path, None)), path, host_hdr)
            == Some((url_host, 80u16, url_path)),
        absolute_target_spec(Some(("http"@, Some(url_host), Some(port), url_path, Some(h))), path, host_hdr)
            == Some((url_host, port, url_path + seq!['?'] + h)),
{
    let a = trim_ws(h);
    if a.len() > 0 && (forall|k: int| 0 <= k < a.len() ==> #[trigger] a[k] != ':') {
        lemma_no_colon_below(a, a.len() as int);
    }
    if h.len() > 0 && !is_ws(h[0]) && !crate::text::is_bracket(h[0]) && !crate::text::is_bracket(h.last()) {
        law_split_host_port_roundtrip(h, port, 80);
    }
}

proof fn lemma_hop_headers_dropped(hs: Seq<(Seq<char>, Seq<u8>)>, hv: Seq<char>)
    requires
        forall|k: int| 0 <= k < hs.len() ==>
            named(#[trigger] hs[k].0, "connection"@) || named(hs[k].0, "proxy-connection"@),
    ensures
        forwarded_headers(hs, hv) == Seq::<char>::empty(),
        !has_host_header(hs),
    decreases hs.len(),
{
    reveal_strlit("host");
    reveal_strlit("connection");
    reveal_strlit("proxy-connection");
    if hs.len() > 0 {
        let q = hs.drop_last();
        assert forall|k: int| 0 <= k < q.len() implies
            named(#[trigger] q[k].0, "connection"@) || named(q[k].0, "proxy-connection"@) by {
            assert(q[k] == hs[k]);
        }
        lemma_hop_headers_dropped(q, hv);
        let x = hs.last();
        assert(named(hs[hs.len() - 1].0, "connection"@) || named(hs[hs.len() - 1].0, "proxy-connection"@));
        assert(lower(x.0).len() == x.0.len());
        assert(!named(x.0, "host"@));
        assert(Seq::<char>::empty() + Seq::<char>::empty() =~= Seq::<char>::empty());
        assert forall|k: int| 0 <= k < hs.len() implies !named(#[trigger] hs[k].0, "host"@) by {
            assert(named(hs[k].0, "connection"@) || named(hs[k].0, "proxy-connection"@));
            assert(lower(hs[k].0).len() == hs[k].0.len());
        }
    }
}

/// The client's `Connection` and `Proxy-Connection` headers are not sent
/// upstream: a request carrying only those gets exactly the request line,
/// the target's `Host` header and `Connection: close`.
pub proof fn law_origin_request_drops_hop_headers(
    method: Seq<char>,
    origin: Seq<char>,
    hs: Seq<(Seq<char>, Seq<u8>)>,
    host: Seq<char>,
    port: u16,
)
    requires
        forall|k: int| 0 <= k < hs.len() ==>
            named(#[trigger] hs[k].0, "connection"@) || named(hs[k].0, "proxy-connection"@),
    ensures
        origin_request_text(method, origin, hs, host, port) == method + seq![' '] + origin + " HTTP/1.1\r\n"@
            + "Host: "@ + host_value(host, port) + "\r\n"@ + "Connection: close\r\n\r\n"@,
{
    lemma_hop_headers_dropped(hs, host_value(host, port));
    let line = method + seq![' '] + origin + " HTTP/1.1\r\n"@;
    assert(origin_request_text(method, origin, hs, host, port) =~= line
        + ("Host: "@ + host_value(host, port) + "\r\n"@) + "Connection: close\r\n\r\n"@);
}

} // verus!
