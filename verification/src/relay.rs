//! Relaying the body of the single response a plain-HTTP request gets:
//! how the response head frames the body, and a small state machine that,
//! fed with what upstream sends, says what to pass on to the client.

use vstd::prelude::*;
use vstd::utf8::{decode_utf8, valid_utf8};
use crate::bindings::{header_views, httparse_response, parse_response, HeaderField, ResponseHead, ResponseHeadView};
use crate::http::{chunk_end, find_chunk_end, named, MAX_HEADERS};
use crate::text::{chars_of, contains, lower, parse_unsigned, parse_unsigned_range, trim_ws, trim_ws_bounds};

verus! {

broadcast use vstd::string::group_string_axioms, vstd::slice::group_slice_axioms;

/// How the body of a response is delimited.
#[derive(Debug, Clone, Copy, PartialEq, Eq, Structural)]
pub enum BodyMode {
    /// No body (1xx, 204, 304).
    NoBody,
    /// Everything until upstream closes.
    UntilClose,
    /// Exactly this many bytes.
    Length(u64),
    /// Chunked transfer coding, up to the last chunk.
    Chunked,
}

/// The `Content-Length` that counts: that of the last such header whose
/// value is UTF-8 (`None` when it does not parse, or when there is none).
pub open spec fn content_length_spec(hs: Seq<(Seq<char>, Seq<u8>)>) -> Option<u64>
    decreases hs.len(),
{
    if hs.len() == 0 {
        None
    } else {
        let h = hs.last();
        if named(h.0, "content-length"@) && valid_utf8(h.1) {
            match parse_unsigned(trim_ws(decode_utf8(h.1)), u64::MAX as nat) {
                Some(v) => Some(v as u64),
                None => None,
            }
        } else {
            content_length_spec(hs.drop_last())
        }
    }
}

/// Some `Transfer-Encoding` header with a UTF-8 value mentions `chunked`
/// (ignoring case).
pub open spec fn is_chunked_spec(hs: Seq<(Seq<char>, Seq<u8>)>) -> bool {
    exists|i: int|
        0 <= i < hs.len() && named(#[trigger] hs[i].0, "transfer-encoding"@) && valid_utf8(hs[i].1)
            && contains(lower(decode_utf8(hs[i].1)), "chunked"@)
}

/// Framing of a response body from its parsed head: 1xx, 204 and 304 have
/// none; then chunked coding; then `Content-Length`; otherwise (also for a
/// head that did not parse) the body runs until upstream closes.
pub open spec fn body_mode_spec(p: ResponseHeadView) -> BodyMode {
    match p.0 {
        Ok(Some(_)) => {
            let code: u16 = match p.2 {
                Some(c) => c,
                None => 0,
            };
            if code == 204 || code == 304 || (100 <= code && code < 200) {
                BodyMode::NoBody
            } else if is_chunked_spec(p.3) {
                BodyMode::Chunked
            } else {
                match content_length_spec(p.3) {
                    Some(l) => BodyMode::Length(l),
                    None => BodyMode::UntilClose,
                }
            }
        },
        _ => BodyMode::UntilClose,
    }
}

fn content_length_of(headers: &Vec<HeaderField>) -> (r: Option<u64>)
    ensures
        r == content_length_spec(header_views(headers@)),
{
    let ghost hs = header_views(headers@);
    let mut len: Option<u64> = None;
    let mut i: usize = 0;
    while i < headers.len()
        invariant
            i <= headers@.len(),
            hs == header_views(headers@),
            len == content_length_spec(hs.take(i as int)),
        decreases headers@.len() - i,
    {
        let h = &headers[i];
        assert(hs.take(i + 1).drop_last() =~= hs.take(i as int));
        assert(hs.take(i + 1).last() == (h.name@, h.value@));
        if crate::text::eq_ignore_case(h.name.as_str(), "content-length") {
            match crate::bindings::utf8_text(h.value.as_slice()) {
                Some(v) => {
                    let cs = chars_of(v.as_str());
                    let (a, b) = trim_ws_bounds(&cs, 0, cs.len());
                    assert(cs@.subrange(0, cs@.len() as int) =~= cs@);
                    len = parse_unsigned_range(cs.as_slice(), a, b, u64::MAX);
                },
                None => {},
            }
        }
        i = i + 1;
    }
    assert(hs.take(i as int) =~= hs);
    len
}

fn is_chunked_of(headers: &Vec<HeaderField>) -> (r: bool)
    ensures
        r == is_chunked_spec(header_views(headers@)),
{
    let ghost hs = header_views(headers@);
    let chunked = chars_of("chunked");
    let mut i: usize = 0;
    while i < headers.len()
        invariant
            i <= headers@.len(),
            hs == header_views(headers@),
            chunked@ == "chunked"@,
            forall|j: int| 0 <= j < i ==> !(named(#[trigger] hs[j].0, "transfer-encoding"@) && valid_utf8(hs[j].1)
                && contains(lower(decode_utf8(hs[j].1)), "chunked"@)),
        decreases headers@.len() - i,
    {
        let h = &headers[i];
        assert(hs[i as int] == (h.name@, h.value@));
        if crate::text::eq_ignore_case(h.name.as_str(), "transfer-encoding") {
            match crate::bindings::utf8_text(h.value.as_slice()) {
                Some(v) => {
                    let lv = crate::text::lower_vec(&chars_of(v.as_str()));
                    if crate::text::find_chars(lv.as_slice(), chunked.as_slice()).is_some() {
                        assert(contains(lower(decode_utf8(hs[i as int].1)), "chunked"@));
                        assert(named(hs[i as int].0, "transfer-encoding"@));
                        return true;
                    }
                },
                None => {},
            }
        }
        i = i + 1;
    }
    false
}

/// Only 1xx, 204 and 304 responses have no body: the body mode of a parsed
/// head is `NoBody` exactly when the head is complete and its status is one
/// of those.
pub proof fn law_no_body_only_for_1xx_204_304(p: ResponseHeadView)
    ensures
        (body_mode_spec(p) is NoBody) <==> (p.0 matches Ok(Some(_)) && (p.2 matches Some(c)
            && (c == 204 || c == 304 || (100 <= c && c < 200)))),
{
}

/// A complete response head with any other status, no `Transfer-Encoding`
/// header, and a `Content-Length` of `l` frames a body of exactly `l`
/// bytes; one that mentions `chunked` in a `Transfer-Encoding` is chunked,
/// whatever its `Content-Length`; a head that did not parse completely is
/// relayed until upstream closes.
pub proof fn law_body_mode_by_headers(p: ResponseHeadView, code: u16, l: u64)
    requires
        p.2 == Some(code),
        !(code == 204 || code == 304 || (100 <= code && code < 200)),
    ensures
        p.0 matches Ok(Some(_)) && (forall|i: int| 0 <= i < p.3.len() ==> !named(#[trigger] p.3[i].0, "transfer-encoding"@))
            && content_length_spec(p.3) == Some(l) ==> body_mode_spec(p) == BodyMode::Length(l),
        p.0 matches Ok(Some(_)) && is_chunked_spec(p.3) ==> body_mode_spec(p) == BodyMode::Chunked,
        !(p.0 matches Ok(Some(_))) ==> body_mode_spec(p) == BodyMode::UntilClose,
{
}

proof fn lemma_content_length_ignores_others(pre: Seq<(Seq<char>, Seq<u8>)>, post: Seq<(Seq<char>, Seq<u8>)>)
    requires
        forall|k: int| 0 <= k < post.len() ==> !named(#[trigger] post[k].0, "content-length"@),
    ensures
        content_length_spec(pre + post) == content_length_spec(pre),
    decreases post.len(),
{
    if post.len() > 0 {
        let q = post.drop_last();
        assert((pre + post).drop_last() =~= pre + q);
        assert((pre + post).last() == post[post.len() - 1]);
        lemma_content_length_ignores_others(pre, q);
    } else {
        assert(pre + post =~= pre);
    }
}

/// A `Content-Length` header whose value is the decimal digits of `l`
/// gives `l`, when no later header is a `Content-Length`.
pub proof fn law_content_length_is_declared_value(
    pre: Seq<(Seq<char>, Seq<u8>)>,
    name: Seq<char>,
    l: u64,
    post: Seq<(Seq<char>, Seq<u8>)>,
)
    requires
        named(name, "content-length"@),
        forall|k: int| 0 <= k < post.len() ==> !named(#[trigger] post[k].0, "content-length"@),
    ensures
        content_length_spec(pre + seq![(name, vstd::utf8::encode_utf8(crate::text::dec_chars(l as nat)))] + post) == Some(l),
{
    let d = crate::text::dec_chars(l as nat);
    let v = vstd::utf8::encode_utf8(d);
    let x = (name, v);
    let hs = pre + seq![x];
    lemma_content_length_ignores_others(hs, post);
    assert(hs.drop_last() =~= pre);
    assert(hs.last() == x);
    vstd::utf8::encode_utf8_valid_utf8(d);
    vstd::utf8::encode_utf8_decode_utf8(d);
    crate::text::lemma_dec_chars(l as nat);
    assert(crate::text::is_digit(d[0]));
    assert(crate::text::is_digit(d.last()));
    assert(crate::text::trim_start_ws(d) == d);
    assert(crate::text::trim_end_ws(d) == d);
    assert(d[0] != '+');
    assert(parse_unsigned(d, u64::MAX as nat) == Some(l as nat));
}

/// A `Transfer-Encoding` header that says `chunked` (in any case) makes
/// the body chunked.
pub proof fn law_chunked_header_detected(hs: Seq<(Seq<char>, Seq<u8>)>, i: int, v: Seq<char>)
    requires
        0 <= i < hs.len(),
        named(hs[i].0, "transfer-encoding"@),
        hs[i].1 == vstd::utf8::encode_utf8(v),
        lower(v) == "chunked"@,
    ensures
        is_chunked_spec(hs),
{
    vstd::utf8::encode_utf8_valid_utf8(v);
    vstd::utf8::encode_utf8_decode_utf8(v);
    let c = "chunked"@;
    assert(c.subrange(0, c.len() as int) =~= c);
    assert(crate::text::occurs_at(lower(decode_utf8(hs[i].1)), c, 0));
    crate::text::lemma_occurs_contains(lower(decode_utf8(hs[i].1)), c, 0);
}

/// Body framing of a parsed response head.
pub fn body_mode_of(p: &ResponseHead) -> (r: BodyMode)
    ensures
        r == body_mode_spec(p@),
{
    match p.status {
        Ok(Some(_)) => {},
        _ => return BodyMode::UntilClose,
    }
    let code: u16 = match p.code {
        Some(c) => c,
        None => 0,
    };
    if code == 204 || code == 304 || (100 <= code && code < 200) {
        return BodyMode::NoBody;
    }
    if is_chunked_of(&p.headers) {
        return BodyMode::Chunked;
    }
    match content_length_of(&p.headers) {
        Some(l) => BodyMode::Length(l),
        None => BodyMode::UntilClose,
    }
}

/// Body framing of the response whose head starts `buf`.
pub fn response_body_mode(buf: &[u8]) -> (r: BodyMode)
    ensures
        r == body_mode_spec(httparse_response(buf@, MAX_HEADERS)),
{
    let p = parse_response(buf, MAX_HEADERS);
    body_mode_of(&p)
}


/// Buffered chunked data beyond this many bytes is passed on at once.
pub const CHUNK_FLUSH: usize = 1048576;

/// Where the relay of a body stands.
#[derive(Debug)]
pub enum Relay {
    /// Nothing more is passed on.
    Finished,
    /// Pass everything on until upstream closes.
    UntilClose,
    /// This many body bytes (more than zero) are still to come.
    Remaining(u64),
    /// Chunked body: bytes received but not yet passed on.
    Chunked(Vec<u8>),
}

/// Plain-value form of a `Relay`.
pub ghost enum RelayModel {
    Finished,
    UntilClose,
    Remaining(nat),
    Chunked(Seq<u8>),
}

impl View for Relay {
    type V = RelayModel;

    open spec fn view(&self) -> RelayModel {
        match self {
            Relay::Finished => RelayModel::Finished,
            Relay::UntilClose => RelayModel::UntilClose,
            Relay::Remaining(n) => RelayModel::Remaining(*n as nat),
            Relay::Chunked(acc) => RelayModel::Chunked(acc@),
        }
    }
}

pub open spec fn min_nat(a: nat, b: nat) -> nat {
    if a <= b { a } else { b }
}

/// Chunked relay with `acc` received: up to and including the last chunk
/// when it has arrived (then finished); everything when more than
/// `CHUNK_FLUSH` bytes are held; otherwise nothing yet.
pub open spec fn chunk_step(acc: Seq<u8>) -> (RelayModel, Seq<u8>) {
    match chunk_end(acc) {
        Some(e) => (RelayModel::Finished, acc.take(e)),
        None => if acc.len() > CHUNK_FLUSH {
            (RelayModel::Chunked(Seq::empty()), acc)
        } else {
            (RelayModel::Chunked(acc), Seq::empty())
        },
    }
}

/// Length-delimited relay with `left` bytes to come, receiving `data`.
pub open spec fn length_step(left: nat, data: Seq<u8>) -> (RelayModel, Seq<u8>) {
    let take = min_nat(data.len(), left);
    (if left - take == 0 { RelayModel::Finished } else { RelayModel::Remaining((left - take) as nat) }, data.take(take as int))
}

/// State and output when the relay starts, `buffered` being the body bytes
/// that arrived with the head.
pub open spec fn start_spec(mode: BodyMode, buffered: Seq<u8>) -> (RelayModel, Seq<u8>) {
    match mode {
        BodyMode::NoBody => (RelayModel::Finished, Seq::empty()),
        BodyMode::UntilClose => (RelayModel::UntilClose, buffered),
        BodyMode::Length(l) => length_step(l as nat, buffered),
        BodyMode::Chunked => chunk_step(buffered),
    }
}

/// State and output after receiving `data` from upstream.
pub open spec fn data_spec(m: RelayModel, data: Seq<u8>) -> (RelayModel, Seq<u8>) {
    match m {
        RelayModel::Finished => (RelayModel::Finished, Seq::empty()),
        RelayModel::UntilClose => (RelayModel::UntilClose, data),
        RelayModel::Remaining(left) => length_step(left, data),
        RelayModel::Chunked(acc) => chunk_step(acc + data),
    }
}

/// Output when upstream closes: the chunked bytes still held.
pub open spec fn eof_spec(m: RelayModel) -> Seq<u8> {
    match m {
        RelayModel::Chunked(acc) => acc,
        _ => Seq::empty(),
    }
}

/// A relay state as the machine produces it.
pub open spec fn relay_wf(m: RelayModel) -> bool {
    match m {
        RelayModel::Remaining(n) => 0 < n <= u64::MAX,
        RelayModel::Chunked(acc) => acc.len() <= CHUNK_FLUSH,
        _ => true,
    }
}

fn prefix_vec(data: &[u8], n: usize) -> (r: Vec<u8>)
    requires
        n <= data@.len(),
    ensures
        r@ == data@.take(n as int),
{
    vstd::slice::slice_to_vec(vstd::slice::slice_subrange(data, 0, n))
}

fn chunk_step_exec(acc: Vec<u8>) -> (r: (Relay, Vec<u8>))
    ensures
        r.0@ == chunk_step(acc@).0,
        r.1@ == chunk_step(acc@).1,
        relay_wf(r.0@),
{
    assert(acc@.len() == acc.len());
    match find_chunk_end(acc.as_slice()) {
        Some(e) => (Relay::Finished, prefix_vec(acc.as_slice(), e)),
        None => if acc.len() > CHUNK_FLUSH {
            let empty: Vec<u8> = Vec::new();
            assert(empty@ =~= Seq::<u8>::empty());
            (Relay::Chunked(empty), acc)
        } else {
            let empty: Vec<u8> = Vec::new();
            assert(empty@ =~= Seq::<u8>::empty());
            (Relay::Chunked(acc), empty)
        },
    }
}

fn length_step_exec(left: u64, data: &[u8]) -> (r: (Relay, Vec<u8>))
    ensures
        r.0@ == length_step(left as nat, data@).0,
        r.1@ == length_step(left as nat, data@).1,
        relay_wf(r.0@),
{
    let take: u64 = if (data.len() as u64) < left { data.len() as u64 } else { left };
    assert(data@.len() == data.len());
    let out = prefix_vec(data, take as usize);
    let rest = left - take;
    if rest == 0 {
        (Relay::Finished, out)
    } else {
        (Relay::Remaining(rest), out)
    }
}

impl Relay {
    pub open spec fn finished(&self) -> bool {
        self@ is Finished
    }

    /// Starts relaying a body framed as `mode`; `buffered` holds the body
    /// bytes that arrived with the head. Returns the state and the bytes to
    /// pass on now.
    pub fn start(mode: BodyMode, buffered: &[u8]) -> (r: (Relay, Vec<u8>))
        ensures
            r.0@ == start_spec(mode, buffered@).0,
            r.1@ == start_spec(mode, buffered@).1,
            relay_wf(r.0@),
    {
        match mode {
            BodyMode::NoBody => (Relay::Finished, Vec::new()),
            BodyMode::UntilClose => (Relay::UntilClose, vstd::slice::slice_to_vec(buffered)),
            BodyMode::Length(l) => length_step_exec(l, buffered),
            BodyMode::Chunked => chunk_step_exec(vstd::slice::slice_to_vec(buffered)),
        }
    }

    /// Feeds bytes received from upstream; returns the bytes to pass on.
    pub fn on_data(&mut self, data: &[u8]) -> (out: Vec<u8>)
        requires
            relay_wf(old(self)@),
        ensures
            final(self)@ == data_spec(old(self)@, data@).0,
            out@ == data_spec(old(self)@, data@).1,
            relay_wf(final(self)@),
    {
        let mut cur = Relay::Finished;
        std::mem::swap(&mut cur, self);
        match cur {
            Relay::Finished => {
                let empty: Vec<u8> = Vec::new();
                assert(empty@ =~= Seq::<u8>::empty());
                empty
            },
            Relay::UntilClose => {
                *self = Relay::UntilClose;
                vstd::slice::slice_to_vec(data)
            },
            Relay::Remaining(left) => {
                let (next, out) = length_step_exec(left, data);
                *self = next;
                out
            },
            Relay::Chunked(acc) => {
                let mut acc = acc;
                let ghost before = acc@;
                acc.extend_from_slice(data);
                assert(acc@ =~= before + data@);
                let (next, out) = chunk_step_exec(acc);
                *self = next;
                out
            },
        }
    }

    /// Upstream closed: returns what is still to be passed on; the relay is
    /// finished afterwards.
    pub fn on_eof(&mut self) -> (out: Vec<u8>)
        ensures
            out@ == eof_spec(old(self)@),
            final(self)@ is Finished,
    {
        let mut cur = Relay::Finished;
        std::mem::swap(&mut cur, self);
        match cur {
            Relay::Chunked(acc) => acc,
            _ => Vec::new(),
        }
    }

    /// Whether nothing more will be passed on.
    pub fn is_finished(&self) -> (r: bool)
        ensures
            r == self.finished(),
    {
        match self {
            Relay::Finished => true,
            _ => false,
        }
    }
}


/// All chunks, one after the other.
pub open spec fn concat_all(chunks: Seq<Seq<u8>>) -> Seq<u8>
    decreases chunks.len(),
{
    if chunks.len() == 0 {
        Seq::empty()
    } else {
        chunks[0] + concat_all(chunks.drop_first())
    }
}

/// State and total output after feeding `chunks` one by one.
pub open spec fn run_spec(m: RelayModel, chunks: Seq<Seq<u8>>) -> (RelayModel, Seq<u8>)
    decreases chunks.len(),
{
    if chunks.len() == 0 {
        (m, Seq::empty())
    } else {
        let (m1, o1) = data_spec(m, chunks[0]);
        let (m2, o2) = run_spec(m1, chunks.drop_first());
        (m2, o1 + o2)
    }
}

proof fn lemma_run_finished(chunks: Seq<Seq<u8>>)
    ensures
        run_spec(RelayModel::Finished, chunks) == (RelayModel::Finished, Seq::<u8>::empty()),
    decreases chunks.len(),
{
    if chunks.len() > 0 {
        lemma_run_finished(chunks.drop_first());
        assert(Seq::<u8>::empty() + Seq::<u8>::empty() =~= Seq::<u8>::empty());
    }
}

proof fn lemma_run_remaining(left: nat, chunks: Seq<Seq<u8>>)
    requires
        left > 0,
    ensures
        run_spec(RelayModel::Remaining(left), chunks).1
            == concat_all(chunks).take(min_nat(left, concat_all(chunks).len()) as int),
    decreases chunks.len(),
{
    let all = concat_all(chunks);
    if chunks.len() == 0 {
        assert(all.take(0) =~= Seq::<u8>::empty());
    } else {
        let c0 = chunks[0];
        let rest = concat_all(chunks.drop_first());
        assert(all == c0 + rest);
        let take = min_nat(c0.len(), left);
        if left - take == 0 {
            lemma_run_finished(chunks.drop_first());
            assert(c0.take(left as int) + Seq::<u8>::empty() =~= all.take(left as int));
        } else {
            let left2 = (left - take) as nat;
            lemma_run_remaining(left2, chunks.drop_first());
            assert(c0.take(take as int) =~= c0);
            assert(c0 + rest.take(min_nat(left2, rest.len()) as int)
                =~= all.take(min_nat(left, all.len()) as int));
        }
    }
}

proof fn lemma_run_until_close(chunks: Seq<Seq<u8>>)
    ensures
        run_spec(RelayModel::UntilClose, chunks) == (RelayModel::UntilClose, concat_all(chunks)),
    decreases chunks.len(),
{
    if chunks.len() > 0 {
        lemma_run_until_close(chunks.drop_first());
    }
}

/// A body framed by `Content-Length: l` is passed on exactly up to `l`
/// bytes: what the relay writes, from the bytes that came with the head and
/// every later read, is the first `l` body bytes (or all of them when
/// upstream sends fewer).
pub proof fn law_length_body_forwards_declared_bytes(l: u64, buffered: Seq<u8>, chunks: Seq<Seq<u8>>)
    ensures
        ({
            let (m0, o0) = start_spec(BodyMode::Length(l), buffered);
            let stream = buffered + concat_all(chunks);
            o0 + run_spec(m0, chunks).1 == stream.take(min_nat(l as nat, stream.len()) as int)
        }),
{
    let stream = buffered + concat_all(chunks);
    if l == 0 {
        lemma_run_finished(chunks);
        assert(stream.take(0) =~= Seq::<u8>::empty());
        assert(buffered.take(0) =~= Seq::<u8>::empty());
    } else {
        let all = seq![buffered] + chunks;
        assert(all.drop_first() =~= chunks);
        assert(all[0] == buffered);
        assert(concat_all(all) == stream);
        lemma_run_remaining(l as nat, all);
    }
}

/// A body relayed until close is passed on whole: the bytes that arrived
/// with the head, then every later read, in order, and the relay is still
/// waiting for more until upstream closes.
pub proof fn law_until_close_forwards_whole_body(buffered: Seq<u8>, chunks: Seq<Seq<u8>>)
    ensures
        ({
            let (m0, o0) = start_spec(BodyMode::UntilClose, buffered);
            let (m, o) = run_spec(m0, chunks);
            &&& o0 + o == buffered + concat_all(chunks)
            &&& m is UntilClose
            &&& eof_spec(m) == Seq::<u8>::empty()
        }),
{
    lemma_run_until_close(chunks);
}

proof fn lemma_chunk_end_extend(s: Seq<u8>, u: Seq<u8>)
    requires
        chunk_end(s) is Some,
    ensures
        chunk_end(s + u) == chunk_end(s),
        0 <= chunk_end(s)->0 <= s.len(),
{
    crate::text::lemma_first_index_extend(s, crate::http::chunk_terminator(), u);
    crate::text::lemma_first_index_from(s, crate::http::chunk_terminator(), 0);
}

proof fn lemma_run_chunked_within_limit(acc: Seq<u8>, chunks: Seq<Seq<u8>>)
    requires
        chunk_end(acc) is None,
        acc.len() + concat_all(chunks).len() <= CHUNK_FLUSH,
    ensures
        run_spec(RelayModel::Chunked(acc), chunks) == (match chunk_end(acc + concat_all(chunks)) {
            Some(e) => (RelayModel::Finished, (acc + concat_all(chunks)).take(e)),
            None => (RelayModel::Chunked(acc + concat_all(chunks)), Seq::<u8>::empty()),
        }),
    decreases chunks.len(),
{
    if chunks.len() == 0 {
        assert(acc + concat_all(chunks) =~= acc);
    } else {
        let c0 = chunks[0];
        let rest = concat_all(chunks.drop_first());
        let s1 = acc + c0;
        assert(acc + concat_all(chunks) =~= s1 + rest);
        match chunk_end(s1) {
            Some(e) => {
                lemma_chunk_end_extend(s1, rest);
                lemma_run_finished(chunks.drop_first());
                assert((s1 + rest).take(e) =~= s1.take(e));
                assert(s1.take(e) + Seq::<u8>::empty() =~= s1.take(e));
            },
            None => {
                lemma_run_chunked_within_limit(s1, chunks.drop_first());
                let r = run_spec(RelayModel::Chunked(s1), chunks.drop_first());
                assert(Seq::<u8>::empty() + r.1 =~= r.1);
            },
        }
    }
}

/// A chunked body that fits in the relay's buffer is passed on exactly up
/// to and including its first last-chunk marker `0\r\n\r\n`, and nothing
/// is passed on (the relay goes on waiting) while that marker has not
/// arrived.
pub proof fn law_chunked_body_ends_at_last_chunk(buffered: Seq<u8>, chunks: Seq<Seq<u8>>)
    requires
        buffered.len() + concat_all(chunks).len() <= CHUNK_FLUSH,
    ensures
        ({
            let (m0, o0) = start_spec(BodyMode::Chunked, buffered);
            let (m, o) = run_spec(m0, chunks);
            let stream = buffered + concat_all(chunks);
            &&& o0 + o == match chunk_end(stream) {
                Some(e) => stream.take(e),
                None => Seq::<u8>::empty(),
            }
            &&& (m is Finished <==> chunk_end(stream) is Some)
        }),
{
    let stream = buffered + concat_all(chunks);
    match chunk_end(buffered) {
        Some(e) => {
            lemma_chunk_end_extend(buffered, concat_all(chunks));
            lemma_run_finished(chunks);
            assert(stream.take(e) =~= buffered.take(e));
            assert(buffered.take(e) + Seq::<u8>::empty() =~= buffered.take(e));
        },
        None => {
            lemma_run_chunked_within_limit(buffered, chunks);
            let r = run_spec(RelayModel::Chunked(buffered), chunks);
            assert(Seq::<u8>::empty() + r.1 =~= r.1);
        },
    }
}


/// `x` is a prefix of `s`.
pub open spec fn is_prefix_of(x: Seq<u8>, s: Seq<u8>) -> bool {
    x.len() <= s.len() && s.take(x.len() as int) == x
}

proof fn lemma_run_chunked_prefix(acc: Seq<u8>, chunks: Seq<Seq<u8>>)
    ensures
        ({
            let (m, o) = run_spec(RelayModel::Chunked(acc), chunks);
            let s = acc + concat_all(chunks);
            match m {
                RelayModel::Chunked(a) => o + a == s,
                RelayModel::Finished => is_prefix_of(o, s),
                _ => false,
            }
        }),
    decreases chunks.len(),
{
    let s = acc + concat_all(chunks);
    if chunks.len() == 0 {
        assert(Seq::<u8>::empty() + acc =~= s);
    } else {
        let c0 = chunks[0];
        let tail = chunks.drop_first();
        let rest = concat_all(tail);
        let s1 = acc + c0;
        assert(s =~= s1 + rest);
        match chunk_end(s1) {
            Some(e) => {
                lemma_chunk_end_extend(s1, Seq::empty());
                assert(s1 + Seq::<u8>::empty() =~= s1);
                lemma_run_finished(tail);
                let o = s1.take(e) + Seq::<u8>::empty();
                assert(o =~= s1.take(e));
                assert(s.take(o.len() as int) =~= o);
            },
            None => {
                if s1.len() > CHUNK_FLUSH {
                    lemma_run_chunked_prefix(Seq::empty(), tail);
                    let (m2, o2) = run_spec(RelayModel::Chunked(Seq::empty()), tail);
                    assert(Seq::<u8>::empty() + rest =~= rest);
                    match m2 {
                        RelayModel::Chunked(a) => {
                            assert(s1 + o2 + a =~= s);
                        },
                        _ => {
                            assert(s.take((s1 + o2).len() as int) =~= s1 + o2);
                        },
                    }
                } else {
                    lemma_run_chunked_prefix(s1, tail);
                    let (m2, o2) = run_spec(RelayModel::Chunked(s1), tail);
                    assert(Seq::<u8>::empty() + o2 =~= o2);
                }
            },
        }
    }
}

/// A chunked body is passed on in order and without invention: everything
/// written to the client (including what is flushed when upstream closes)
/// is a prefix of what upstream sent, and all of it when the last chunk
/// never arrived.
pub proof fn law_chunked_body_is_prefix_of_stream(buffered: Seq<u8>, chunks: Seq<Seq<u8>>)
    ensures
        ({
            let (m0, o0) = start_spec(BodyMode::Chunked, buffered);
            let (m, o) = run_spec(m0, chunks);
            let s = buffered + concat_all(chunks);
            let out = o0 + o + eof_spec(m);
            &&& is_prefix_of(out, s)
            &&& (!(m is Finished) ==> out == s)
        }),
{
    let s = buffered + concat_all(chunks);
    let all = seq![buffered] + chunks;
    assert(all.drop_first() =~= chunks);
    assert(all[0] == buffered);
    assert(concat_all(all) == s);
    assert(Seq::<u8>::empty() + buffered =~= buffered);
    lemma_run_chunked_prefix(Seq::empty(), all);
    let (m0, o0) = start_spec(BodyMode::Chunked, buffered);
    let (m, o) = run_spec(m0, chunks);
    assert(run_spec(RelayModel::Chunked(Seq::empty()), all) == (m, o0 + o));
    assert(Seq::<u8>::empty() + s =~= s);
    match m {
        RelayModel::Chunked(a) => {
            assert(o0 + o + a =~= s);
            assert(s.take(s.len() as int) =~= s);
        },
        _ => {
            assert(o0 + o + Seq::<u8>::empty() =~= o0 + o);
        },
    }
}

} // verus!
