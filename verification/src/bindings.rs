//! The calls this library makes into `httparse`, `url` and a few parts of
//! std that vstd does not specify. Each item here is trusted: its contract
//! is believed, not proved.

use vstd::prelude::*;
use vstd::utf8::{decode_utf8, valid_utf8};

verus! {

/// Appends one character (std `String::push`).
#[verifier::external_body]
pub(crate) fn push_char(s: &mut String, c: char)
    ensures
        final(s)@ == old(s)@.push(c),
{
    s.push(c)
}

/// Checks and decodes UTF-8 (std `std::str::from_utf8`): `Some` exactly for
/// well-formed UTF-8, holding the decoded characters.
#[verifier::external_body]
pub(crate) fn utf8_text(bytes: &[u8]) -> (r: Option<String>)
    ensures
        r is Some <==> valid_utf8(bytes@),
        r matches Some(s) ==> s@ == decode_utf8(bytes@),
{
    std::str::from_utf8(bytes).ok().map(|s| s.to_string())
}

/// What `String::from_utf8_lossy` makes of `bytes`.
pub uninterp spec fn utf8_lossy(bytes: Seq<u8>) -> Seq<char>;

/// Decodes UTF-8, replacing malformed sequences (std
/// `String::from_utf8_lossy`). The result is `utf8_lossy` of the bytes; as
/// documented, well-formed input comes back unchanged.
#[verifier::external_body]
pub(crate) fn lossy_text(bytes: &[u8]) -> (r: String)
    ensures
        r@ == utf8_lossy(bytes@),
        valid_utf8(bytes@) ==> r@ == decode_utf8(bytes@),
{
    String::from_utf8_lossy(bytes).into_owned()
}

/// A header as `httparse` hands it out: name and raw value.
#[derive(Debug, Clone)]
pub struct HeaderField {
    pub name: String,
    pub value: Vec<u8>,
}

/// Plain-value headers: (name, value bytes).
pub open spec fn header_views(hs: Seq<HeaderField>) -> Seq<(Seq<char>, Seq<u8>)> {
    hs.map_values(|h: HeaderField| (h.name@, h.value@))
}

/// What `httparse::Request::parse` leaves behind: the status
/// (`Ok(Some(n))` complete with the head `n` bytes long, `Ok(None)`
/// partial, `Err(())` malformed) and the request's fields as they stand
/// after the call.
#[derive(Debug)]
pub struct RequestHead {
    pub status: Result<Option<usize>, ()>,
    pub method: Option<String>,
    pub path: Option<String>,
    pub version: Option<u8>,
    pub headers: Vec<HeaderField>,
}

/// Plain-value form of a parsed request head.
pub type RequestHeadView = (
    Result<Option<usize>, ()>,
    Option<Seq<char>>,
    Option<Seq<char>>,
    Option<u8>,
    Seq<(Seq<char>, Seq<u8>)>,
);

pub open spec fn opt_view(o: Option<String>) -> Option<Seq<char>> {
    match o {
        Some(s) => Some(s@),
        None => None,
    }
}

impl View for RequestHead {
    type V = RequestHeadView;

    open spec fn view(&self) -> RequestHeadView {
        (self.status, opt_view(self.method), opt_view(self.path), self.version, header_views(self.headers@))
    }
}

/// What `httparse` makes of `buf` as a request head with room for
/// `max_headers` headers.
pub uninterp spec fn httparse_request(buf: Seq<u8>, max_headers: usize) -> RequestHeadView;

/// Parses a request head with `httparse::Request::parse`, into a header
/// array of `max_headers` empty slots. The result is named, not described:
/// it is `httparse_request` of the arguments.
#[verifier::external_body]
pub(crate) fn parse_request(buf: &[u8], max_headers: usize) -> (r: RequestHead)
    ensures
        r@ == httparse_request(buf@, max_headers),
{
    let mut slots = vec![httparse::EMPTY_HEADER; max_headers];
    let mut req = httparse::Request::new(&mut slots);
    let status = match req.parse(buf) {
        Ok(httparse::Status::Complete(n)) => Ok(Some(n)),
        Ok(httparse::Status::Partial) => Ok(None),
        Err(_) => Err(()),
    };
    let headers = req.headers.iter().map(|h| HeaderField { name: h.name.to_string(), value: h.value.to_vec() }).collect();
    RequestHead { status, method: req.method.map(|m| m.to_string()), path: req.path.map(|p| p.to_string()), version: req.version, headers }
}

/// What `httparse::Response::parse` leaves behind (see `RequestHead`).
#[derive(Debug)]
pub struct ResponseHead {
    pub status: Result<Option<usize>, ()>,
    pub version: Option<u8>,
    pub code: Option<u16>,
    pub headers: Vec<HeaderField>,
}

/// Plain-value form of a parsed response head.
pub type ResponseHeadView = (Result<Option<usize>, ()>, Option<u8>, Option<u16>, Seq<(Seq<char>, Seq<u8>)>);

impl View for ResponseHead {
    type V = ResponseHeadView;

    open spec fn view(&self) -> ResponseHeadView {
        (self.status, self.version, self.code, header_views(self.headers@))
    }
}

/// What `httparse` makes of `buf` as a response head with room for
/// `max_headers` headers (the reason phrase left out).
pub uninterp spec fn httparse_response(buf: Seq<u8>, max_headers: usize) -> ResponseHeadView;

/// Parses a response head with `httparse::Response::parse`, into a header
/// array of `max_headers` empty slots. The result is `httparse_response` of
/// the arguments.
#[verifier::external_body]
pub(crate) fn parse_response(buf: &[u8], max_headers: usize) -> (r: ResponseHead)
    ensures
        r@ == httparse_response(buf@, max_headers),
{
    let mut slots = vec![httparse::EMPTY_HEADER; max_headers];
    let mut resp = httparse::Response::new(&mut slots);
    let status = match resp.parse(buf) {
        Ok(httparse::Status::Complete(n)) => Ok(Some(n)),
        Ok(httparse::Status::Partial) => Ok(None),
        Err(_) => Err(()),
    };
    let headers = resp.headers.iter().map(|h| HeaderField { name: h.name.to_string(), value: h.value.to_vec() }).collect();
    ResponseHead { status, version: resp.version, code: resp.code, headers }
}

/// The parts of a parsed URL this library reads.
#[derive(Debug)]
pub struct UrlParts {
    pub scheme: String,
    pub host: Option<String>,
    pub port: Option<u16>,
    pub path: String,
    pub query: Option<String>,
}

/// Plain-value form of `UrlParts`: scheme, host, explicit non-default port,
/// path, query.
pub type UrlPartsView = (Seq<char>, Option<Seq<char>>, Option<u16>, Seq<char>, Option<Seq<char>>);

impl View for UrlParts {
    type V = UrlPartsView;

    open spec fn view(&self) -> UrlPartsView {
        (self.scheme@, opt_view(self.host), self.port, self.path@, opt_view(self.query))
    }
}

/// What `url::Url::parse` makes of `input`: `None` when it refuses it.
pub uninterp spec fn url_parse(input: Seq<char>) -> Option<UrlPartsView>;

/// Parses `input` with `url::Url::parse` and reads its scheme, host, port
/// (`None` for the scheme's default), path and query. The result is
/// `url_parse` of the input.
#[verifier::external_body]
pub(crate) fn parse_url(input: &str) -> (r: Option<UrlParts>)
    ensures
        match r {
            Some(u) => url_parse(input@) == Some(u@),
            None => url_parse(input@) is None,
        },
{
    url::Url::parse(input).ok().map(|u| UrlParts {
        scheme: u.scheme().to_string(),
        host: u.host_str().map(|h| h.to_string()),
        port: u.port(),
        path: u.path().to_string(),
        query: u.query().map(|q| q.to_string()),
    })
}

} // verus!
