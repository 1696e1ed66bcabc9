//! The parsers that HTTP/1 heads go through: `memchr` to find the end of a head,
//! `httparse` to split it, and `http` to check its method and status.
use vstd::prelude::*;

verus! {

/// `needle` occurs in `hay` at `i`.
pub open spec fn occurs_at(hay: Seq<u8>, needle: Seq<u8>, i: int) -> bool {
    0 <= i && i + needle.len() <= hay.len() && hay.subrange(i, i + needle.len()) == needle
}

/// `memchr::memmem::find`: the first place where `needle` occurs in `hay`.
#[verifier::external_body]
pub(crate) fn memmem_find(hay: &[u8], needle: &[u8]) -> (r: Option<usize>)
    ensures
        match r {
            Some(i) => occurs_at(hay@, needle@, i as int) && forall|j: int|
                0 <= j < i ==> !occurs_at(hay@, needle@, j),
            None => forall|j: int| !occurs_at(hay@, needle@, j),
        },
{
    memchr::memmem::find(hay, needle)
}

/// One header line as `httparse` splits it.
pub struct RawHeader {
    pub name: Vec<u8>,
    pub value: Vec<u8>,
}

impl View for RawHeader {
    type V = (Seq<u8>, Seq<u8>);

    open spec fn view(&self) -> (Seq<u8>, Seq<u8>) {
        (self.name@, self.value@)
    }
}

/// A request head as `httparse::Request` holds it after parsing.
pub struct RawRequest {
    pub method: Option<Vec<u8>>,
    pub path: Option<Vec<u8>>,
    pub version: Option<u8>,
    pub headers: Vec<RawHeader>,
}

pub struct RawRequestView {
    pub method: Option<Seq<u8>>,
    pub path: Option<Seq<u8>>,
    pub version: Option<u8>,
    pub headers: Seq<(Seq<u8>, Seq<u8>)>,
}

/// A response head as `httparse::Response` holds it after parsing.
pub struct RawResponse {
    pub version: Option<u8>,
    pub code: Option<u16>,
    pub reason: Option<Vec<u8>>,
    pub headers: Vec<RawHeader>,
}

pub struct RawResponseView {
    pub version: Option<u8>,
    pub code: Option<u16>,
    pub reason: Option<Seq<u8>>,
    pub headers: Seq<(Seq<u8>, Seq<u8>)>,
}

pub open spec fn opt_view(o: Option<Vec<u8>>) -> Option<Seq<u8>> {
    match o {
        Some(v) => Some(v@),
        None => None,
    }
}

pub open spec fn raw_headers_view(hs: Seq<RawHeader>) -> Seq<(Seq<u8>, Seq<u8>)> {
    hs.map_values(|h: RawHeader| h@)
}

impl View for RawRequest {
    type V = RawRequestView;

    open spec fn view(&self) -> RawRequestView {
        RawRequestView {
            method: opt_view(self.method),
            path: opt_view(self.path),
            version: self.version,
            headers: raw_headers_view(self.headers@),
        }
    }
}

impl View for RawResponse {
    type V = RawResponseView;

    open spec fn view(&self) -> RawResponseView {
        RawResponseView {
            version: self.version,
            code: self.code,
            reason: opt_view(self.reason),
            headers: raw_headers_view(self.headers@),
        }
    }
}

#[verifier::external_type_specification]
#[verifier::external_body]
pub struct ExHttparseError(httparse::Error);

/// What `httparse::Request::parse` makes of `data` with room for `max_headers` headers:
/// `None` for an error, `Some(None)` when the head is partial, else the parsed head.
pub uninterp spec fn httparse_request(data: Seq<u8>, max_headers: usize) -> Option<Option<RawRequestView>>;

/// What `httparse::Response::parse` makes of `data` with room for `max_headers` headers,
/// in the same form.
pub uninterp spec fn httparse_response(data: Seq<u8>, max_headers: usize) -> Option<Option<RawResponseView>>;

/// `httparse::Request::parse` on `data` with `max_headers` header slots. A complete
/// parse has set method, path and version (the parser sets each before it can return
/// `Complete`); the rest is `httparse_request`.
#[verifier::external_body]
pub(crate) fn parse_request(data: &[u8], max_headers: usize) -> (r: Result<Option<RawRequest>, httparse::Error>)
    ensures
        match r {
            Ok(Some(req)) => httparse_request(data@, max_headers) == Some(Some(req@))
                && req.method is Some && req.path is Some && req.version is Some,
            Ok(None) => httparse_request(data@, max_headers) == Some(None::<RawRequestView>),
            Err(_) => httparse_request(data@, max_headers) is None,
        },
{
    let mut slots = vec![httparse::EMPTY_HEADER; max_headers];
    let mut req = httparse::Request::new(&mut slots);
    match req.parse(data)? {
        httparse::Status::Partial => Ok(None),
        httparse::Status::Complete(_) => Ok(Some(RawRequest {
            method: req.method.map(|m| m.as_bytes().to_vec()),
            path: req.path.map(|p| p.as_bytes().to_vec()),
            version: req.version,
            headers: req.headers.iter().map(|h| RawHeader { name: h.name.as_bytes().to_vec(), value: h.value.to_vec() }).collect(),
        })),
    }
}

/// `httparse::Response::parse` on `data` with `max_headers` header slots. A complete
/// parse has set version and code, the code of three decimal digits, and a reason (empty
/// when the status line has none); the rest is `httparse_response`.
#[verifier::external_body]
pub(crate) fn parse_response(data: &[u8], max_headers: usize) -> (r: Result<Option<RawResponse>, httparse::Error>)
    ensures
        match r {
            Ok(Some(res)) => httparse_response(data@, max_headers) == Some(Some(res@))
                && res.version is Some && res.reason is Some
                && (res.code matches Some(c) && c <= 999),
            Ok(None) => httparse_response(data@, max_headers) == Some(None::<RawResponseView>),
            Err(_) => httparse_response(data@, max_headers) is None,
        },
{
    let mut slots = vec![httparse::EMPTY_HEADER; max_headers];
    let mut res = httparse::Response::new(&mut slots);
    match res.parse(data)? {
        httparse::Status::Partial => Ok(None),
        httparse::Status::Complete(_) => Ok(Some(RawResponse {
            version: res.version,
            code: res.code,
            reason: res.reason.map(|r| r.as_bytes().to_vec()),
            headers: res.headers.iter().map(|h| RawHeader { name: h.name.as_bytes().to_vec(), value: h.value.to_vec() }).collect(),
        })),
    }
}

#[verifier::external_type_specification]
#[verifier::external_body]
pub struct ExInvalidMethod(http::method::InvalidMethod);

#[verifier::external_type_specification]
#[verifier::external_body]
pub struct ExInvalidStatusCode(http::status::InvalidStatusCode);

/// A character a method may hold: a token character (`!`, `*`, `+`, `-`, `.`, a digit,
/// a letter, `^`, `_`, `` ` ``, `|`, `~`).
pub open spec fn is_method_char(b: u8) -> bool {
    b == 33 || b == 42 || b == 43 || b == 45 || b == 46 || (48 <= b <= 57) || (65 <= b <= 90) || b == 94 || b == 95
        || b == 96 || (97 <= b <= 122) || b == 124 || b == 126
}

/// Whether `http::Method` accepts `bytes` as a method: not empty, and each byte a
/// method character.
pub open spec fn is_method(bytes: Seq<u8>) -> bool {
    bytes.len() > 0 && forall|i: int| 0 <= i < bytes.len() ==> is_method_char(#[trigger] bytes[i])
}

/// `http::Method::from_bytes`: `Ok` exactly where `bytes` is a method (`is_method`).
#[verifier::external_body]
pub(crate) fn check_method(bytes: &[u8]) -> (r: Result<(), http::method::InvalidMethod>)
    ensures
        r is Ok <==> is_method(bytes@),
{
    http::Method::from_bytes(bytes).map(|_| ())
}

/// `http::StatusCode::from_u16`: `Ok` exactly for the codes from 100 to 999.
#[verifier::external_body]
pub(crate) fn check_status(code: u16) -> (r: Result<(), http::status::InvalidStatusCode>)
    ensures
        r is Ok <==> (100 <= code && code < 1000),
{
    http::StatusCode::from_u16(code).map(|_| ())
}

/// The reason phrase that `http::StatusCode::canonical_reason` gives for `code`.
pub uninterp spec fn canonical_reason_of(code: u16) -> Option<Seq<u8>>;

/// `http::StatusCode::canonical_reason` of the status `code` (a valid code).
#[verifier::external_body]
pub(crate) fn canonical_reason(code: u16) -> (r: Option<Vec<u8>>)
    requires
        100 <= code && code < 1000,
    ensures
        opt_view(r) == canonical_reason_of(code),
{
    http::StatusCode::from_u16(code).unwrap().canonical_reason().map(|s| s.as_bytes().to_vec())
}

} // verus!
