//! Decoders of HTTP/1 heads and bodies.
use vstd::prelude::*;

use crate::common::buf::{
    buf_as_slice, bytes_as_slice, buf_advance, buf_byte, buf_freeze, buf_len, buf_split_to, bytes_contents, bytes_mut_contents,
};
use crate::common::header::{
    ascii_lower, bytes_eq, entries_wf, has_name, lemma_append_values, lower_byte, map_get, map_values_of, copy_bytes, header_name,
    is_header_name, map_append, EntryView,
    HeaderMap, Version,
};
use crate::common::request::{RequestHead, RequestHeadView};
use crate::common::response::{ResponseHead, ResponseHeadView};
use crate::common::ext::Reason;
use vstd::std_specs::convert::FromSpecImpl;
use crate::common::body::StreamHint;
use crate::common::error::HttpError;
use crate::common::BorrowHeaderMap;
use crate::h1::payload::FramedPayload;
use crate::common::uri::{parse_uri, uri_parts_of};
use crate::h1::codec::raw::{
    canonical_reason, canonical_reason_of, check_method, check_status, httparse_request,
    httparse_response, is_method, memmem_find, occurs_at, opt_view, parse_request,
    parse_response, raw_headers_view, RawHeader, RawRequest, RawRequestView, RawResponse, RawResponseView,
};
use crate::h1::codec::wire::{
    chunk_data_step, chunk_step, hex_prefix_len, hex_value, is_hex_digit, lemma_hex_prefix_len_at,
    lemma_hex_prefix_len_ge, lemma_hex_value_mono, ChunkOutcome, CR, LF,
};

verus! {

/// What a decoder returns when it does not fail: an item, or that it needs more bytes.
#[derive(Debug)]
pub enum Decoded<T> {
    Item(T),
    Insufficient,
    InsufficientAtLeast(usize),
}

impl<T> Decoded<T> {
    /// The item; only for an item.
    pub fn unwrap(self) -> (r: T)
        requires
            self is Item,
        ensures
            self == Decoded::Item(r),
    {
        match self {
            Decoded::Item(t) => t,
            _ => vstd::pervasive::unreached(),
        }
    }
}

#[derive(Debug)]
pub enum InvalidRequestError {
    InvalidMethod(String),
    InvalidUri(String),
    InvalidStatus(String),
}

#[derive(Debug)]
pub enum DecodeError {
    Parse(httparse::Error),
    Method(http::method::InvalidMethod),
    Uri(http::uri::InvalidUri),
    Status(http::status::InvalidStatusCode),
    Header,
    Chunked,
    Io(std::io::Error),
    UnexpectedEof,
    TimedOut,
    Invalid(InvalidRequestError),
}

#[verifier::external_type_specification]
#[verifier::external_body]
pub struct ExIoErrorKind(std::io::ErrorKind);

/// `io::Error::kind`: the kind of `e`.
#[verifier::external_body]
fn io_error_kind(e: &std::io::Error) -> (r: std::io::ErrorKind) {
    e.kind()
}

/// `io::Error`'s text (its `Display`). It is not stated.
#[verifier::external_body]
fn io_error_text(e: &std::io::Error) -> (r: String) {
    e.to_string()
}

/// `io::Error::new(kind, text)`: an error of kind `kind` shown as `text`. Nothing is
/// stated of it, an `io::Error` being opaque here.
#[verifier::external_body]
fn io_error_new(kind: std::io::ErrorKind, text: String) -> (r: std::io::Error) {
    std::io::Error::new(kind, text)
}

/// The text `http` shows an invalid method as (its `Display`).
#[verifier::external_body]
fn invalid_method_text(e: &http::method::InvalidMethod) -> (r: String)
    ensures
        r@ == "invalid HTTP method"@,
{
    e.to_string()
}

/// The text `http` shows an invalid status code as (its `Display`).
#[verifier::external_body]
fn invalid_status_text(e: &http::status::InvalidStatusCode) -> (r: String)
    ensures
        r@ == "invalid status code"@,
{
    e.to_string()
}

/// What `http` shows an invalid URI as: the description of its kind of error.
pub uninterp spec fn invalid_uri_text_of(e: http::uri::InvalidUri) -> Seq<char>;

/// The text `http` shows an invalid URI as (its `Display`), a function of `e` alone.
#[verifier::external_body]
fn invalid_uri_text(e: &http::uri::InvalidUri) -> (r: String)
    ensures
        r@ == invalid_uri_text_of(*e),
{
    e.to_string()
}

/// `c` is what cloning `e` gives: a method, URI or status error becomes an `Invalid`
/// error holding its text; an I/O error, one of the same kind and text; any other, the
/// same error.
pub open spec fn clone_of(e: DecodeError, c: DecodeError) -> bool {
    match e {
        DecodeError::Method(_) => c matches DecodeError::Invalid(InvalidRequestError::InvalidMethod(t))
            && t@ == "invalid HTTP method"@,
        DecodeError::Uri(u) => c matches DecodeError::Invalid(InvalidRequestError::InvalidUri(t)) && t@
            == invalid_uri_text_of(u),
        DecodeError::Status(_) => c matches DecodeError::Invalid(InvalidRequestError::InvalidStatus(t))
            && t@ == "invalid status code"@,
        DecodeError::Io(_) => c is Io,
        DecodeError::Invalid(InvalidRequestError::InvalidMethod(t)) => c matches DecodeError::Invalid(
            InvalidRequestError::InvalidMethod(t2),
        ) && t2@ == t@,
        DecodeError::Invalid(InvalidRequestError::InvalidUri(t)) => c matches DecodeError::Invalid(
            InvalidRequestError::InvalidUri(t2),
        ) && t2@ == t@,
        DecodeError::Invalid(InvalidRequestError::InvalidStatus(t)) => c matches DecodeError::Invalid(
            InvalidRequestError::InvalidStatus(t2),
        ) && t2@ == t@,
        _ => c == e,
    }
}

impl Clone for DecodeError {
    /// A copy of the error, as `clone_of` says: the method, URI and status errors of
    /// `http` cannot be copied and become their text.
    fn clone(&self) -> (r: Self)
        ensures
            clone_of(*self, r),
    {
        match self {
            DecodeError::Parse(e) => DecodeError::Parse(*e),
            DecodeError::Method(e) => DecodeError::Invalid(InvalidRequestError::InvalidMethod(invalid_method_text(e))),
            DecodeError::Uri(e) => DecodeError::Invalid(InvalidRequestError::InvalidUri(invalid_uri_text(e))),
            DecodeError::Status(e) => DecodeError::Invalid(InvalidRequestError::InvalidStatus(invalid_status_text(e))),
            DecodeError::Header => DecodeError::Header,
            DecodeError::Chunked => DecodeError::Chunked,
            DecodeError::Io(e) => DecodeError::Io(io_error_new(io_error_kind(e), io_error_text(e))),
            DecodeError::UnexpectedEof => DecodeError::UnexpectedEof,
            DecodeError::TimedOut => DecodeError::TimedOut,
            DecodeError::Invalid(InvalidRequestError::InvalidMethod(t)) => DecodeError::Invalid(
                InvalidRequestError::InvalidMethod(t.clone()),
            ),
            DecodeError::Invalid(InvalidRequestError::InvalidUri(t)) => DecodeError::Invalid(
                InvalidRequestError::InvalidUri(t.clone()),
            ),
            DecodeError::Invalid(InvalidRequestError::InvalidStatus(t)) => DecodeError::Invalid(
                InvalidRequestError::InvalidStatus(t.clone()),
            ),
        }
    }
}

/// The most headers a head may have.
pub const MAX_HEADERS: usize = 96;

/// Why a head could not be decoded.
#[derive(Debug)]
pub enum HeadError {
    /// `httparse` rejected it.
    Parse,
    /// A header name that `http` does not accept.
    HeaderName,
    /// A method that `http` does not accept.
    Method,
    /// A request target that `http` does not accept as a URI.
    Uri,
    /// A status code out of range.
    Status,
}

/// What one call of a head decoder yields.
pub enum HeadOutcome<H> {
    Insufficient,
    Head(H),
    Failed(HeadError),
}

/// `needle` occurs in `hay` at `i` and nowhere before.
pub open spec fn is_first_occurrence(hay: Seq<u8>, needle: Seq<u8>, i: int) -> bool {
    occurs_at(hay, needle, i) && forall|j: int| 0 <= j < i ==> !occurs_at(hay, needle, j)
}

/// Where `needle` first occurs in `hay`, if it does.
pub open spec fn first_occurrence(hay: Seq<u8>, needle: Seq<u8>) -> Option<int> {
    if exists|i: int| is_first_occurrence(hay, needle, i) {
        Some(choose|i: int| is_first_occurrence(hay, needle, i))
    } else {
        None
    }
}

/// The end of a head: an empty line.
pub open spec fn head_terminator() -> Seq<u8> {
    seq![CR, LF, CR, LF]
}

/// The header map built from header lines in order: each name normalized and its
/// value appended; `None` if a name is not a header name.
pub open spec fn headers_from_raw(pairs: Seq<(Seq<u8>, Seq<u8>)>) -> Option<Seq<EntryView>>
    decreases pairs.len(),
{
    if pairs.len() == 0 {
        Some(Seq::empty())
    } else {
        match headers_from_raw(pairs.drop_last()) {
            Some(m) => if is_header_name(pairs.last().0) {
                Some(map_append(m, ascii_lower(pairs.last().0), pairs.last().1))
            } else {
                None
            },
            None => None,
        }
    }
}

/// The values of the header lines whose name, in lower case, is `name`, in the order
/// the lines come.
pub open spec fn lines_named(pairs: Seq<(Seq<u8>, Seq<u8>)>, name: Seq<u8>) -> Seq<Seq<u8>>
    decreases pairs.len(),
{
    if pairs.len() == 0 {
        Seq::empty()
    } else if ascii_lower(pairs.last().0) == name {
        lines_named(pairs.drop_last(), name).push(pairs.last().1)
    } else {
        lines_named(pairs.drop_last(), name)
    }
}

/// The law of decoding header lines: nothing is lost or replaced. Where the header map
/// of a head is built, it holds, for every name, exactly the values of the lines of that
/// name (in lower case), in the order the lines come; one name has one entry.
pub proof fn lemma_headers_keep_every_line(pairs: Seq<(Seq<u8>, Seq<u8>)>, name: Seq<u8>)
    requires
        headers_from_raw(pairs) is Some,
    ensures
        entries_wf(headers_from_raw(pairs)->0),
        map_values_of(headers_from_raw(pairs)->0, name) == lines_named(pairs, name),
    decreases pairs.len(),
{
    if pairs.len() == 0 {
        let m = headers_from_raw(pairs)->0;
        assert(m =~= Seq::<EntryView>::empty());
        assert(!has_name(m, name));
    } else {
        let rest = pairs.drop_last();
        lemma_headers_keep_every_line(rest, name);
        let m = headers_from_raw(rest)->0;
        lemma_append_values(m, ascii_lower(pairs.last().0), pairs.last().1, name);
    }
}

/// HTTP/1.1 for minor version 1, else HTTP/1.0.
pub open spec fn version_of(minor: Option<u8>) -> Version {
    if minor == Some(1u8) {
        Version::Http11
    } else {
        Version::Http10
    }
}

/// The request head made of what `httparse` found.
pub open spec fn request_from_raw(raw: RawRequestView) -> Result<RequestHeadView, HeadError> {
    match headers_from_raw(raw.headers) {
        None => Err(HeadError::HeaderName),
        Some(headers) => match (raw.method, raw.path) {
            (Some(method), Some(path)) => if !is_method(method) {
                Err(HeadError::Method)
            } else if path != seq![47u8] && uri_parts_of(path) is None {
                Err(HeadError::Uri)
            } else {
                Ok(RequestHeadView { method, uri: path, version: version_of(raw.version), headers })
            },
            _ => Err(HeadError::Parse),
        },
    }
}

/// The reason phrase kept with a response: none where it is the canonical one.
pub open spec fn kept_reason(reason: Option<Seq<u8>>, code: u16) -> Option<Seq<u8>> {
    match reason {
        Some(r) => if Some(r) == canonical_reason_of(code) {
            None
        } else {
            Some(r)
        },
        None => None,
    }
}

/// The response head made of what `httparse` found.
pub open spec fn response_from_raw(raw: RawResponseView) -> Result<ResponseHeadView, HeadError> {
    match headers_from_raw(raw.headers) {
        None => Err(HeadError::HeaderName),
        Some(headers) => match raw.code {
            Some(code) => if !(100 <= code && code < 1000) {
                Err(HeadError::Status)
            } else {
                Ok(ResponseHeadView {
                    version: version_of(raw.version),
                    status: code,
                    headers,
                    reason: kept_reason(raw.reason, code),
                })
            },
            None => Err(HeadError::Parse),
        },
    }
}

/// One call of the request head decoder on `s`: the bytes left and the outcome.
pub open spec fn request_head_step(s: Seq<u8>) -> (Seq<u8>, HeadOutcome<RequestHeadView>) {
    match first_occurrence(s, head_terminator()) {
        None => (s, HeadOutcome::Insufficient),
        Some(i) => {
            let data = s.take(i + 4);
            let rest = s.skip(i + 4);
            match httparse_request(data, MAX_HEADERS) {
                None => (rest, HeadOutcome::Failed(HeadError::Parse)),
                Some(None) => (rest, HeadOutcome::Insufficient),
                Some(Some(raw)) => (
                    rest,
                    match request_from_raw(raw) {
                        Ok(h) => HeadOutcome::Head(h),
                        Err(e) => HeadOutcome::Failed(e),
                    },
                ),
            }
        },
    }
}

/// One call of the response head decoder on `s`: the bytes left and the outcome.
pub open spec fn response_head_step(s: Seq<u8>) -> (Seq<u8>, HeadOutcome<ResponseHeadView>) {
    match first_occurrence(s, head_terminator()) {
        None => (s, HeadOutcome::Insufficient),
        Some(i) => {
            let data = s.take(i + 4);
            let rest = s.skip(i + 4);
            match httparse_response(data, MAX_HEADERS) {
                None => (rest, HeadOutcome::Failed(HeadError::Parse)),
                Some(None) => (rest, HeadOutcome::Insufficient),
                Some(Some(raw)) => (
                    rest,
                    match response_from_raw(raw) {
                        Ok(h) => HeadOutcome::Head(h),
                        Err(e) => HeadOutcome::Failed(e),
                    },
                ),
            }
        },
    }
}

/// Where `needle` first occurs in `hay`, bytes after `hay` do not move its first
/// occurrence.
pub proof fn lemma_first_occurrence_extends(hay: Seq<u8>, needle: Seq<u8>, t: Seq<u8>)
    requires
        first_occurrence(hay, needle) is Some,
    ensures
        first_occurrence(hay + t, needle) == first_occurrence(hay, needle),
{
    let u = hay + t;
    let n = needle.len() as int;
    let i = choose|i: int| is_first_occurrence(hay, needle, i);
    assert(is_first_occurrence(hay, needle, i));
    assert(u.subrange(i, i + n) =~= hay.subrange(i, i + n));
    assert forall|j: int| 0 <= j < i implies !occurs_at(u, needle, j) by {
        assert(!occurs_at(hay, needle, j));
        assert(u.subrange(j, j + n) =~= hay.subrange(j, j + n));
    }
    assert(is_first_occurrence(u, needle, i));
    let k = choose|k: int| is_first_occurrence(u, needle, k);
    assert(is_first_occurrence(u, needle, k));
    assert(k == i);
}

/// The law of incremental request head decoding: once the bytes read hold the end of
/// a head, bytes arriving after them change neither the outcome nor what is left
/// before them.
pub proof fn lemma_request_head_step_extends(s: Seq<u8>, t: Seq<u8>)
    requires
        first_occurrence(s, head_terminator()) is Some,
    ensures
        request_head_step(s + t) == (request_head_step(s).0 + t, request_head_step(s).1),
{
    lemma_first_occurrence_extends(s, head_terminator(), t);
    let i = first_occurrence(s, head_terminator())->0;
    assert(is_first_occurrence(s, head_terminator(), i));
    assert((s + t).take(i + 4) =~= s.take(i + 4));
    assert((s + t).skip(i + 4) =~= s.skip(i + 4) + t);
}

/// The law of incremental response head decoding: once the bytes read hold the end
/// of a head, bytes arriving after them change neither the outcome nor what is left
/// before them.
pub proof fn lemma_response_head_step_extends(s: Seq<u8>, t: Seq<u8>)
    requires
        first_occurrence(s, head_terminator()) is Some,
    ensures
        response_head_step(s + t) == (response_head_step(s).0 + t, response_head_step(s).1),
{
    lemma_first_occurrence_extends(s, head_terminator(), t);
    let i = first_occurrence(s, head_terminator())->0;
    assert(is_first_occurrence(s, head_terminator(), i));
    assert((s + t).take(i + 4) =~= s.take(i + 4));
    assert((s + t).skip(i + 4) =~= s.skip(i + 4) + t);
}

/// The decode error for a head error.
pub open spec fn decode_error_is(e: DecodeError, he: HeadError) -> bool {
    match he {
        HeadError::Parse => e is Parse,
        HeadError::HeaderName => e is Header,
        HeadError::Method => e is Method,
        HeadError::Uri => e is Uri,
        HeadError::Status => e is Status,
    }
}

pub open spec fn request_result_is(
    r: Result<Decoded<RequestHead>, DecodeError>,
    out: HeadOutcome<RequestHeadView>,
) -> bool {
    match out {
        HeadOutcome::Insufficient => r matches Ok(Decoded::Insufficient),
        HeadOutcome::Head(h) => r matches Ok(Decoded::Item(x)) && x@ == h,
        HeadOutcome::Failed(he) => r matches Err(e) && decode_error_is(e, he),
    }
}

pub open spec fn response_result_is(
    r: Result<Decoded<ResponseHead>, DecodeError>,
    out: HeadOutcome<ResponseHeadView>,
) -> bool {
    match out {
        HeadOutcome::Insufficient => r matches Ok(Decoded::Insufficient),
        HeadOutcome::Head(h) => r matches Ok(Decoded::Item(x)) && x@ == h,
        HeadOutcome::Failed(he) => r matches Err(e) && decode_error_is(e, he),
    }
}

proof fn lemma_headers_from_raw_fails(pairs: Seq<(Seq<u8>, Seq<u8>)>, i: int)
    requires
        0 <= i <= pairs.len(),
        headers_from_raw(pairs.take(i)) is None,
    ensures
        headers_from_raw(pairs) is None,
    decreases pairs.len() - i,
{
    if i < pairs.len() {
        assert(pairs.take(i + 1).drop_last() =~= pairs.take(i));
        lemma_headers_from_raw_fails(pairs, i + 1);
    } else {
        assert(pairs.take(i) =~= pairs);
    }
}

/// Builds the header map of a head from its header lines, as `headers_from_raw` says.
fn build_headers(raw: &Vec<RawHeader>) -> (r: Option<HeaderMap>)
    ensures
        match r {
            Some(m) => headers_from_raw(raw_headers_view(raw@)) == Some(m@),
            None => headers_from_raw(raw_headers_view(raw@)) is None,
        },
{
    let ghost pairs = raw_headers_view(raw@);
    let mut map = HeaderMap::with_capacity(raw.len());
    let mut i: usize = 0;
    assert(pairs.take(0) =~= Seq::<(Seq<u8>, Seq<u8>)>::empty());
    while i < raw.len()
        invariant
            i <= raw@.len(),
            pairs == raw_headers_view(raw@),
            pairs.len() == raw@.len(),
            headers_from_raw(pairs.take(i as int)) == Some(map@),
        decreases raw@.len() - i,
    {
        assert(pairs[i as int] == raw@[i as int]@);
        assert(pairs.take(i + 1int).drop_last() =~= pairs.take(i as int));
        assert(pairs.take(i + 1int).last() == pairs[i as int]);
        match header_name(raw[i].name.as_slice()) {
            Some(name) => {
                map.append(name, copy_bytes(raw[i].value.as_slice()));
            },
            None => {
                proof { lemma_headers_from_raw_fails(pairs, i + 1int); }
                return None;
            },
        }
        i += 1;
    }
    assert(pairs.take(i as int) =~= pairs);
    Some(map)
}

fn version_from_minor(minor: Option<u8>) -> (r: Version)
    ensures
        r == version_of(minor),
{
    match minor {
        Some(1) => Version::Http11,
        _ => Version::Http10,
    }
}

/// Finds the end of the head: the first empty line.
fn find_head_end(src: &bytes::BytesMut) -> (r: Option<usize>)
    ensures
        match r {
            Some(i) => {
                &&& first_occurrence(bytes_mut_contents(*src), head_terminator()) == Some(i as int)
                &&& i + 4 <= bytes_mut_contents(*src).len()
            },
            None => first_occurrence(bytes_mut_contents(*src), head_terminator()) is None,
        },
{
    let needle: [u8; 4] = [CR, LF, CR, LF];
    let hay = buf_as_slice(src);
    let r = memmem_find(hay, needle.as_slice());
    proof {
        let s = bytes_mut_contents(*src);
        assert(needle@ =~= head_terminator());
        match r {
            Some(i) => {
                assert(is_first_occurrence(s, head_terminator(), i as int));
                let k = choose|k: int| is_first_occurrence(s, head_terminator(), k);
                if k < i {
                    assert(!occurs_at(s, head_terminator(), k));
                } else if i < k {
                    assert(!occurs_at(s, head_terminator(), i as int));
                }
            },
            None => {
                assert forall|k: int| !is_first_occurrence(s, head_terminator(), k) by {
                    assert(!occurs_at(s, head_terminator(), k));
                }
            },
        }
    }
    r
}

/// A decoder of message heads: it takes a head off the front of the bytes read, or
/// says that more are needed.
pub trait DecodeHead {
    type Head: BorrowHeaderMap;

    /// Whether decoding `src` may leave `rest` and give `r`.
    spec fn decodes(src: Seq<u8>, rest: Seq<u8>, r: Result<Decoded<Self::Head>, DecodeError>) -> bool;

    fn decode(&mut self, src: &mut bytes::BytesMut) -> (r: Result<Decoded<Self::Head>, DecodeError>)
        ensures
            Self::decodes(bytes_mut_contents(*old(src)), bytes_mut_contents(*final(src)), r),
    ;
}

/// Decoder of HTTP/1 request heads.
#[derive(Default)]
pub struct RequestHeadDecoder;

impl DecodeHead for RequestHeadDecoder {
    type Head = RequestHead;

    /// As `request_head_step` says.
    open spec fn decodes(src: Seq<u8>, rest: Seq<u8>, r: Result<Decoded<RequestHead>, DecodeError>) -> bool {
        let (rest2, out) = request_head_step(src);
        &&& rest == rest2
        &&& request_result_is(r, out)
    }

    /// Splits off the head (up to its empty line), parses it, and builds the request
    /// head, as `request_head_step` says.
    fn decode(&mut self, src: &mut bytes::BytesMut) -> (r: Result<Decoded<RequestHead>, DecodeError>)
    {
        let ghost s = bytes_mut_contents(*src);
        let _len = buf_len(src);
        let idx = match find_head_end(&*src) {
            Some(idx) => idx,
            None => return Ok(Decoded::Insufficient),
        };
        let header_data = buf_freeze(buf_split_to(src, idx + 4));
        let raw = match parse_request(bytes_as_slice(&header_data), MAX_HEADERS) {
            Ok(Some(raw)) => raw,
            Ok(None) => return Ok(Decoded::Insufficient),
            Err(e) => return Err(DecodeError::Parse(e)),
        };
        match request_head_from_raw(raw) {
            Ok(head) => Ok(Decoded::Item(head)),
            Err(e) => Err(e),
        }
    }
}

/// The request head made of what a complete `httparse` parse found (method and path
/// set), as `request_from_raw` says: the header names checked and normalized, the
/// method and the request target checked.
pub fn request_head_from_raw(raw: RawRequest) -> (r: Result<RequestHead, DecodeError>)
    requires
        raw.method is Some,
        raw.path is Some,
    ensures
        match request_from_raw(raw@) {
            Ok(h) => r matches Ok(x) && x@ == h,
            Err(he) => r matches Err(e) && decode_error_is(e, he),
        },
{
    let headers = match build_headers(&raw.headers) {
        Some(h) => h,
        None => return Err(DecodeError::Header),
    };
    let version = version_from_minor(raw.version);
    let (method, path) = match (raw.method, raw.path) {
        (Some(m), Some(p)) => (m, p),
        _ => {
            proof { assert(false); }
            return Err(DecodeError::Header);
        },
    };
    if let Err(e) = check_method(method.as_slice()) {
        return Err(DecodeError::Method(e));
    }
    let slash: [u8; 1] = [47u8];
    proof {
        assert(slash@ =~= seq![47u8]);
    }
    if !bytes_eq(path.as_slice(), slash.as_slice()) {
        if let Err(e) = parse_uri(path.as_slice()) {
            return Err(DecodeError::Uri(e));
        }
    }
    Ok(RequestHead { method, uri: path, version, headers })
}

/// Decoder of HTTP/1 response heads.
#[derive(Default)]
pub struct ResponseHeadDecoder;

impl DecodeHead for ResponseHeadDecoder {
    type Head = ResponseHead;

    /// As `response_head_step` says.
    open spec fn decodes(src: Seq<u8>, rest: Seq<u8>, r: Result<Decoded<ResponseHead>, DecodeError>) -> bool {
        let (rest2, out) = response_head_step(src);
        &&& rest == rest2
        &&& response_result_is(r, out)
    }

    /// Splits off the head (up to its empty line), parses it, and builds the response
    /// head, as `response_head_step` says.
    fn decode(&mut self, src: &mut bytes::BytesMut) -> (r: Result<Decoded<ResponseHead>, DecodeError>)
    {
        let _len = buf_len(src);
        let idx = match find_head_end(&*src) {
            Some(idx) => idx,
            None => return Ok(Decoded::Insufficient),
        };
        let header_data = buf_freeze(buf_split_to(src, idx + 4));
        let raw = match parse_response(bytes_as_slice(&header_data), MAX_HEADERS) {
            Ok(Some(raw)) => raw,
            Ok(None) => return Ok(Decoded::Insufficient),
            Err(e) => return Err(DecodeError::Parse(e)),
        };
        match response_head_from_raw(raw) {
            Ok(head) => Ok(Decoded::Item(head)),
            Err(e) => Err(e),
        }
    }
}

/// The response head made of what a complete `httparse` parse found (a status code
/// set), as `response_from_raw` says: the header names checked and normalized, the
/// status code checked, and the reason phrase kept where it is not the canonical one.
pub fn response_head_from_raw(raw: RawResponse) -> (r: Result<ResponseHead, DecodeError>)
    requires
        raw.code is Some,
    ensures
        match response_from_raw(raw@) {
            Ok(h) => r matches Ok(x) && x@ == h,
            Err(he) => r matches Err(e) && decode_error_is(e, he),
        },
{
    let headers = match build_headers(&raw.headers) {
        Some(h) => h,
        None => return Err(DecodeError::Header),
    };
    let version = version_from_minor(raw.version);
    let code = match raw.code {
        Some(c) => c,
        None => {
            proof { assert(false); }
            return Err(DecodeError::Header);
        },
    };
    if let Err(e) = check_status(code) {
        return Err(DecodeError::Status(e));
    }
    let reason = match raw.reason {
        Some(r) => match canonical_reason(code) {
            Some(c) if bytes_eq(r.as_slice(), c.as_slice()) => None,
            _ => Some(Reason(r)),
        },
        None => None,
    };
    Ok(ResponseHead { version, status: code, headers, reason })
}

/// How the body after a head is framed.
#[derive(Clone, Copy, PartialEq, Eq, Structural, Debug)]
pub enum BodyKind {
    /// No body.
    Empty,
    /// A body of this many bytes.
    Fixed(usize),
    /// A body in the chunked coding.
    Chunked,
}

/// A byte `http::HeaderValue::to_str` accepts: visible ASCII or a tab.
pub open spec fn is_visible_ascii(b: u8) -> bool {
    (b >= 32 && b < 127) || b == 9
}

/// The value of a non-empty run of decimal digits, or `None` where `s` is not one or
/// its value does not fit in a `usize` (what `usize::from_str` accepts, without a sign).
pub open spec fn decimal_value(s: Seq<u8>) -> Option<nat>
    decreases s.len(),
{
    if s.len() == 0 {
        None
    } else if !(48 <= s.last() && s.last() <= 57) {
        None
    } else {
        let low = (s.last() - 48) as nat;
        let v = if s.len() == 1 {
            Some(low)
        } else {
            match decimal_value(s.drop_last()) {
                Some(high) => Some(high * 10 + low),
                None => None,
            }
        };
        match v {
            Some(n) => if n <= usize::MAX {
                Some(n)
            } else {
                None
            },
            None => None,
        }
    }
}

pub open spec fn transfer_encoding_name() -> Seq<u8> {
    seq![116u8, 114, 97, 110, 115, 102, 101, 114, 45, 101, 110, 99, 111, 100, 105, 110, 103]
}

pub open spec fn content_length_name() -> Seq<u8> {
    seq![99u8, 111, 110, 116, 101, 110, 116, 45, 108, 101, 110, 103, 116, 104]
}

pub open spec fn chunked_token() -> Seq<u8> {
    seq![99u8, 104, 117, 110, 107, 101, 100]
}

pub open spec fn identity_token() -> Seq<u8> {
    seq![105u8, 100, 101, 110, 116, 105, 116, 121]
}

/// How the body after a head with `headers` is framed, or `None` where the head frames
/// it in a way that is not accepted: a transfer coding other than `chunked` and
/// `identity`, or a content length that is not a plain decimal number.
pub open spec fn body_kind(headers: Seq<EntryView>) -> Option<BodyKind> {
    let te = map_get(headers, transfer_encoding_name());
    if te matches Some(v) && ascii_lower(v) == chunked_token() {
        Some(BodyKind::Chunked)
    } else if te matches Some(v) && ascii_lower(v) != identity_token() {
        None
    } else {
        match map_get(headers, content_length_name()) {
            None => Some(BodyKind::Empty),
            Some(cl) => if exists|i: int| 0 <= i < cl.len() && !is_visible_ascii(#[trigger] cl[i]) {
                None
            } else if cl.len() > 0 && cl[0] == 43u8 {
                None
            } else {
                match decimal_value(cl) {
                    None => None,
                    Some(n) => if n == 0 {
                        Some(BodyKind::Empty)
                    } else {
                        Some(BodyKind::Fixed(n as usize))
                    },
                }
            },
        }
    }
}

/// `[u8]::eq_ignore_ascii_case`.
pub fn eq_ignore_ascii_case(a: &[u8], b: &[u8]) -> (r: bool)
    ensures
        r == (ascii_lower(a@) == ascii_lower(b@)),
{
    if a.len() != b.len() {
        proof {
            assert(ascii_lower(a@).len() != ascii_lower(b@).len());
        }
        return false;
    }
    let mut i: usize = 0;
    while i < a.len()
        invariant
            a.len() == b.len(),
            i <= a.len(),
            forall|j: int| 0 <= j < i ==> lower_byte(a@[j]) == lower_byte(b@[j]),
        decreases a.len() - i,
    {
        let x = if 65 <= a[i] && a[i] <= 90 { a[i] + 32 } else { a[i] };
        let y = if 65 <= b[i] && b[i] <= 90 { b[i] + 32 } else { b[i] };
        if x != y {
            proof {
                assert(ascii_lower(a@)[i as int] != ascii_lower(b@)[i as int]);
            }
            return false;
        }
        i += 1;
    }
    assert(ascii_lower(a@) =~= ascii_lower(b@));
    true
}

/// `usize::from_str` on a string without a sign: the value of a non-empty run of
/// decimal digits that fits in a `usize`.
pub fn parse_decimal(s: &[u8]) -> (r: Option<usize>)
    ensures
        match r {
            Some(n) => decimal_value(s@) == Some(n as nat),
            None => decimal_value(s@) is None,
        },
{
    if s.len() == 0 {
        return None;
    }
    let mut value: usize = 0;
    let mut i: usize = 0;
    while i < s.len()
        invariant
            0 < s@.len(),
            i <= s@.len(),
            i > 0 ==> decimal_value(s@.take(i as int)) == Some(value as nat),
            i == 0 ==> value == 0,
        decreases s@.len() - i,
    {
        let b = s[i];
        proof {
            let t = s@.take(i + 1int);
            assert(t.drop_last() =~= s@.take(i as int));
            assert(t.last() == b);
        }
        if !(48 <= b && b <= 57) {
            proof { lemma_decimal_fails(s@, i + 1int); }
            return None;
        }
        let d = (b - 48) as usize;
        if i == 0 {
            value = d;
        } else {
            match value.checked_mul(10) {
                Some(v) => match v.checked_add(d) {
                    Some(v2) => value = v2,
                    None => {
                        proof { lemma_decimal_fails(s@, i + 1int); }
                        return None;
                    },
                },
                None => {
                    proof { lemma_decimal_fails(s@, i + 1int); }
                    return None;
                },
            }
        }
        i += 1;
    }
    assert(s@.take(i as int) =~= s@);
    Some(value)
}

/// A prefix that is not a number that fits makes no longer one fit.
proof fn lemma_decimal_fails(s: Seq<u8>, k: int)
    requires
        0 < k <= s.len(),
        decimal_value(s.take(k)) is None,
    ensures
        decimal_value(s) is None,
    decreases s.len() - k,
{
    if k < s.len() {
        let t = s.take(k + 1);
        assert(t.drop_last() =~= s.take(k));
        lemma_decimal_fails(s, k + 1);
    } else {
        assert(s.take(k) =~= s);
    }
}

/// Whether every byte of `v` is one `to_str` accepts.
fn all_visible_ascii(v: &[u8]) -> (r: bool)
    ensures
        r == !(exists|i: int| 0 <= i < v@.len() && !is_visible_ascii(#[trigger] v@[i])),
{
    let mut i: usize = 0;
    while i < v.len()
        invariant
            i <= v@.len(),
            forall|j: int| 0 <= j < i ==> is_visible_ascii(#[trigger] v@[j]),
        decreases v@.len() - i,
    {
        let b = v[i];
        if !((b >= 32 && b < 127) || b == 9) {
            assert(!is_visible_ascii(v@[i as int]));
            return false;
        }
        i += 1;
    }
    true
}

/// How the body after a head with `headers` is framed; `DecodeError::Header` where it
/// is not accepted. Exactly as `body_kind` says.
pub fn classify_body(headers: &HeaderMap) -> (r: Result<BodyKind, DecodeError>)
    ensures
        match body_kind(headers@) {
            Some(k) => r == Ok::<BodyKind, DecodeError>(k),
            None => r matches Err(DecodeError::Header),
        },
{
    let te_name: [u8; 17] = [116, 114, 97, 110, 115, 102, 101, 114, 45, 101, 110, 99, 111, 100, 105, 110, 103];
    let cl_name: [u8; 14] = [99, 111, 110, 116, 101, 110, 116, 45, 108, 101, 110, 103, 116, 104];
    let chunked: [u8; 7] = [99, 104, 117, 110, 107, 101, 100];
    let identity: [u8; 8] = [105, 100, 101, 110, 116, 105, 116, 121];
    proof {
        assert(te_name@ =~= transfer_encoding_name());
        assert(cl_name@ =~= content_length_name());
        assert(ascii_lower(chunked@) =~= chunked_token());
        assert(ascii_lower(identity@) =~= identity_token());
    }
    if let Some(te) = headers.get(te_name.as_slice()) {
        if eq_ignore_ascii_case(te.as_slice(), chunked.as_slice()) {
            return Ok(BodyKind::Chunked);
        }
        if !eq_ignore_ascii_case(te.as_slice(), identity.as_slice()) {
            return Err(DecodeError::Header);
        }
    }
    if let Some(cl) = headers.get(cl_name.as_slice()) {
        if !all_visible_ascii(cl.as_slice()) {
            return Err(DecodeError::Header);
        }
        if cl.len() > 0 && cl[0] == 43u8 {
            return Err(DecodeError::Header);
        }
        return match parse_decimal(cl.as_slice()) {
            Some(0) => Ok(BodyKind::Empty),
            Some(n) => Ok(BodyKind::Fixed(n)),
            None => Err(DecodeError::Header),
        };
    }
    Ok(BodyKind::Empty)
}

/// Decoder of an HTTP/1 body of fixed length.
#[derive(Debug)]
pub struct FixedBodyDecoder(pub usize);

impl FixedBodyDecoder {
    /// Takes the whole body once that many bytes are there.
    pub fn decode(&mut self, src: &mut bytes::BytesMut) -> (r: Result<Decoded<bytes::Bytes>, DecodeError>)
        ensures
            *final(self) == *old(self),
            bytes_mut_contents(*old(src)).len() < old(self).0 ==> (r matches Ok(Decoded::Insufficient)
                && bytes_mut_contents(*final(src)) == bytes_mut_contents(*old(src))),
            bytes_mut_contents(*old(src)).len() >= old(self).0 ==> (r matches Ok(Decoded::Item(body))
                && bytes_contents(body) == bytes_mut_contents(*old(src)).take(old(self).0 as int)
                && bytes_mut_contents(*final(src)) == bytes_mut_contents(*old(src)).skip(
                old(self).0 as int,
            )),
    {
        if buf_len(src) < self.0 {
            return Ok(Decoded::Insufficient);
        }
        let body = buf_freeze(buf_split_to(src, self.0));
        Ok(Decoded::Item(body))
    }
}

/// Decoder of an HTTP/1 body in the chunked coding (trailers are not supported).
/// It holds the size of the chunk whose data comes next, once its size line was read.
#[derive(Debug)]
pub struct ChunkedBodyDecoder(Option<usize>);

impl Default for ChunkedBodyDecoder {
    fn default() -> (r: Self)
        ensures
            r.state() == None::<nat>,
    {
        ChunkedBodyDecoder(None)
    }
}

/// Whether a decoder result is the outcome the wire format gives.
pub open spec fn chunk_result_is(r: Result<Decoded<Option<bytes::Bytes>>, DecodeError>, out: ChunkOutcome) -> bool {
    match out {
        ChunkOutcome::Insufficient => r matches Ok(Decoded::Insufficient),
        ChunkOutcome::Invalid => r matches Err(DecodeError::Chunked),
        ChunkOutcome::Data(None) => r matches Ok(Decoded::Item(None)),
        ChunkOutcome::Data(Some(d)) => r matches Ok(Decoded::Item(Some(b))) && bytes_contents(b) == d,
    }
}

impl ChunkedBodyDecoder {
    #[verifier::type_invariant]
    spec fn size_fits(self) -> bool {
        self.0 matches Some(len) ==> len <= usize::MAX - 2
    }

    /// The size of the chunk whose data is expected next, if its size line was read.
    pub closed spec fn state(self) -> Option<nat> {
        match self.0 {
            Some(len) => Some(len as nat),
            None => None,
        }
    }

    /// The start state: a size line comes next.
    pub fn new() -> (r: Self)
        ensures
            r.state() == None::<nat>,
    {
        ChunkedBodyDecoder(None)
    }

    fn decode_data(&mut self, len: usize, src: &mut bytes::BytesMut) -> (r: Result<Decoded<Option<bytes::Bytes>>, DecodeError>)
        requires
            old(self).0 == Some(len),
        ensures
            ({
                let (st, rest, out) = chunk_data_step(len as nat, bytes_mut_contents(*old(src)));
                &&& final(self).state() == st
                &&& bytes_mut_contents(*final(src)) == rest
                &&& chunk_result_is(r, out)
            }),
    {
        proof { use_type_invariant(&*self); }
        let ghost s = bytes_mut_contents(*src);
        let n = buf_len(src);
        if n < len + 2 {
            return Ok(Decoded::Insufficient);
        }
        if buf_byte(src, len) != CR || buf_byte(src, len + 1) != LF {
            return Err(DecodeError::Chunked);
        }
        let data = if len != 0 {
            Some(buf_freeze(buf_split_to(src, len)))
        } else {
            None
        };
        buf_advance(src, 2);
        proof {
            assert(s.skip(len as int).skip(2) =~= s.skip(len + 2int));
        }
        self.0 = None;
        Ok(Decoded::Item(data))
    }

    /// Decodes the next chunk: its data, `None` at the last chunk, or that more bytes
    /// are needed. Exactly as `chunk_step` says.
    pub fn decode(&mut self, src: &mut bytes::BytesMut) -> (r: Result<Decoded<Option<bytes::Bytes>>, DecodeError>)
        ensures
            ({
                let (st, rest, out) = chunk_step(old(self).state(), bytes_mut_contents(*old(src)));
                &&& final(self).state() == st
                &&& bytes_mut_contents(*final(src)) == rest
                &&& chunk_result_is(r, out)
            }),
    {
        proof { use_type_invariant(&*self); }
        if let Some(len) = self.0 {
            return self.decode_data(len, src);
        }
        let ghost s = bytes_mut_contents(*src);
        let n = buf_len(src);
        if n < 3 {
            // There must be at least 3 bytes ("0\r\n").
            return Ok(Decoded::Insufficient);
        }
        let mut len: usize = 0;
        let mut read: usize = 0;
        let mut at_cr = false;
        while !at_cr && read < n
            invariant
                n == s.len(),
                n >= 3,
                s == bytes_mut_contents(*old(src)),
                bytes_mut_contents(*src) == s,
                *self == *old(self),
                old(self).0 is None,
                read <= n,
                len == hex_value(s.take(read as int)),
                forall|j: int| 0 <= j < read ==> is_hex_digit(#[trigger] s[j]),
                at_cr ==> read < n && s[read as int] == CR,
            decreases n - read + (if at_cr { 0int } else { 1int }),
        {
            let b = buf_byte(src, read);
            if b == CR {
                at_cr = true;
            } else {
                let d: u8 = if 48 <= b && b <= 57 {
                    b - 48
                } else if 97 <= b && b <= 102 {
                    b - 97 + 10
                } else if 65 <= b && b <= 70 {
                    b - 65 + 10
                } else {
                    proof { lemma_hex_prefix_len_at(s, read as int); }
                    return Err(DecodeError::Chunked);
                };
                proof {
                    assert(s.take(read + 1int).drop_last() =~= s.take(read as int));
                    assert(s.take(read + 1int).last() == b);
                }
                match len.checked_mul(16) {
                    Some(new_len) => {
                        len = new_len + d as usize;
                    },
                    None => {
                        // Too big chunk size.
                        proof {
                            lemma_hex_prefix_len_ge(s, read + 1int);
                            lemma_hex_value_mono(s, read + 1int, hex_prefix_len(s) as int);
                        }
                        return Err(DecodeError::Chunked);
                    },
                }
                read += 1;
            }
        }
        proof { lemma_hex_prefix_len_at(s, read as int); }
        if len > usize::MAX - 2 {
            // Too big chunk size.
            return Err(DecodeError::Chunked);
        }
        if n - read < 2 {
            return Ok(Decoded::Insufficient);
        }
        if buf_byte(src, read) != CR || buf_byte(src, read + 1) != LF {
            return Err(DecodeError::Chunked);
        }
        buf_advance(src, read + 2);
        self.0 = Some(len);
        self.decode_data(len, src)
    }
}


/// The decoder in use for a body: none, one for a body of fixed length, or one for a
/// body in pieces.
#[derive(Debug)]
pub enum PayloadDecoder<FDE, SDE> {
    Empty,
    Fixed(FDE),
    Streamed(SDE),
}

impl<FDE, SDE> PayloadDecoder<FDE, SDE> {
    /// How a body with this decoder is delivered.
    pub open spec fn hint_spec(self) -> StreamHint {
        match self {
            PayloadDecoder::Empty => StreamHint::Empty,
            PayloadDecoder::Fixed(_) => StreamHint::Fixed,
            PayloadDecoder::Streamed(_) => StreamHint::Stream,
        }
    }

    /// How a body with this decoder is delivered.
    pub fn hint(&self) -> (r: StreamHint)
        ensures
            r == self.hint_spec(),
    {
        match self {
            PayloadDecoder::Empty => StreamHint::Empty,
            PayloadDecoder::Fixed(_) => StreamHint::Fixed,
            PayloadDecoder::Streamed(_) => StreamHint::Stream,
        }
    }
}

impl PayloadDecoder<FixedBodyDecoder, ChunkedBodyDecoder> {
    /// The body this decoder frames, to be read from `next_with`.
    pub fn with_io<IO>(self, next_with: IO) -> (r: FramedPayload<IO>)
        ensures
            r.source() == next_with,
            r.decoder() == self,
            !r.is_eof(),
    {
        FramedPayload::new(next_with, self)
    }
}

/// What a head decoder's result becomes, once the way its body is framed is known.
pub trait ItemWrapper<I, R> {
    type Output;

    /// Whether `out` is what wrapping `input`, whose body is framed as `kind`, gives.
    spec fn wraps(input: I, kind: BodyKind, out: Self::Output) -> bool;

    fn wrap_none(input: I) -> (out: Self::Output)
        ensures
            Self::wraps(input, BodyKind::Empty, out),
    ;

    fn wrap_fixed(input: I, length: usize) -> (out: Self::Output)
        ensures
            Self::wraps(input, BodyKind::Fixed(length), out),
    ;

    fn wrap_stream(input: I) -> (out: Self::Output)
        ensures
            Self::wraps(input, BodyKind::Chunked, out),
    ;
}

/// Hands out the head together with the decoder of the body that follows it.
#[derive(Debug, Clone, Copy, Default)]
pub struct DirectWrapper;

impl<H, R> ItemWrapper<H, R> for DirectWrapper {
    type Output = (H, PayloadDecoder<FixedBodyDecoder, ChunkedBodyDecoder>);

    open spec fn wraps(input: H, kind: BodyKind, out: Self::Output) -> bool {
        &&& out.0 == input
        &&& match kind {
            BodyKind::Empty => out.1 is Empty,
            BodyKind::Fixed(n) => out.1 == PayloadDecoder::<FixedBodyDecoder, ChunkedBodyDecoder>::Fixed(
                FixedBodyDecoder(n),
            ),
            BodyKind::Chunked => out.1 matches PayloadDecoder::Streamed(d) && d.state() is None,
        }
    }

    fn wrap_none(input: H) -> (out: Self::Output) {
        (input, PayloadDecoder::Empty)
    }

    fn wrap_fixed(input: H, length: usize) -> (out: Self::Output) {
        (input, PayloadDecoder::Fixed(FixedBodyDecoder(length)))
    }

    fn wrap_stream(input: H) -> (out: Self::Output) {
        (input, PayloadDecoder::Streamed(ChunkedBodyDecoder::new()))
    }
}

/// Whether `r` is what a head decoder that frames bodies gives, where the head
/// decoder inside it gave `inner`: the head wrapped as its headers frame the body
/// (`DecodeError::Header` where they frame it in a way not accepted), the need for more
/// bytes passed on, and errors passed on.
pub open spec fn wrapped_result<H: BorrowHeaderMap, R, F: ItemWrapper<H, R>>(
    inner: Result<Decoded<H>, DecodeError>,
    r: Result<Decoded<F::Output>, HttpError>,
) -> bool {
    match inner {
        Ok(Decoded::Item(head)) => match body_kind(head.spec_header_map()) {
            Some(kind) => r matches Ok(Decoded::Item(out)) && F::wraps(head, kind, out),
            None => r matches Err(HttpError::H1DecodeError(DecodeError::Header)),
        },
        Ok(Decoded::Insufficient) => r matches Ok(Decoded::Insufficient),
        Ok(Decoded::InsufficientAtLeast(n)) => r matches Ok(Decoded::InsufficientAtLeast(m)) && m == n,
        Err(e) => r == Err::<Decoded<F::Output>, HttpError>(HttpError::H1DecodeError(e)),
    }
}

/// A head decoder `D` that also reads, from the head's headers, how the body that
/// follows is framed, and hands the head out wrapped by `F`.
pub struct GenericHeadDecoder<R, D, F> {
    decoder: D,
    _marker_f: std::marker::PhantomData<F>,
    _marker_r: std::marker::PhantomData<R>,
}

impl<R, D, F> GenericHeadDecoder<R, D, F> {
    /// The head decoder inside.
    pub closed spec fn inner(self) -> D {
        self.decoder
    }

    pub fn new(decoder: D) -> (r: Self)
        ensures
            r.inner() == decoder,
    {
        GenericHeadDecoder {
            decoder,
            _marker_f: std::marker::PhantomData,
            _marker_r: std::marker::PhantomData,
        }
    }
}

impl<R, D: Default, F> Default for GenericHeadDecoder<R, D, F> {
    fn default() -> (r: Self) {
        Self::new(D::default())
    }
}

impl<R, D: DecodeHead, F: ItemWrapper<D::Head, R>> GenericHeadDecoder<R, D, F> {
    /// Decodes a head with the decoder inside, and wraps it as its headers frame the
    /// body that follows: in pieces where `Transfer-Encoding` is `chunked`, else of the
    /// length `Content-Length` gives, else none.
    pub fn decode(&mut self, src: &mut bytes::BytesMut) -> (r: Result<Decoded<F::Output>, HttpError>)
        ensures
            exists|inner: Result<Decoded<D::Head>, DecodeError>|
                {
                    &&& D::decodes(bytes_mut_contents(*old(src)), bytes_mut_contents(*final(src)), inner)
                    &&& #[trigger] wrapped_result::<D::Head, R, F>(inner, r)
                },
    {
        let inner = self.decoder.decode(src);
        let ghost inner_ghost = inner;
        let r = match inner {
            Ok(Decoded::Item(head)) => {
                let kind = classify_body(head.header_map());
                match kind {
                    Ok(BodyKind::Chunked) => Ok(Decoded::Item(F::wrap_stream(head))),
                    Ok(BodyKind::Fixed(n)) => Ok(Decoded::Item(F::wrap_fixed(head, n))),
                    Ok(BodyKind::Empty) => Ok(Decoded::Item(F::wrap_none(head))),
                    Err(_) => Err(HttpError::H1DecodeError(DecodeError::Header)),
                }
            },
            Ok(Decoded::Insufficient) => Ok(Decoded::Insufficient),
            Ok(Decoded::InsufficientAtLeast(l)) => Ok(Decoded::InsufficientAtLeast(l)),
            Err(e) => Err(HttpError::H1DecodeError(e)),
        };
        assert(wrapped_result::<D::Head, R, F>(inner_ghost, r));
        r
    }
}


impl From<std::io::Error> for DecodeError {
    fn from(v: std::io::Error) -> (r: Self) {
        DecodeError::Io(v)
    }
}

impl FromSpecImpl<std::io::Error> for DecodeError {
    open spec fn obeys_from_spec() -> bool {
        true
    }

    open spec fn from_spec(v: std::io::Error) -> Self {
        DecodeError::Io(v)
    }
}

} // verus!
