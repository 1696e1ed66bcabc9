//! Encoders of HTTP/1 heads and bodies: the exact bytes a message is written as.
use vstd::prelude::*;

use crate::common::body::StreamHint;
use crate::common::buf::{buf_extend, bytes_mut_contents};
use crate::common::header::{
    ascii_lower, entries_wf, lemma_insert_get_other, lemma_insert_get_same, map_get, map_insert, EntryView,
    HeaderMap, Version,
};
use crate::h1::codec::decoder::{body_kind, chunked_token, decimal_value, is_visible_ascii, BodyKind};
use crate::common::request::{RequestHead, RequestHeadView};
use crate::common::response::{ResponseHead, ResponseHeadView};
use crate::common::uri::{parse_uri, uri_parts_of};
use crate::h1::codec::raw::{canonical_reason, canonical_reason_of, opt_view};
use crate::h1::codec::wire::{encode_chunk, encode_last_chunk, hex_char, hex_upper, CR, LF};
use crate::h1::payload::PayloadError;
use vstd::std_specs::convert::FromSpecImpl;

verus! {

/// Why a message could not be written.
#[derive(Debug)]
pub enum EncodeError {
    Payload(PayloadError),
    Io(std::io::Error),
    InvalidPayload(String),
}

/// The room the write buffer starts with.
pub const INITIAL_CAPACITY: usize = 8192;

/// Past this many buffered bytes, the buffer is flushed before more is added.
pub const BACKPRESSURE_BOUNDARY: usize = 8192;

/// `std::io::Error::new(ErrorKind::Other, msg)`.
#[verifier::external_body]
fn io_error_other(msg: &str) -> (r: std::io::Error) {
    std::io::Error::new(std::io::ErrorKind::Other, msg)
}

pub open spec fn crlf() -> Seq<u8> {
    seq![CR, LF]
}

/// `name: value` lines, one for each of `values`.
pub open spec fn value_lines(name: Seq<u8>, values: Seq<Seq<u8>>) -> Seq<u8>
    decreases values.len(),
{
    if values.len() == 0 {
        Seq::empty()
    } else {
        value_lines(name, values.drop_last()) + name + seq![58u8, 32u8] + values.last() + crlf()
    }
}

/// The header lines of a header map: each entry's values in turn.
pub open spec fn header_lines(m: Seq<EntryView>) -> Seq<u8>
    decreases m.len(),
{
    if m.len() == 0 {
        Seq::empty()
    } else {
        header_lines(m.drop_last()) + value_lines(m.last().0, m.last().1)
    }
}

/// The end of a request line for each version, `HTTP/x.y` and CRLF.
pub open spec fn request_version_line(v: Version) -> Seq<u8> {
    match v {
        Version::Http09 => seq![72u8, 84, 84, 80, 47, 48, 46, 57, CR, LF],
        Version::Http10 => seq![72u8, 84, 84, 80, 47, 49, 46, 48, CR, LF],
        Version::Http11 => seq![72u8, 84, 84, 80, 47, 49, 46, 49, CR, LF],
        Version::Http2 => seq![72u8, 84, 84, 80, 47, 50, 46, 48, CR, LF],
        Version::Http3 => seq![72u8, 84, 84, 80, 47, 51, 46, 48, CR, LF],
    }
}

/// The request target written for `uri`: its path and query, `/` where it has none;
/// `None` where `uri` is not a URI.
pub open spec fn request_target(uri: Seq<u8>) -> Option<Seq<u8>> {
    match uri_parts_of(uri) {
        Some(p) => Some(
            match p.path_and_query {
                Some(pq) => pq,
                None => seq![47u8],
            },
        ),
        None => None,
    }
}

/// A request head on the wire: the request line, the header lines and an empty line;
/// `None` where its target is not a URI.
pub open spec fn request_head_bytes(h: RequestHeadView) -> Option<Seq<u8>> {
    match request_target(h.uri) {
        Some(target) => Some(
            h.method + seq![32u8] + target + seq![32u8] + request_version_line(h.version)
                + header_lines(h.headers) + crlf(),
        ),
        None => None,
    }
}

/// The status line's version, `HTTP/x.y` and a space; HTTP/2 and HTTP/3 have none.
pub open spec fn response_version_prefix(v: Version) -> Option<Seq<u8>> {
    match v {
        Version::Http11 => Some(seq![72u8, 84, 84, 80, 47, 49, 46, 49, 32]),
        Version::Http10 => Some(seq![72u8, 84, 84, 80, 47, 49, 46, 48, 32]),
        Version::Http09 => Some(seq![72u8, 84, 84, 80, 47, 48, 46, 57, 32]),
        _ => None,
    }
}

/// The three decimal digits of a status code.
pub open spec fn status_digits(s: u16) -> Seq<u8> {
    seq![(48 + s / 100) as u8, (48 + (s / 10) % 10) as u8, (48 + s % 10) as u8]
}

/// `<none>`, the phrase written for a status without a canonical one.
pub open spec fn no_reason() -> Seq<u8> {
    seq![60u8, 110, 111, 110, 101, 62]
}

/// The reason phrase written: the head's own, else the canonical one, else `<none>`.
pub open spec fn reason_phrase(h: ResponseHeadView) -> Seq<u8> {
    match h.reason {
        Some(r) => r,
        None => match canonical_reason_of(h.status) {
            Some(c) => c,
            None => no_reason(),
        },
    }
}

/// `HTTP/1.1 200 OK` and CRLF.
pub open spec fn ok_status_line() -> Seq<u8> {
    seq![72u8, 84, 84, 80, 47, 49, 46, 49, 32, 50, 48, 48, 32, 79, 75, CR, LF]
}

/// The status line of a response head; `None` for a version without one or a status
/// out of range.
pub open spec fn status_line(h: ResponseHeadView) -> Option<Seq<u8>> {
    if h.version == Version::Http11 && h.status == 200 && h.reason is None {
        Some(ok_status_line())
    } else {
        match response_version_prefix(h.version) {
            Some(v) => if 100 <= h.status && h.status < 1000 {
                Some(v + status_digits(h.status) + seq![32u8] + reason_phrase(h) + crlf())
            } else {
                None
            },
            None => None,
        }
    }
}

/// A response head on the wire: the status line, the header lines and an empty line.
pub open spec fn response_head_bytes(h: ResponseHeadView) -> Option<Seq<u8>> {
    match status_line(h) {
        Some(l) => Some(l + header_lines(h.headers) + crlf()),
        None => None,
    }
}

/// `n` in decimal, without leading zeros.
pub open spec fn decimal_bytes(n: nat) -> Seq<u8>
    decreases n,
{
    if n < 10 {
        seq![(48 + n) as u8]
    } else {
        decimal_bytes(n / 10).push((48 + n % 10) as u8)
    }
}

/// How the length of the body is told in the head.
#[derive(Debug)]
pub enum Length {
    /// Not at all.
    Empty,
    /// By `Content-Length`.
    ContentLength(usize),
    /// By `Transfer-Encoding: chunked`.
    Chunked,
}

pub open spec fn content_length_header() -> Seq<u8> {
    seq![99u8, 111, 110, 116, 101, 110, 116, 45, 108, 101, 110, 103, 116, 104]
}

pub open spec fn transfer_encoding_header() -> Seq<u8> {
    seq![116u8, 114, 97, 110, 115, 102, 101, 114, 45, 101, 110, 99, 111, 100, 105, 110, 103]
}

pub open spec fn chunked_value() -> Seq<u8> {
    seq![99u8, 104, 117, 110, 107, 101, 100]
}

/// The headers after the length of the body is set in them.
pub open spec fn length_headers(m: Seq<EntryView>, length: Length) -> Seq<EntryView> {
    match length {
        Length::Empty => m,
        Length::ContentLength(n) => map_insert(m, content_length_header(), decimal_bytes(n as nat)),
        Length::Chunked => map_insert(m, transfer_encoding_header(), chunked_value()),
    }
}

/// The length header a body delivered as `hint` calls for, where `fixed_len` is the
/// length of the one piece of a body delivered in one piece.
pub open spec fn length_for_spec(hint: StreamHint, fixed_len: usize) -> Length {
    match hint {
        StreamHint::Empty => Length::Empty,
        StreamHint::Fixed => Length::ContentLength(fixed_len),
        StreamHint::Stream => Length::Chunked,
    }
}

/// The length header a body delivered as `hint` calls for.
pub fn length_for(hint: StreamHint, fixed_len: usize) -> (r: Length)
    ensures
        r == length_for_spec(hint, fixed_len),
{
    match hint {
        StreamHint::Empty => Length::Empty,
        StreamHint::Fixed => Length::ContentLength(fixed_len),
        StreamHint::Stream => Length::Chunked,
    }
}

/// Whether the write buffer, holding `buffered` bytes, is flushed before a message is
/// added to it.
pub fn needs_flush(buffered: usize) -> (r: bool)
    ensures
        r == (buffered > BACKPRESSURE_BOUNDARY),
{
    buffered > BACKPRESSURE_BOUNDARY
}

/// Whether a piece of body of `data_len` bytes, behind `buffered` bytes in the write
/// buffer, is written on its own once the buffer is flushed, instead of being copied
/// into the buffer.
pub fn write_directly(buffered: usize, data_len: usize) -> (r: bool)
    ensures
        r == (buffered + data_len > BACKPRESSURE_BOUNDARY),
{
    buffered > BACKPRESSURE_BOUNDARY || data_len > BACKPRESSURE_BOUNDARY - buffered
}

/// How a piece of body data goes out.
#[derive(Clone, Copy, PartialEq, Eq, Structural, Debug)]
pub enum DataRoute {
    /// Copied into the write buffer, behind what it holds.
    Buffered,
    /// Written to the connection on its own, once what the buffer holds is written.
    Direct,
}

/// What goes before a piece of body data of `len` bytes: the size line of a chunk, or
/// nothing for a body in one piece.
pub open spec fn body_prefix(chunked: bool, len: nat) -> Seq<u8> {
    if chunked {
        hex_upper(len) + crlf()
    } else {
        Seq::empty()
    }
}

/// What goes after a piece of body data: the CRLF that ends a chunk, or nothing.
pub open spec fn body_suffix(chunked: bool) -> Seq<u8> {
    if chunked {
        crlf()
    } else {
        Seq::empty()
    }
}

/// The route of a piece of body data of `len` bytes behind `buffered` bytes (its
/// prefix among them): written on its own where the buffer would grow past
/// `BACKPRESSURE_BOUNDARY`.
pub open spec fn route_for(buffered: nat, len: nat) -> DataRoute {
    if buffered + len > BACKPRESSURE_BOUNDARY {
        DataRoute::Direct
    } else {
        DataRoute::Buffered
    }
}

/// What reaches the connection, and what the buffer then holds, once a piece of body
/// data has gone out by `route` from a buffer holding `buffered`.
pub open spec fn data_outcome(route: DataRoute, buffered: Seq<u8>, data: Seq<u8>, chunked: bool) -> (Seq<u8>, Seq<u8>) {
    match route {
        DataRoute::Buffered => (Seq::empty(), buffered + body_prefix(chunked, data.len()) + data + body_suffix(chunked)),
        DataRoute::Direct => (buffered + body_prefix(chunked, data.len()) + data, body_suffix(chunked)),
    }
}

/// Puts a piece of body data on its way: appends what goes before it, and decides its
/// route. Where it is `Buffered`, the data and what goes after it are appended too;
/// where it is `Direct`, the buffer is to be written, then the data, then `end_data`.
pub fn queue_data(dst: &mut bytes::BytesMut, data: &[u8], chunked: bool) -> (r: DataRoute)
    ensures
        r == route_for(bytes_mut_contents(*old(dst)).len() + body_prefix(chunked, data@.len()).len(), data@.len()),
        r is Buffered ==> bytes_mut_contents(*final(dst)) == data_outcome(r, bytes_mut_contents(*old(dst)), data@, chunked).1,
        r is Direct ==> bytes_mut_contents(*final(dst)) == bytes_mut_contents(*old(dst)) + body_prefix(chunked, data@.len()),
{
    let ghost start = bytes_mut_contents(*dst);
    if chunked {
        ChunkedBodyEncoder::encode_size_line(data.len(), dst);
    } else {
        assert(start + body_prefix(chunked, data@.len()) =~= start);
    }
    if write_directly(crate::common::buf::buf_len(dst), data.len()) {
        DataRoute::Direct
    } else {
        FixedBodyEncoder::encode(data, dst);
        end_data(dst, chunked);
        DataRoute::Buffered
    }
}

/// Appends what goes after a piece of body data written on its own.
pub fn end_data(dst: &mut bytes::BytesMut, chunked: bool)
    ensures
        bytes_mut_contents(*final(dst)) == bytes_mut_contents(*old(dst)) + body_suffix(chunked),
{
    if chunked {
        ChunkedBodyEncoder::encode_chunk_end(dst);
    } else {
        assert(bytes_mut_contents(*dst) + body_suffix(chunked) =~= bytes_mut_contents(*dst));
    }
}

/// The law of writing body data: whichever route a piece takes, what reaches the
/// connection followed by what stays buffered is the buffer's old bytes, then the piece
/// as the body's coding writes it (a chunk, or the bytes as they are): nothing is lost,
/// doubled or reordered.
pub proof fn lemma_data_outcome(route: DataRoute, buffered: Seq<u8>, data: Seq<u8>, chunked: bool)
    ensures
        data_outcome(route, buffered, data, chunked).0 + data_outcome(route, buffered, data, chunked).1 == buffered
            + if chunked {
            encode_chunk(data)
        } else {
            data
        },
{
    let o = data_outcome(route, buffered, data, chunked);
    assert(crlf() =~= seq![CR, LF]);
    if chunked {
        assert(o.0 + o.1 =~= buffered + encode_chunk(data));
    } else {
        assert(o.0 + o.1 =~= buffered + data);
    }
}

/// The decimal digits of `n`.
pub fn decimal_digits(n: usize) -> (r: Vec<u8>)
    ensures
        r@ == decimal_bytes(n as nat),
    decreases n,
{
    if n < 10 {
        let d: u8 = n as u8;
        let mut v: Vec<u8> = Vec::new();
        v.push(48 + d);
        v
    } else {
        let mut v = decimal_digits(n / 10);
        let d: u8 = (n % 10) as u8;
        v.push(48 + d);
        v
    }
}

/// The upper-case hexadecimal digits of `n`.
pub fn hex_digits(n: usize) -> (r: Vec<u8>)
    ensures
        r@ == hex_upper(n as nat),
    decreases n,
{
    let mut v: Vec<u8> = if n < 16 {
        Vec::new()
    } else {
        hex_digits(n / 16)
    };
    let d: u8 = (n % 16) as u8;
    let c: u8 = if d < 10 {
        48 + d
    } else {
        55 + d
    };
    v.push(c);
    proof {
        if n < 16 {
            assert(v@ =~= seq![hex_char(n as nat)]);
        } else {
            assert(v@ =~= hex_upper((n / 16) as nat) + seq![hex_char((n % 16) as nat)]);
        }
    }
    v
}


/// Appends the header lines of `headers` to `dst`.
fn encode_headers(headers: &HeaderMap, dst: &mut bytes::BytesMut)
    ensures
        bytes_mut_contents(*final(dst)) == bytes_mut_contents(*old(dst)) + header_lines(headers@),
{
    let entries = headers.entries();
    let sep: [u8; 2] = [58u8, 32u8];
    let end: [u8; 2] = [CR, LF];
    proof {
        assert(sep@ =~= seq![58u8, 32u8]);
        assert(end@ =~= crlf());
        assert(headers@.take(0) =~= Seq::<EntryView>::empty());
    }
    let mut i: usize = 0;
    while i < entries.len()
        invariant
            i <= entries@.len(),
            entries@.map_values(|e: crate::common::header::HeaderEntry| e@) == headers@,
            sep@ == seq![58u8, 32u8],
            end@ == crlf(),
            bytes_mut_contents(*dst) == bytes_mut_contents(*old(dst)) + header_lines(headers@.take(i as int)),
        decreases entries@.len() - i,
    {
        let e = &entries[i];
        let ghost before = bytes_mut_contents(*dst);
        let ghost ev = e@;
        assert(headers@[i as int] == ev);
        assert(ev.1 == e.values@.map_values(|v: Vec<u8>| v@));
        assert(e.values@.map_values(|v: Vec<u8>| v@).take(0) =~= Seq::<Seq<u8>>::empty());
        let mut j: usize = 0;
        while j < e.values.len()
            invariant
                j <= e.values@.len(),
                ev == e@,
                ev.1 == e.values@.map_values(|v: Vec<u8>| v@),
                sep@ == seq![58u8, 32u8],
                end@ == crlf(),
                bytes_mut_contents(*dst) == before + value_lines(ev.0, ev.1.take(j as int)),
            decreases e.values@.len() - j,
        {
            let ghost mid = bytes_mut_contents(*dst);
            buf_extend(dst, e.name.as_slice());
            buf_extend(dst, sep.as_slice());
            buf_extend(dst, e.values[j].as_slice());
            buf_extend(dst, end.as_slice());
            proof {
                assert(ev.1.take(j + 1).drop_last() =~= ev.1.take(j as int));
                assert(ev.1.take(j + 1).last() == e.values@[j as int]@);
                assert(bytes_mut_contents(*dst) =~= mid + ev.0 + seq![58u8, 32u8] + e.values@[j as int]@ + crlf());
            }
            j += 1;
        }
        proof {
            assert(ev.1.take(j as int) =~= ev.1);
            assert(headers@.take(i + 1).drop_last() =~= headers@.take(i as int));
            assert(headers@.take(i + 1).last() == ev);
            assert(bytes_mut_contents(*dst) =~= bytes_mut_contents(*old(dst)) + header_lines(headers@.take(i + 1)));
        }
        i += 1;
    }
    proof {
        assert(headers@.take(i as int) =~= headers@);
    }
}

/// A head that can be written on the wire.
pub trait EncodeHead {
    /// Its headers.
    spec fn headers_view(&self) -> Seq<EntryView>;

    /// Its bytes on the wire; `None` where it cannot be written.
    spec fn head_bytes(&self) -> Option<Seq<u8>>;

    /// Sets in its headers how the length of the body is told.
    fn set_length(&mut self, length: Length)
        ensures
            final(self).headers_view() == length_headers(old(self).headers_view(), length),
    ;

    /// Appends its bytes to `dst`; an error, and nothing appended, where it cannot be
    /// written.
    fn encode_head(&self, dst: &mut bytes::BytesMut) -> (r: Result<(), std::io::Error>)
        ensures
            match self.head_bytes() {
                Some(b) => r is Ok && bytes_mut_contents(*final(dst)) == bytes_mut_contents(*old(dst)) + b,
                None => r is Err && bytes_mut_contents(*final(dst)) == bytes_mut_contents(*old(dst)),
            },
    ;
}

/// Writes heads.
pub struct HeadEncoder;

impl HeadEncoder {
    /// Sets how the length of the body is told: `Content-Length` in decimal, or
    /// `Transfer-Encoding: chunked`, each in place of any value it had; or nothing.
    pub fn set_length_header(header_map: &mut HeaderMap, length: Length)
        ensures
            final(header_map)@ == length_headers(old(header_map)@, length),
    {
        match length {
            Length::Empty => {},
            Length::ContentLength(l) => {
                let name: Vec<u8> = vec![99u8, 111, 110, 116, 101, 110, 116, 45, 108, 101, 110, 103, 116, 104];
                proof {
                    assert(name@ =~= content_length_header());
                }
                header_map.insert(name, decimal_digits(l));
            },
            Length::Chunked => {
                let name: Vec<u8> = vec![116u8, 114, 97, 110, 115, 102, 101, 114, 45, 101, 110, 99, 111, 100, 105, 110, 103];
                let value: Vec<u8> = vec![99u8, 104, 117, 110, 107, 101, 100];
                proof {
                    assert(name@ =~= transfer_encoding_header());
                    assert(value@ =~= chunked_value());
                }
                header_map.insert(name, value);
            },
        }
    }

    /// Writes a request head: `METHOD target VERSION`, the header lines, an empty line.
    /// The target is the URI's path and query (`/` where it has none); a target that is
    /// not a URI is refused.
    pub fn encode_request(item: &RequestHead, dst: &mut bytes::BytesMut) -> (r: Result<(), std::io::Error>)
        ensures
            match request_head_bytes(item@) {
                Some(b) => r is Ok && bytes_mut_contents(*final(dst)) == bytes_mut_contents(*old(dst)) + b,
                None => r is Err && bytes_mut_contents(*final(dst)) == bytes_mut_contents(*old(dst)),
            },
    {
        let parts = match parse_uri(item.uri.as_slice()) {
            Ok(p) => p,
            Err(_) => return Err(io_error_other("invalid uri")),
        };
        let target: Vec<u8> = match parts.path_and_query {
            Some(pq) => pq,
            None => vec![47u8],
        };
        proof {
            assert(request_target(item.uri@) == Some(target@));
        }
        let space: [u8; 1] = [32u8];
        let line: [u8; 10] = match item.version {
            Version::Http09 => [72u8, 84, 84, 80, 47, 48, 46, 57, CR, LF],
            Version::Http10 => [72u8, 84, 84, 80, 47, 49, 46, 48, CR, LF],
            Version::Http11 => [72u8, 84, 84, 80, 47, 49, 46, 49, CR, LF],
            Version::Http2 => [72u8, 84, 84, 80, 47, 50, 46, 48, CR, LF],
            Version::Http3 => [72u8, 84, 84, 80, 47, 51, 46, 48, CR, LF],
        };
        let end: [u8; 2] = [CR, LF];
        proof {
            assert(space@ =~= seq![32u8]);
            assert(line@ =~= request_version_line(item.version));
            assert(end@ =~= crlf());
        }
        let ghost start = bytes_mut_contents(*dst);
        buf_extend(dst, item.method.as_slice());
        buf_extend(dst, space.as_slice());
        buf_extend(dst, target.as_slice());
        buf_extend(dst, space.as_slice());
        buf_extend(dst, line.as_slice());
        encode_headers(&item.headers, dst);
        buf_extend(dst, end.as_slice());
        proof {
            assert(bytes_mut_contents(*dst) =~= start + (item.method@ + seq![32u8] + target@ + seq![32u8]
                + request_version_line(item.version) + header_lines(item.headers@) + crlf()));
        }
        Ok(())
    }

    /// Writes a response head: the status line (`HTTP/1.1 200 OK` where nothing else is
    /// asked for; otherwise the version, the status in three digits and the reason
    /// phrase), the header lines, an empty line. HTTP/2 and HTTP/3 heads, and statuses
    /// out of range, are refused.
    pub fn encode_response(item: &ResponseHead, dst: &mut bytes::BytesMut) -> (r: Result<(), std::io::Error>)
        ensures
            match response_head_bytes(item@) {
                Some(b) => r is Ok && bytes_mut_contents(*final(dst)) == bytes_mut_contents(*old(dst)) + b,
                None => r is Err && bytes_mut_contents(*final(dst)) == bytes_mut_contents(*old(dst)),
            },
    {
        let ghost start = bytes_mut_contents(*dst);
        let end: [u8; 2] = [CR, LF];
        proof {
            assert(end@ =~= crlf());
        }
        let plain_ok = match (item.version, &item.reason) {
            (Version::Http11, None) => item.status == 200,
            _ => false,
        };
        if plain_ok {
            let line: [u8; 17] = [72u8, 84, 84, 80, 47, 49, 46, 49, 32, 50, 48, 48, 32, 79, 75, CR, LF];
            proof {
                assert(line@ =~= ok_status_line());
            }
            buf_extend(dst, line.as_slice());
        } else {
            let prefix: [u8; 9] = match item.version {
                Version::Http11 => [72u8, 84, 84, 80, 47, 49, 46, 49, 32],
                Version::Http10 => [72u8, 84, 84, 80, 47, 49, 46, 48, 32],
                Version::Http09 => [72u8, 84, 84, 80, 47, 48, 46, 57, 32],
                _ => return Err(io_error_other("unexpected http version")),
            };
            if item.status < 100 || item.status >= 1000 {
                return Err(io_error_other("invalid status code"));
            }
            proof {
                assert(response_version_prefix(item.version) == Some(prefix@));
            }
            let s = item.status;
            let digits: [u8; 4] = [(48 + s / 100) as u8, (48 + (s / 10) % 10) as u8, (48 + s % 10) as u8, 32u8];
            proof {
                assert(digits@ =~= status_digits(s) + seq![32u8]);
            }
            let canonical: Option<Vec<u8>> = match &item.reason {
                Some(_) => None,
                None => canonical_reason(s),
            };
            let none_text: [u8; 6] = [60u8, 110, 111, 110, 101, 62];
            proof {
                assert(none_text@ =~= no_reason());
            }
            let ghost mid = bytes_mut_contents(*dst);
            buf_extend(dst, prefix.as_slice());
            buf_extend(dst, digits.as_slice());
            match &item.reason {
                Some(reason) => buf_extend(dst, reason.as_bytes()),
                None => match &canonical {
                    Some(c) => buf_extend(dst, c.as_slice()),
                    None => buf_extend(dst, none_text.as_slice()),
                },
            }
            buf_extend(dst, end.as_slice());
            proof {
                assert(bytes_mut_contents(*dst) =~= start + (prefix@ + status_digits(s) + seq![32u8]
                    + reason_phrase(item@) + crlf()));
            }
        }
        let ghost after_line = bytes_mut_contents(*dst);
        encode_headers(&item.headers, dst);
        buf_extend(dst, end.as_slice());
        proof {
            let l = status_line(item@).unwrap();
            assert(after_line == start + l);
            assert(bytes_mut_contents(*dst) =~= start + (l + header_lines(item@.headers) + crlf()));
        }
        Ok(())
    }
}

impl EncodeHead for RequestHead {
    open spec fn headers_view(&self) -> Seq<EntryView> {
        self.headers@
    }

    open spec fn head_bytes(&self) -> Option<Seq<u8>> {
        request_head_bytes(self@)
    }

    fn set_length(&mut self, length: Length)
        ensures
            final(self).method == old(self).method,
            final(self).uri == old(self).uri,
            final(self).version == old(self).version,
    {
        HeadEncoder::set_length_header(&mut self.headers, length);
    }

    fn encode_head(&self, dst: &mut bytes::BytesMut) -> (r: Result<(), std::io::Error>) {
        HeadEncoder::encode_request(self, dst)
    }
}

impl EncodeHead for ResponseHead {
    open spec fn headers_view(&self) -> Seq<EntryView> {
        self.headers@
    }

    open spec fn head_bytes(&self) -> Option<Seq<u8>> {
        response_head_bytes(self@)
    }

    fn set_length(&mut self, length: Length)
        ensures
            final(self).version == old(self).version,
            final(self).status == old(self).status,
            final(self).reason == old(self).reason,
    {
        HeadEncoder::set_length_header(&mut self.headers, length);
    }

    fn encode_head(&self, dst: &mut bytes::BytesMut) -> (r: Result<(), std::io::Error>) {
        HeadEncoder::encode_response(self, dst)
    }
}

/// Writes a body delivered in one piece: the bytes as they are.
pub struct FixedBodyEncoder;

impl FixedBodyEncoder {
    pub fn encode(item: &[u8], dst: &mut bytes::BytesMut)
        ensures
            bytes_mut_contents(*final(dst)) == bytes_mut_contents(*old(dst)) + item@,
    {
        buf_extend(dst, item);
    }
}

/// Writes a body in the chunked coding, one chunk at a time.
pub struct ChunkedBodyEncoder;

impl ChunkedBodyEncoder {
    /// Appends the chunk of `item`, or, for `None`, the last chunk.
    pub fn encode(item: Option<&[u8]>, dst: &mut bytes::BytesMut)
        ensures
            bytes_mut_contents(*final(dst)) == bytes_mut_contents(*old(dst)) + match item {
                Some(d) => encode_chunk(d@),
                None => encode_last_chunk(),
            },
    {
        match item {
            None => {
                let last: [u8; 5] = [48u8, CR, LF, CR, LF];
                proof {
                    assert(last@ =~= encode_last_chunk());
                }
                buf_extend(dst, last.as_slice());
            },
            Some(data) => {
                let ghost start = bytes_mut_contents(*dst);
                Self::encode_size_line(data.len(), dst);
                buf_extend(dst, data);
                Self::encode_chunk_end(dst);
                proof {
                    assert(bytes_mut_contents(*dst) =~= start + encode_chunk(data@));
                }
            },
        }
    }

    /// Appends the line before a chunk's data: its size `len` in hexadecimal, CRLF.
    pub fn encode_size_line(len: usize, dst: &mut bytes::BytesMut)
        ensures
            bytes_mut_contents(*final(dst)) == bytes_mut_contents(*old(dst)) + hex_upper(len as nat) + crlf(),
    {
        let digits = hex_digits(len);
        let end: [u8; 2] = [CR, LF];
        proof {
            assert(end@ =~= crlf());
        }
        let ghost start = bytes_mut_contents(*dst);
        buf_extend(dst, digits.as_slice());
        buf_extend(dst, end.as_slice());
        proof {
            assert(bytes_mut_contents(*dst) =~= start + hex_upper(len as nat) + crlf());
        }
    }

    /// Appends the CRLF after a chunk's data.
    pub fn encode_chunk_end(dst: &mut bytes::BytesMut)
        ensures
            bytes_mut_contents(*final(dst)) == bytes_mut_contents(*old(dst)) + crlf(),
    {
        let end: [u8; 2] = [CR, LF];
        proof {
            assert(end@ =~= crlf());
        }
        buf_extend(dst, end.as_slice());
    }
}


/// The decimal digits written for `n` are read back as `n`, and are all digits.
pub proof fn lemma_decimal_roundtrip(n: nat)
    requires
        n <= usize::MAX,
    ensures
        decimal_value(decimal_bytes(n)) == Some(n),
        decimal_bytes(n).len() > 0,
        forall|i: int| 0 <= i < decimal_bytes(n).len() ==> 48 <= #[trigger] decimal_bytes(n)[i] <= 57,
    decreases n,
{
    let s = decimal_bytes(n);
    if n >= 10 {
        lemma_decimal_roundtrip(n / 10);
        assert(s.drop_last() =~= decimal_bytes(n / 10));
        assert forall|i: int| 0 <= i < s.len() implies 48 <= #[trigger] s[i] <= 57 by {
            if i < s.len() - 1 {
                assert(s[i] == decimal_bytes(n / 10)[i]);
            }
        }
    }
}

/// The length the encoder sets in a head is the length the decoder reads from it: a
/// `Content-Length` of `n` frames a body of `n` bytes (none for `0`) where the head has
/// no `Transfer-Encoding`, and `Transfer-Encoding: chunked` frames a chunked body.
pub proof fn lemma_length_header_framing(m: Seq<EntryView>, length: Length)
    requires
        entries_wf(m),
        length is ContentLength ==> map_get(m, transfer_encoding_header()) is None,
    ensures
        body_kind(length_headers(m, length)) == match length {
            Length::Empty => body_kind(m),
            Length::ContentLength(n) => Some(
                if n == 0 {
                    BodyKind::Empty
                } else {
                    BodyKind::Fixed(n)
                },
            ),
            Length::Chunked => Some(BodyKind::Chunked),
        },
{
    match length {
        Length::Empty => {},
        Length::ContentLength(n) => {
            let digits = decimal_bytes(n as nat);
            lemma_decimal_roundtrip(n as nat);
            lemma_insert_get_same(m, content_length_header(), digits);
            lemma_insert_get_other(m, content_length_header(), digits, transfer_encoding_header());
            assert forall|i: int| 0 <= i < digits.len() implies is_visible_ascii(#[trigger] digits[i]) by {}
            assert(digits[0] != 43u8);
        },
        Length::Chunked => {
            lemma_insert_get_same(m, transfer_encoding_header(), chunked_value());
            assert(ascii_lower(chunked_value()) =~= chunked_token());
        },
    }
}


impl From<std::io::Error> for EncodeError {
    fn from(v: std::io::Error) -> (r: Self) {
        EncodeError::Io(v)
    }
}

impl FromSpecImpl<std::io::Error> for EncodeError {
    open spec fn obeys_from_spec() -> bool {
        true
    }

    open spec fn from_spec(v: std::io::Error) -> Self {
        EncodeError::Io(v)
    }
}

impl From<PayloadError> for EncodeError {
    fn from(v: PayloadError) -> (r: Self) {
        EncodeError::Payload(v)
    }
}

impl FromSpecImpl<PayloadError> for EncodeError {
    open spec fn obeys_from_spec() -> bool {
        true
    }

    open spec fn from_spec(v: PayloadError) -> Self {
        EncodeError::Payload(v)
    }
}

} // verus!
