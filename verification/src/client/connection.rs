//! Connections to a server, and the decisions made while sending a request on one.
use vstd::prelude::*;

use crate::common::body::StreamHint;
use crate::common::buf::bytes_contents;
use crate::common::header::{ascii_lower, HeaderMap};
use crate::h1::codec::decoder::eq_ignore_ascii_case;

verus! {

/// A connection that speaks HTTP/1 through a codec `C` (taken out while a request is
/// in flight), or HTTP/2 through a handle `S` that can be shared.
#[derive(Debug)]
pub enum HttpConnection<C, S> {
    H1(Option<C>),
    H2(S),
}

impl<C, S> HttpConnection<C, S> {
    pub fn is_http2(&self) -> (r: bool)
        ensures
            r == (*self is H2),
    {
        match self {
            HttpConnection::H1(_) => false,
            HttpConnection::H2(_) => true,
        }
    }
}

impl<C, S: Clone> HttpConnection<C, S> {
    /// Another handle on the same HTTP/2 connection.
    pub fn http2_conn_clone(&self) -> (r: Self)
        requires
            *self is H2,
        ensures
            r matches HttpConnection::H2(h) && *self matches HttpConnection::H2(g) && vstd::pervasive::cloned(g, h),
    {
        match self {
            HttpConnection::H2(h) => HttpConnection::H2(h.clone()),
            HttpConnection::H1(_) => vstd::pervasive::unreached(),
        }
    }
}

/// `close`.
pub open spec fn close_token() -> Seq<u8> {
    seq![99u8, 108, 111, 115, 101]
}

/// `connection`.
pub open spec fn connection_header() -> Seq<u8> {
    seq![99u8, 111, 110, 110, 101, 99, 116, 105, 111, 110]
}

/// Whether a connection may be used again after a response with `headers`: where the
/// response has a `Connection` header, exactly when it is not `close` (in any case);
/// else as it was.
pub fn reusable_after(headers: &HeaderMap, reusable: bool) -> (r: bool)
    ensures
        r == match crate::common::header::map_get(headers@, connection_header()) {
            Some(v) => ascii_lower(v) != close_token(),
            None => reusable,
        },
{
    let name: [u8; 10] = [99u8, 111, 110, 110, 101, 99, 116, 105, 111, 110];
    let close: [u8; 5] = [99u8, 108, 111, 115, 101];
    proof {
        assert(name@ =~= connection_header());
        assert(ascii_lower(close@) =~= close_token());
    }
    match headers.get(name.as_slice()) {
        Some(v) => !eq_ignore_ascii_case(v.as_slice(), close.as_slice()),
        None => reusable,
    }
}

/// What waiting for room to send on an HTTP/2 stream came to.
#[derive(Debug)]
pub enum CapacityStep {
    /// No room yet: wait again.
    Retry,
    /// Room to send.
    Proceed,
    /// The stream failed or is no longer sending: give up.
    Stop,
}

/// What a poll for room gave: room of some size, an error, or the end of the stream.
pub fn capacity_step<E>(cap: Option<Result<usize, E>>) -> (r: CapacityStep)
    ensures
        r == match cap {
            Some(Ok(0)) => CapacityStep::Retry,
            Some(Ok(_)) => CapacityStep::Proceed,
            _ => CapacityStep::Stop,
        },
{
    match cap {
        Some(Ok(0)) => CapacityStep::Retry,
        Some(Ok(_)) => CapacityStep::Proceed,
        _ => CapacityStep::Stop,
    }
}

/// What the task sending a request body over HTTP/2 does next.
#[derive(Debug)]
pub enum BodyStep {
    /// Send these bytes; `true` ends the stream, and the body is done.
    Send(bytes::Bytes, bool),
    /// Nothing to send; ask the body again.
    Again,
}

/// `Bytes::new`: no bytes.
#[verifier::external_body]
pub(crate) fn empty_bytes() -> (r: bytes::Bytes)
    ensures
        bytes_contents(r) == Seq::<u8>::empty(),
{
    bytes::Bytes::new()
}

/// Whether the body must be asked for data before the next step (not for a body
/// without data).
pub fn body_needs_data(hint: StreamHint) -> (r: bool)
    ensures
        r == (hint != StreamHint::Empty),
{
    match hint {
        StreamHint::Empty => false,
        _ => true,
    }
}

/// The next step of sending a body delivered as `hint`, from what the body gave when
/// asked (`next`; not asked for a body without data): a body without data ends the
/// stream at once; a piece of a body delivered in one piece is sent and ends the
/// stream; a piece of a body in pieces is sent, and its end (or an error) ends the
/// stream with no bytes.
pub fn body_step<E>(hint: StreamHint, next: Option<Result<bytes::Bytes, E>>) -> (r: BodyStep)
    ensures
        match hint {
            StreamHint::Empty => r matches BodyStep::Send(b, true) && bytes_contents(b).len() == 0,
            StreamHint::Fixed => match next {
                Some(Ok(d)) => r == BodyStep::Send(d, true),
                _ => r is Again,
            },
            StreamHint::Stream => match next {
                Some(Ok(d)) => r == BodyStep::Send(d, false),
                _ => r matches BodyStep::Send(b, true) && bytes_contents(b).len() == 0,
            },
        },
{
    match hint {
        StreamHint::Empty => BodyStep::Send(empty_bytes(), true),
        StreamHint::Fixed => match next {
            Some(Ok(d)) => BodyStep::Send(d, true),
            _ => BodyStep::Again,
        },
        StreamHint::Stream => match next {
            Some(Ok(d)) => BodyStep::Send(d, false),
            _ => BodyStep::Send(empty_bytes(), true),
        },
    }
}

} // verus!
