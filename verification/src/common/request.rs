//! Request heads.
use vstd::prelude::*;

use crate::common::header::{has_name, map_insert, EntryView, HeaderMap, Version};
use crate::common::uri::{parse_uri, uri_parts_of};
use crate::common::{FromParts, IntoParts};
use crate::ParamRef;

verus! {

/// The head of a request: its method, target, version and headers.
#[derive(Debug)]
pub struct RequestHead {
    pub method: Vec<u8>,
    pub uri: Vec<u8>,
    pub version: Version,
    pub headers: HeaderMap,
}

pub struct RequestHeadView {
    pub method: Seq<u8>,
    pub uri: Seq<u8>,
    pub version: Version,
    pub headers: Seq<EntryView>,
}

impl View for RequestHead {
    type V = RequestHeadView;

    open spec fn view(&self) -> RequestHeadView {
        RequestHeadView {
            method: self.method@,
            uri: self.uri@,
            version: self.version,
            headers: self.headers@,
        }
    }
}

/// The name of the `host` header.
pub open spec fn host_header() -> Seq<u8> {
    seq![104u8, 111, 115, 116]
}

/// The headers of a request to `uri` with `headers`, where a `host` header is added:
/// naming the host of the target, where the target has one and no `host` header is
/// there.
pub open spec fn with_host(uri: Seq<u8>, headers: Seq<EntryView>) -> Seq<EntryView> {
    match uri_parts_of(uri) {
        Some(p) => match p.host {
            Some(h) => if has_name(headers, host_header()) {
                headers
            } else {
                map_insert(headers, host_header(), vstd::utf8::encode_utf8(h))
            },
            None => headers,
        },
        None => headers,
    }
}

impl RequestHead {
    /// Adds a `host` header naming the host of the request's target, where the target
    /// has one and the head has no such header.
    pub fn set_host_header(&mut self)
        ensures
            final(self).method == old(self).method,
            final(self).uri == old(self).uri,
            final(self).version == old(self).version,
            final(self).headers@ == with_host(old(self).uri@, old(self).headers@),
    {
        let name: [u8; 4] = [104u8, 111, 115, 116];
        proof {
            assert(name@ =~= host_header());
        }
        if let Ok(parts) = parse_uri(self.uri.as_slice()) {
            if let Some(host) = &parts.host {
                if !self.headers.contains_key(name.as_slice()) {
                    let value = crate::common::header::copy_bytes(host.as_str().as_bytes());
                    self.headers.insert(crate::common::header::copy_bytes(name.as_slice()), value);
                }
            }
        }
    }
}

/// A request: its head and its body.
#[derive(Debug)]
pub struct Request<P> {
    pub head: RequestHead,
    pub body: P,
}

impl<P> FromParts<RequestHead, P> for Request<P> {
    fn from_parts(parts: RequestHead, body: P) -> (r: Self)
        ensures
            r.head == parts,
            r.body == body,
    {
        Request { head: parts, body }
    }
}

impl<P> IntoParts for Request<P> {
    type Parts = RequestHead;
    type Body = P;

    fn into_parts(self) -> (r: (RequestHead, P))
        ensures
            r.0 == self.head,
            r.1 == self.body,
    {
        (self.head, self.body)
    }
}

/// A request's head, borrowed from the request.
pub struct RequestHeadRef<'a> {
    pub method: &'a Vec<u8>,
    pub uri: &'a Vec<u8>,
    pub version: Version,
    pub headers: &'a HeaderMap,
}

impl<'a> RequestHeadRef<'a> {
    /// The head of `req`, borrowed.
    pub fn from_http<B>(req: &'a Request<B>) -> (r: Self)
        ensures
            *r.method == req.head.method,
            *r.uri == req.head.uri,
            r.version == req.head.version,
            *r.headers == req.head.headers,
    {
        RequestHeadRef { method: &req.head.method, uri: &req.head.uri, version: req.head.version, headers: &req.head.headers }
    }
}

/// A request made of a borrowed head and a body.
pub struct RequestRef<'a, B> {
    pub parts: RequestHeadRef<'a>,
    pub body: B,
}

impl<'a, B> FromParts<RequestHeadRef<'a>, B> for RequestRef<'a, B> {
    fn from_parts(parts: RequestHeadRef<'a>, body: B) -> (r: Self)
        ensures
            r.parts == parts,
            r.body == body,
    {
        RequestRef { parts, body }
    }
}

impl<'a, B> IntoParts for RequestRef<'a, B> {
    type Parts = RequestHeadRef<'a>;
    type Body = B;

    fn into_parts(self) -> (r: (RequestHeadRef<'a>, B))
        ensures
            r.0 == self.parts,
            r.1 == self.body,
    {
        (self.parts, self.body)
    }
}


impl ParamRef<HeaderMap> for RequestHead {
    fn param_ref(&self) -> (r: &HeaderMap)
        ensures
            *r == self.headers,
    {
        &self.headers
    }
}

} // verus!
