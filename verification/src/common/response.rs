//! Response heads.
use vstd::prelude::*;

use crate::common::ext::Reason;
use crate::common::header::{EntryView, HeaderMap, Version};
use crate::common::{FromParts, IntoParts};
use crate::ParamRef;

verus! {

/// The head of a response: its version, status, headers, and a reason phrase where it
/// is not the canonical one.
#[derive(Debug)]
pub struct ResponseHead {
    pub version: Version,
    pub status: u16,
    pub headers: HeaderMap,
    pub reason: Option<Reason>,
}

pub struct ResponseHeadView {
    pub version: Version,
    pub status: u16,
    pub headers: Seq<EntryView>,
    pub reason: Option<Seq<u8>>,
}

impl View for ResponseHead {
    type V = ResponseHeadView;

    open spec fn view(&self) -> ResponseHeadView {
        ResponseHeadView {
            version: self.version,
            status: self.status,
            headers: self.headers@,
            reason: match self.reason {
                Some(r) => Some(r.0@),
                None => None,
            },
        }
    }
}


/// A response: its head and its body.
#[derive(Debug)]
pub struct Response<P> {
    pub head: ResponseHead,
    pub body: P,
}

impl<P> FromParts<ResponseHead, P> for Response<P> {
    fn from_parts(parts: ResponseHead, body: P) -> (r: Self)
        ensures
            r.head == parts,
            r.body == body,
    {
        Response { head: parts, body }
    }
}

impl<P> IntoParts for Response<P> {
    type Parts = ResponseHead;
    type Body = P;

    fn into_parts(self) -> (r: (ResponseHead, P))
        ensures
            r.0 == self.head,
            r.1 == self.body,
    {
        (self.head, self.body)
    }
}

/// A response's head, its headers borrowed from the response.
pub struct ResponseHeadRef<'a> {
    pub status: u16,
    pub version: Version,
    pub headers: &'a HeaderMap,
}

impl ParamRef<HeaderMap> for ResponseHead {
    fn param_ref(&self) -> (r: &HeaderMap)
        ensures
            *r == self.headers,
    {
        &self.headers
    }
}

} // verus!
