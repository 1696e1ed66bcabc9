//! What requests and responses are made of, and how the library reads them.
use vstd::prelude::*;

use crate::common::header::{EntryView, HeaderMap};
use crate::common::request::RequestHead;
use crate::common::response::ResponseHead;

pub mod body;
pub mod buf;
pub mod cookies;
pub mod error;
pub mod ext;
pub mod header;
pub mod multipart;
pub mod parsed;
pub mod parsed_request;
pub mod parsed_response;
pub mod query;
pub mod request;
pub mod response;
pub mod uri;
pub mod waker;

verus! {

/// A message made of a head and a body.
pub trait FromParts<P, B>: Sized {
    fn from_parts(parts: P, body: B) -> Self;
}

/// A message taken apart into its head and its body.
pub trait IntoParts {
    type Parts;
    type Body;

    fn into_parts(self) -> (Self::Parts, Self::Body);
}

/// Something that holds a header map.
pub trait BorrowHeaderMap {
    /// The header map it holds.
    spec fn spec_header_map(&self) -> Seq<EntryView>;

    fn header_map(&self) -> (r: &HeaderMap)
        ensures
            r@ == self.spec_header_map(),
    ;
}

impl BorrowHeaderMap for HeaderMap {
    open spec fn spec_header_map(&self) -> Seq<EntryView> {
        self@
    }

    fn header_map(&self) -> (r: &HeaderMap) {
        self
    }
}

impl BorrowHeaderMap for RequestHead {
    open spec fn spec_header_map(&self) -> Seq<EntryView> {
        self.headers@
    }

    fn header_map(&self) -> (r: &HeaderMap) {
        &self.headers
    }
}

impl BorrowHeaderMap for ResponseHead {
    open spec fn spec_header_map(&self) -> Seq<EntryView> {
        self.headers@
    }

    fn header_map(&self) -> (r: &HeaderMap) {
        &self.headers
    }
}

/// The state of something parsed lazily: parsed (with its value), failed, or not yet
/// parsed.
#[derive(Debug, Clone, Copy)]
pub enum Parse<T> {
    Parsed(T),
    Failed,
    Unparsed,
}

impl<T> Default for Parse<T> {
    fn default() -> (r: Self)
        ensures
            r is Unparsed,
    {
        Parse::Unparsed
    }
}

impl<T> Parse<T> {
    /// Back to not parsed.
    pub fn reset(&mut self)
        ensures
            *final(self) is Unparsed,
    {
        *self = Parse::Unparsed;
    }

    /// Parsed, with `value`.
    pub fn set(&mut self, value: T)
        ensures
            *final(self) == Parse::Parsed(value),
    {
        *self = Parse::Parsed(value);
    }

    pub fn is_unparsed(&self) -> (r: bool)
        ensures
            r == (*self is Unparsed),
    {
        matches!(self, Parse::Unparsed)
    }

    pub fn is_unparsed_or_failed(&self) -> (r: bool)
        ensures
            r == (*self is Unparsed || *self is Failed),
    {
        matches!(self, Parse::Failed) || matches!(self, Parse::Unparsed)
    }

    pub fn is_parsed(&self) -> (r: bool)
        ensures
            r == (*self is Parsed),
    {
        matches!(self, Parse::Parsed(_))
    }

    pub fn is_parsing_failed(&self) -> (r: bool)
        ensures
            r == (*self is Failed),
    {
        matches!(self, Parse::Failed)
    }

    /// The parsed value; only for a parsed state.
    pub fn parsed_inner_ref(&self) -> (r: &T)
        requires
            *self is Parsed,
        ensures
            *self == Parse::Parsed(*r),
    {
        match self {
            Parse::Parsed(inner) => inner,
            _ => vstd::pervasive::unreached(),
        }
    }

    /// The parsed value, for writing; only for a parsed state.
    pub fn parsed_inner_mut(&mut self) -> (r: &mut T)
        requires
            *old(self) is Parsed,
        ensures
            *old(self) == Parse::Parsed(*r),
            *final(self) == Parse::Parsed(*final(r)),
    {
        match self {
            Parse::Parsed(inner) => inner,
            _ => vstd::pervasive::unreached(),
        }
    }

    /// The parsed value, taken out; only for a parsed state.
    pub fn parsed_inner(self) -> (r: T)
        requires
            self is Parsed,
        ensures
            self == Parse::Parsed(r),
    {
        match self {
            Parse::Parsed(inner) => inner,
            _ => vstd::pervasive::unreached(),
        }
    }
}

impl<T: Default> Parse<T> {
    /// Parsed, with the default value.
    pub fn set_default(&mut self)
        ensures
            *final(self) matches Parse::Parsed(v) && call_ensures(T::default, (), v),
    {
        *self = Parse::Parsed(T::default());
    }
}

} // verus!
