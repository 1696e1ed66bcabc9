//! URIs, read through `http::Uri`: the parts of a URI that the library uses.
use vstd::prelude::*;

verus! {

/// The parts of a parsed URI, as `http::Uri`'s accessors give them.
pub struct UriParts {
    pub scheme: Option<Vec<u8>>,
    pub host: Option<String>,
    pub port: Option<u16>,
    pub path_and_query: Option<Vec<u8>>,
    pub query: Option<Vec<u8>>,
}

pub struct UriPartsView {
    pub scheme: Option<Seq<u8>>,
    pub host: Option<Seq<char>>,
    pub port: Option<u16>,
    pub path_and_query: Option<Seq<u8>>,
    pub query: Option<Seq<u8>>,
}

pub open spec fn opt_bytes_view(o: Option<Vec<u8>>) -> Option<Seq<u8>> {
    match o {
        Some(v) => Some(v@),
        None => None,
    }
}

pub open spec fn opt_string_view(o: Option<String>) -> Option<Seq<char>> {
    match o {
        Some(v) => Some(v@),
        None => None,
    }
}

impl View for UriParts {
    type V = UriPartsView;

    open spec fn view(&self) -> UriPartsView {
        UriPartsView {
            scheme: opt_bytes_view(self.scheme),
            host: opt_string_view(self.host),
            port: self.port,
            path_and_query: opt_bytes_view(self.path_and_query),
            query: opt_bytes_view(self.query),
        }
    }
}

#[verifier::external_type_specification]
#[verifier::external_body]
pub struct ExInvalidUri(http::uri::InvalidUri);

/// What `http::Uri` parses `bytes` into: its parts, or `None` when they are not a URI.
pub uninterp spec fn uri_parts_of(bytes: Seq<u8>) -> Option<UriPartsView>;

/// `http::Uri::from_maybe_shared`: parses `bytes` as a URI, and hands out the parts of it
/// that `scheme_str`, `host`, `port_u16`, `path_and_query` and `query` return. What
/// counts as a URI, and how it is split, is `uri_parts_of`: nothing more is stated.
#[verifier::external_body]
pub(crate) fn parse_uri(bytes: &[u8]) -> (r: Result<UriParts, http::uri::InvalidUri>)
    ensures
        match r {
            Ok(p) => uri_parts_of(bytes@) == Some(p@),
            Err(_) => uri_parts_of(bytes@) is None,
        },
{
    let u = http::Uri::from_maybe_shared(bytes::Bytes::copy_from_slice(bytes))?;
    let owned = |s: &str| s.as_bytes().to_vec();
    Ok(UriParts {
        scheme: u.scheme_str().map(owned),
        host: u.host().map(|h| h.to_string()),
        port: u.port_u16(),
        path_and_query: u.path_and_query().map(|p| owned(p.as_str())),
        query: u.query().map(owned),
    })
}

impl UriParts {
    /// The parts of the URI `bytes`; an error where they are not a URI.
    pub fn parse(bytes: &[u8]) -> (r: Result<UriParts, http::uri::InvalidUri>)
        ensures
            match r {
                Ok(p) => uri_parts_of(bytes@) == Some(p@),
                Err(_) => uri_parts_of(bytes@) is None,
            },
    {
        parse_uri(bytes)
    }
}

} // verus!
