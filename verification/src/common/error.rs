//! Errors shared by the codecs.
use vstd::prelude::*;

use crate::h1::codec::decoder::DecodeError;
use crate::h1::codec::encoder::EncodeError;
use crate::h1::payload::PayloadError;
use vstd::std_specs::convert::FromSpecImpl;

verus! {

#[verifier::external_type_specification]
#[verifier::external_body]
pub struct ExIoError(std::io::Error);

#[verifier::external_type_specification]
#[verifier::external_body]
pub struct ExCookieParseError(cookie::ParseError);

/// Why a part of a message could not be taken out of it.
#[derive(Debug)]
pub enum ExtractError {
    UninitializedCookieJar,
    CookieParseError(cookie::ParseError),
    InvalidHeaderValue,
    InvalidContentType,
    MissingURL,
    Previous,
}

/// Why a lazily parsed part of a message could not be had.
#[derive(Debug)]
pub enum LazyParseError {
    /// Parsing failed before, and is not tried again.
    Previous,
    /// A header is not visible ASCII, or a cookie in it does not parse.
    InvalidHeaderValue,
    /// The body is not of the content type asked for.
    InvalidContentType,
    /// The urlencoded text does not decode.
    UrlDecode(serde_urlencoded::de::Error),
    /// Reading the body failed.
    Http(HttpError),
}

/// Any error of reading or writing HTTP messages.
#[derive(Debug)]
pub enum HttpError {
    H1EncodeError(EncodeError),
    H1DecodeError(DecodeError),
    PayloadError(PayloadError),
    IOError(std::io::Error),
    CookieError(ExtractError),
    SerDeError(serde_urlencoded::de::Error),
}

/// An error of encoding or decoding a body's content coding, or of the body itself.
#[derive(Debug)]
pub enum EncodeDecodeError<T> {
    EncodeDecode(std::io::Error),
    Http(T),
}


impl From<std::io::Error> for HttpError {
    fn from(v: std::io::Error) -> (r: Self) {
        HttpError::IOError(v)
    }
}

impl FromSpecImpl<std::io::Error> for HttpError {
    open spec fn obeys_from_spec() -> bool {
        true
    }

    open spec fn from_spec(v: std::io::Error) -> Self {
        HttpError::IOError(v)
    }
}

impl From<DecodeError> for HttpError {
    fn from(v: DecodeError) -> (r: Self) {
        HttpError::H1DecodeError(v)
    }
}

impl FromSpecImpl<DecodeError> for HttpError {
    open spec fn obeys_from_spec() -> bool {
        true
    }

    open spec fn from_spec(v: DecodeError) -> Self {
        HttpError::H1DecodeError(v)
    }
}

impl From<EncodeError> for HttpError {
    fn from(v: EncodeError) -> (r: Self) {
        HttpError::H1EncodeError(v)
    }
}

impl FromSpecImpl<EncodeError> for HttpError {
    open spec fn obeys_from_spec() -> bool {
        true
    }

    open spec fn from_spec(v: EncodeError) -> Self {
        HttpError::H1EncodeError(v)
    }
}

impl From<PayloadError> for HttpError {
    fn from(v: PayloadError) -> (r: Self) {
        HttpError::PayloadError(v)
    }
}

impl FromSpecImpl<PayloadError> for HttpError {
    open spec fn obeys_from_spec() -> bool {
        true
    }

    open spec fn from_spec(v: PayloadError) -> Self {
        HttpError::PayloadError(v)
    }
}

impl From<ExtractError> for HttpError {
    fn from(v: ExtractError) -> (r: Self) {
        HttpError::CookieError(v)
    }
}

impl FromSpecImpl<ExtractError> for HttpError {
    open spec fn obeys_from_spec() -> bool {
        true
    }

    open spec fn from_spec(v: ExtractError) -> Self {
        HttpError::CookieError(v)
    }
}

impl From<serde_urlencoded::de::Error> for HttpError {
    fn from(v: serde_urlencoded::de::Error) -> (r: Self) {
        HttpError::SerDeError(v)
    }
}

impl FromSpecImpl<serde_urlencoded::de::Error> for HttpError {
    open spec fn obeys_from_spec() -> bool {
        true
    }

    open spec fn from_spec(v: serde_urlencoded::de::Error) -> Self {
        HttpError::SerDeError(v)
    }
}

} // verus!
