//! A response whose cookies are parsed when first asked for.
use vstd::prelude::*;

use crate::common::cookies::{
    cookie_text, jar_add_original, jar_changed, FoundCookie, jar_texts, jar_values, joined_texts, lists_each_once,
    read_jar, write_jar,
};
use crate::common::error::LazyParseError;
use crate::common::header::map_insert;
use crate::common::parsed::request::{
    cookies_parse_changed, cookies_parse_leaves, cookies_parse_ok, cookies_parse_texts, cookies_parse_values,
};
use crate::common::parsed::Parse;
use crate::common::parsed_request::cookie_header;
use crate::common::response::{Response, ResponseHead};
use crate::common::IntoParts;
use vstd::std_specs::convert::FromSpecImpl;

verus! {

/// A response whose cookies (those of its `cookie` header) are parsed when first asked
/// for, and kept; a parse that failed is not tried again.
pub struct ParsedResponse<P> {
    inner: Response<P>,
    cookie_jar: Parse<cookie::CookieJar>,
}

impl<P> ParsedResponse<P> {
    pub closed spec fn response(self) -> Response<P> {
        self.inner
    }

    pub closed spec fn jar_state(self) -> Parse<cookie::CookieJar> {
        self.cookie_jar
    }

    /// `inner`, nothing parsed yet.
    pub closed spec fn fresh(inner: Response<P>) -> Self {
        ParsedResponse { inner, cookie_jar: Parse::Unparsed }
    }

    /// `inner`, nothing parsed yet.
    pub fn new(inner: Response<P>) -> (r: Self)
        ensures
            r == Self::fresh(inner),
            r.response() == inner,
            r.jar_state() is Unparsed,
    {
        ParsedResponse { inner, cookie_jar: Parse::Unparsed }
    }

    /// Where the cookies were parsed, writes them into the `cookie` header (in place of
    /// what it held), encoded and joined by `; `.
    fn serialize_cookies_into_header(&mut self)
        ensures
            final(self).jar_state() == old(self).jar_state(),
            final(self).response().head.status == old(self).response().head.status,
            final(self).response().head.version == old(self).response().head.version,
            final(self).response().head.reason == old(self).response().head.reason,
            final(self).response().body == old(self).response().body,
            match old(self).jar_state() {
                Parse::Parsed(j) => exists|texts: Seq<Seq<char>>|
                    lists_each_once(texts, jar_texts(j)) && final(self).response().head.headers@ == #[trigger] map_insert(
                        old(self).response().head.headers@,
                        cookie_header(),
                        joined_texts(texts),
                    ),
                _ => final(self).response() == old(self).response(),
            },
    {
        match &self.cookie_jar {
            Parse::Parsed(jar) => {
                let name: [u8; 6] = [99u8, 111, 111, 107, 105, 101];
                proof {
                    assert(name@ =~= cookie_header());
                }
                let mut headers = crate::common::header::HeaderMap::new();
                std::mem::swap(&mut headers, &mut self.inner.head.headers);
                write_jar(jar, &mut headers, name.as_slice());
                self.inner.head.headers = headers;
            },
            _ => {},
        }
    }

    /// The response, its cookies written back into its `cookie` header where they were
    /// parsed.
    pub fn into_http_response(self) -> (r: Response<P>)
        ensures
            r.head.status == self.response().head.status,
            r.head.version == self.response().head.version,
            r.head.reason == self.response().head.reason,
            r.body == self.response().body,
            match self.jar_state() {
                Parse::Parsed(j) => exists|texts: Seq<Seq<char>>|
                    lists_each_once(texts, jar_texts(j)) && r.head.headers@ == #[trigger] map_insert(
                        self.response().head.headers@,
                        cookie_header(),
                        joined_texts(texts),
                    ),
                _ => r == self.response(),
            },
    {
        let mut me = self;
        me.serialize_cookies_into_header();
        me.inner
    }

    /// Writes the parsed cookies back into the `cookie` header.
    pub fn writeback(&mut self)
        ensures
            final(self).jar_state() == old(self).jar_state(),
            final(self).response().head.status == old(self).response().head.status,
            final(self).response().head.version == old(self).response().head.version,
            final(self).response().body == old(self).response().body,
            match old(self).jar_state() {
                Parse::Parsed(j) => exists|texts: Seq<Seq<char>>|
                    lists_each_once(texts, jar_texts(j)) && final(self).response().head.headers@ == #[trigger] map_insert(
                        old(self).response().head.headers@,
                        cookie_header(),
                        joined_texts(texts),
                    ),
                _ => final(self).response() == old(self).response(),
            },
    {
        self.serialize_cookies_into_header();
    }

    /// The response as it stands.
    pub fn raw_response(&self) -> (r: &Response<P>)
        ensures
            *r == self.response(),
    {
        &self.inner
    }

    /// The response, to read or change.
    pub fn raw_response_mut(&mut self) -> (r: &mut Response<P>)
        ensures
            *r == old(self).response(),
            final(self).response() == *final(r),
            final(self).jar_state() == old(self).jar_state(),
    {
        &mut self.inner
    }

    /// Parses the cookies of the `cookie` header once: an empty jar where there is none;
    /// `Previous` after a failed parse; a header that is not visible ASCII, or holds a
    /// cookie that does not parse, fails with `InvalidHeaderValue`, and is not tried
    /// again.
    pub fn parse_cookies_params(&mut self) -> (r: Result<(), LazyParseError>)
        ensures
            final(self).response() == old(self).response(),
            cookies_parse_leaves(old(self).jar_state(), old(self).response().head.headers@, final(self).jar_state()),
            r is Ok <==> cookies_parse_ok(old(self).jar_state(), old(self).response().head.headers@),
            old(self).jar_state() is Failed ==> r matches Err(LazyParseError::Previous),
            (old(self).jar_state() is Unparsed && r is Err) ==> r matches Err(LazyParseError::InvalidHeaderValue),
    {
        if self.cookie_jar.is_parsed() {
            return Ok(());
        }
        if self.cookie_jar.is_failed() {
            return Err(LazyParseError::Previous);
        }
        let name: [u8; 6] = [99u8, 111, 111, 107, 105, 101];
        proof {
            assert(name@ =~= cookie_header());
        }
        match read_jar(&self.inner.head.headers, name.as_slice()) {
            Ok(jar) => {
                self.cookie_jar = Parse::Parsed(jar);
                Ok(())
            },
            Err(_) => {
                self.cookie_jar = Parse::Failed;
                Err(LazyParseError::InvalidHeaderValue)
            },
        }
    }

    /// Adds the cookie `name=value` to the jar as an original cookie (parsing the
    /// cookies first where they were not).
    pub fn set_cookie_param(&mut self, name: &str, value: &str) -> (r: Result<(), LazyParseError>)
        ensures
            final(self).response() == old(self).response(),
            r is Ok <==> cookies_parse_ok(old(self).jar_state(), old(self).response().head.headers@),
            r is Err ==> cookies_parse_leaves(
                old(self).jar_state(),
                old(self).response().head.headers@,
                final(self).jar_state(),
            ),
            r is Ok ==> (final(self).jar_state() matches Parse::Parsed(j) && jar_changed(j) == cookies_parse_changed(
                old(self).jar_state(),
            ) && if cookies_parse_changed(old(self).jar_state()).contains(name@) {
                jar_values(j) == cookies_parse_values(old(self).jar_state(), old(self).response().head.headers@)
                    && jar_texts(j) == cookies_parse_texts(old(self).jar_state(), old(self).response().head.headers@)
            } else {
                jar_values(j) == cookies_parse_values(old(self).jar_state(), old(self).response().head.headers@).insert(
                    name@,
                    value@,
                ) && jar_texts(j) == cookies_parse_texts(
                    old(self).jar_state(),
                    old(self).response().head.headers@,
                ).insert(name@, cookie_text(name@, value@))
            }),
    {
        match self.parse_cookies_params() {
            Ok(()) => {},
            Err(e) => return Err(e),
        }
        let mut state: Parse<cookie::CookieJar> = Parse::Unparsed;
        std::mem::swap(&mut state, &mut self.cookie_jar);
        match state {
            Parse::Parsed(mut jar) => {
                jar_add_original(&mut jar, name, value);
                self.cookie_jar = Parse::Parsed(jar);
                Ok(())
            },
            _ => vstd::pervasive::unreached(),
        }
    }

    /// A copy of the cookie `name` (parsing the cookies first where they were not).
    pub fn get_cookie_param(&mut self, name: &str) -> (r: Result<Option<FoundCookie>, LazyParseError>)
        ensures
            final(self).response() == old(self).response(),
            cookies_parse_leaves(old(self).jar_state(), old(self).response().head.headers@, final(self).jar_state()),
            r is Ok <==> cookies_parse_ok(old(self).jar_state(), old(self).response().head.headers@),
            r matches Ok(o) ==> (final(self).jar_state() matches Parse::Parsed(j) && match o {
                Some(c) => jar_values(j).contains_key(name@) && c@ == (name@, jar_values(j)[name@]),
                None => !jar_values(j).contains_key(name@),
            }),
    {
        match self.parse_cookies_params() {
            Ok(()) => {},
            Err(e) => return Err(e),
        }
        match &self.cookie_jar {
            Parse::Parsed(jar) => Ok(FoundCookie::find(jar, name)),
            _ => vstd::pervasive::unreached(),
        }
    }
}

impl<P> From<Response<P>> for ParsedResponse<P> {
    /// `inner`, nothing parsed yet.
    fn from(inner: Response<P>) -> (r: Self)
        ensures
            r.response() == inner,
            r.jar_state() is Unparsed,
    {
        ParsedResponse::new(inner)
    }
}

impl<P> FromSpecImpl<Response<P>> for ParsedResponse<P> {
    open spec fn obeys_from_spec() -> bool {
        true
    }

    open spec fn from_spec(v: Response<P>) -> Self {
        ParsedResponse::fresh(v)
    }
}

impl<P> IntoParts for ParsedResponse<P> {
    type Parts = ResponseHead;
    type Body = P;

    /// The head (its cookies written back) and the body.
    fn into_parts(self) -> (r: (ResponseHead, P))
        ensures
            r.0.status == self.response().head.status,
            r.0.version == self.response().head.version,
            r.1 == self.response().body,
    {
        let resp = self.into_http_response();
        (resp.head, resp.body)
    }
}

} // verus!
