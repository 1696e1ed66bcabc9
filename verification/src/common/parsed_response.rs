//! A response whose cookies are parsed when first asked for.
use vstd::prelude::*;

use crate::common::cookies::{
    jar_parse_leaves, jar_parse_ok, jar_parse_texts, jar_parse_values,
    all_visible, cookie_pairs, cookie_text, jar_add, jar_changed, jar_get, FoundCookie, jar_texts, jar_values, joined_texts,
    lists_each_once, original_texts, original_values, read_jar, write_jar, CookieReadError,
};
use crate::common::error::{ExtractError, HttpError};
use crate::common::header::{map_get, map_insert, HeaderMap};
use crate::common::parsed_request::cookie_header;
use crate::common::response::{Response, ResponseHead};
use crate::common::{IntoParts, Parse};
use vstd::std_specs::convert::FromSpecImpl;

verus! {

/// `set_cookie`: the header the cookies of a response are read from.
pub open spec fn set_cookie_header() -> Seq<u8> {
    seq![115u8, 101, 116, 95, 99, 111, 111, 107, 105, 101]
}

/// A response whose cookies are parsed when first asked for, and kept.
pub struct ParsedResponse<P> {
    inner: Response<P>,
    cookie_jar: Parse<cookie::CookieJar>,
}

impl<P> ParsedResponse<P> {
    #[verifier::type_invariant]
    closed spec fn inv(self) -> bool {
        !(self.cookie_jar is Failed)
    }

    pub closed spec fn response(self) -> Response<P> {
        self.inner
    }

    pub closed spec fn jar_state(self) -> Parse<cookie::CookieJar> {
        self.cookie_jar
    }

    /// `resp`, nothing parsed yet.
    pub closed spec fn fresh(resp: Response<P>) -> Self {
        ParsedResponse { inner: resp, cookie_jar: Parse::Unparsed }
    }

    /// `resp`, nothing parsed yet.
    pub fn new(resp: Response<P>) -> (r: Self)
        ensures
            r == Self::fresh(resp),
            r.response() == resp,
            r.jar_state() is Unparsed,
    {
        ParsedResponse { inner: resp, cookie_jar: Parse::Unparsed }
    }

    /// The cookies of the `set_cookie` header, parsed once (an empty jar where there is
    /// none): an error, and nothing kept, where the header is not visible ASCII or a
    /// cookie in it does not parse.
    pub fn parse_cookies_params(&mut self) -> (r: Result<&cookie::CookieJar, HttpError>)
        ensures
            final(self).response() == old(self).response(),
            r is Ok <==> jar_parse_ok(old(self).jar_state(), old(self).response().head.headers@, set_cookie_header()),
            jar_parse_leaves(old(self).jar_state(), old(self).response().head.headers@, set_cookie_header(), final(self).jar_state()),
            r matches Ok(k) ==> final(self).jar_state() == Parse::Parsed(*k),
            match old(self).jar_state() {
                Parse::Parsed(j) => r matches Ok(k) && *k == j && final(self).jar_state() == old(self).jar_state(),
                _ => match map_get(old(self).response().head.headers@, set_cookie_header()) {
                    None => r matches Ok(k) && final(self).jar_state() == Parse::Parsed(*k) && jar_values(*k)
                        == crate::common::cookies::no_cookies() && jar_texts(*k) == crate::common::cookies::no_cookies(),
                    Some(v) => if !all_visible(v) {
                        r matches Err(HttpError::CookieError(ExtractError::InvalidHeaderValue))
                            && final(self).jar_state() == old(self).jar_state()
                    } else {
                        match cookie_pairs(v) {
                            None => r matches Err(HttpError::CookieError(ExtractError::CookieParseError(_)))
                                && final(self).jar_state() == old(self).jar_state(),
                            Some(ps) => r matches Ok(k) && final(self).jar_state() == Parse::Parsed(*k) && jar_values(*k)
                                == original_values(ps) && jar_texts(*k) == original_texts(ps) && jar_changed(*k)
                                == crate::common::cookies::no_names(),
                        }
                    },
                },
            },
    {
        proof {
            use_type_invariant(&*self);
        }
        if self.cookie_jar.is_unparsed() {
            let name: [u8; 10] = [115u8, 101, 116, 95, 99, 111, 111, 107, 105, 101];
            proof {
                assert(name@ =~= set_cookie_header());
            }
            match read_jar(&self.inner.head.headers, name.as_slice()) {
                Ok(jar) => {
                    self.cookie_jar = Parse::Parsed(jar);
                },
                Err(CookieReadError::InvalidHeaderValue) => {
                    return Err(HttpError::CookieError(ExtractError::InvalidHeaderValue));
                },
                Err(CookieReadError::Parse(e)) => {
                    return Err(HttpError::CookieError(ExtractError::CookieParseError(e)));
                },
            }
        }
        match &self.cookie_jar {
            Parse::Parsed(j) => Ok(j),
            _ => vstd::pervasive::unreached(),
        }
    }

    /// Sets the cookie `name=value` (after parsing the cookies, where they were not).
    pub fn set_cookie_param(&mut self, name: &str, value: &str) -> (r: Result<(), HttpError>)
        ensures
            final(self).response() == old(self).response(),
            r is Ok <==> jar_parse_ok(old(self).jar_state(), old(self).response().head.headers@, set_cookie_header()),
            r is Ok ==> (final(self).jar_state() matches Parse::Parsed(j) && jar_values(j) == jar_parse_values(
                old(self).jar_state(),
                old(self).response().head.headers@,
                set_cookie_header(),
            ).insert(name@, value@) && jar_texts(j) == jar_parse_texts(
                old(self).jar_state(),
                old(self).response().head.headers@,
                set_cookie_header(),
            ).insert(name@, cookie_text(name@, value@))),
            r is Err ==> final(self).jar_state() == old(self).jar_state(),
    {
        proof {
            use_type_invariant(&*self);
        }
        if self.cookie_jar.is_unparsed() {
            match self.parse_cookies_params() {
                Ok(_) => {},
                Err(e) => return Err(e),
            }
        }
        let mut state: Parse<cookie::CookieJar> = Parse::Unparsed;
        std::mem::swap(&mut state, &mut self.cookie_jar);
        match state {
            Parse::Parsed(mut jar) => {
                jar_add(&mut jar, name, value);
                self.cookie_jar = Parse::Parsed(jar);
                Ok(())
            },
            _ => vstd::pervasive::unreached(),
        }
    }

    /// The cookie `name`, where the cookies parse; a copy of it.
    pub fn get_cookie_param(&mut self, name: &str) -> (r: Option<FoundCookie>)
        ensures
            final(self).response() == old(self).response(),
            jar_parse_leaves(old(self).jar_state(), old(self).response().head.headers@, set_cookie_header(), final(self).jar_state()),
            ({
                let ok = jar_parse_ok(old(self).jar_state(), old(self).response().head.headers@, set_cookie_header());
                let values = jar_parse_values(old(self).jar_state(), old(self).response().head.headers@, set_cookie_header());
                match r {
                    Some(c) => ok && values.contains_key(name@) && c@ == (name@, values[name@]),
                    None => !(ok && values.contains_key(name@)),
                }
            }),
    {
        match self.parse_cookies_params() {
            Ok(jar) => FoundCookie::find(jar, name),
            Err(_) => None,
        }
    }

    /// The value of the cookie `name`, where the cookies parse.
    pub fn get_cookie_value(&mut self, name: &str) -> (r: Option<String>)
        ensures
            final(self).response() == old(self).response(),
            jar_parse_leaves(old(self).jar_state(), old(self).response().head.headers@, set_cookie_header(), final(self).jar_state()),
            match r {
                Some(v) => jar_parse_ok(old(self).jar_state(), old(self).response().head.headers@, set_cookie_header()) && jar_parse_values(
                    old(self).jar_state(),
                    old(self).response().head.headers@,
                    set_cookie_header(),
                ).contains_key(name@) && jar_parse_values(old(self).jar_state(), old(self).response().head.headers@, set_cookie_header())[name@] == v@,
                None => !(jar_parse_ok(old(self).jar_state(), old(self).response().head.headers@, set_cookie_header()) && jar_parse_values(
                    old(self).jar_state(),
                    old(self).response().head.headers@,
                    set_cookie_header(),
                ).contains_key(name@)),
            },
    {
        match self.parse_cookies_params() {
            Ok(jar) => match jar_get(jar, name) {
                Some((_, _, v)) => Some(v),
                None => None,
            },
            Err(_) => None,
        }
    }

    /// Where the cookies were parsed, writes them into the `Cookie` header (in place of
    /// what it held), encoded and joined by `; `.
    fn serialize_cookies_into_header(&mut self)
        ensures
            final(self).jar_state() == old(self).jar_state(),
            final(self).response().head.status == old(self).response().head.status,
            final(self).response().head.version == old(self).response().head.version,
            final(self).response().head.reason == old(self).response().head.reason,
            final(self).response().body == old(self).response().body,
            match old(self).jar_state() {
                Parse::Parsed(j) => exists|texts: Seq<Seq<char>>|
                    lists_each_once(texts, jar_texts(j)) && final(self).response().head.headers@ == #[trigger] map_insert(
                        old(self).response().head.headers@,
                        cookie_header(),
                        joined_texts(texts),
                    ),
                _ => final(self).response() == old(self).response(),
            },
    {
        match &self.cookie_jar {
            Parse::Parsed(jar) => {
                let name: [u8; 6] = [99u8, 111, 111, 107, 105, 101];
                proof {
                    assert(name@ =~= cookie_header());
                }
                let mut headers = HeaderMap::new();
                std::mem::swap(&mut headers, &mut self.inner.head.headers);
                write_jar(jar, &mut headers, name.as_slice());
                self.inner.head.headers = headers;
            },
            _ => {},
        }
    }

    /// The response, its cookies written into its `Cookie` header where they were
    /// parsed.
    pub fn into_http_response(self) -> (r: Response<P>)
        ensures
            r.head.status == self.response().head.status,
            r.head.version == self.response().head.version,
            r.head.reason == self.response().head.reason,
            r.body == self.response().body,
            match self.jar_state() {
                Parse::Parsed(j) => exists|texts: Seq<Seq<char>>|
                    lists_each_once(texts, jar_texts(j)) && r.head.headers@ == #[trigger] map_insert(
                        self.response().head.headers@,
                        cookie_header(),
                        joined_texts(texts),
                    ),
                _ => r == self.response(),
            },
    {
        let mut me = self;
        me.serialize_cookies_into_header();
        me.inner
    }

    /// The response, its cookies written back as `into_http_response` does.
    pub fn into_http_request_ref(&mut self) -> (r: &Response<P>)
        ensures
            *r == final(self).response(),
            final(self).jar_state() == old(self).jar_state(),
    {
        self.serialize_cookies_into_header();
        &self.inner
    }

    /// The response's head, for reading.
    pub fn head(&self) -> (r: &ResponseHead)
        ensures
            *r == self.response().head,
    {
        &self.inner.head
    }
}

impl<P> From<Response<P>> for ParsedResponse<P> {
    /// `value`, nothing parsed yet.
    fn from(value: Response<P>) -> (r: Self)
        ensures
            r.response() == value,
            r.jar_state() is Unparsed,
    {
        ParsedResponse::new(value)
    }
}

impl<P> FromSpecImpl<Response<P>> for ParsedResponse<P> {
    open spec fn obeys_from_spec() -> bool {
        true
    }

    open spec fn from_spec(v: Response<P>) -> Self {
        ParsedResponse::fresh(v)
    }
}

impl<P> IntoParts for ParsedResponse<P> {
    type Parts = ResponseHead;
    type Body = P;

    /// The head (its cookies written back) and the body.
    fn into_parts(self) -> (r: (ResponseHead, P))
        ensures
            r.0.status == self.response().head.status,
            r.0.version == self.response().head.version,
            r.0.reason == self.response().head.reason,
            r.1 == self.response().body,
            match self.jar_state() {
                Parse::Parsed(j) => exists|texts: Seq<Seq<char>>|
                    lists_each_once(texts, jar_texts(j)) && r.0.headers@ == #[trigger] map_insert(
                        self.response().head.headers@,
                        cookie_header(),
                        joined_texts(texts),
                    ),
                _ => r.0 == self.response().head,
            },
    {
        let resp = self.into_http_response();
        (resp.head, resp.body)
    }
}

} // verus!
