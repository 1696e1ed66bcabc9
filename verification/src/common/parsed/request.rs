//! A request whose cookies, URL query and urlencoded form body are parsed when first
//! asked for, each name keeping all the values given for it.
use vstd::prelude::*;

use crate::common::cookies::{
    all_visible, cookie_pairs, cookie_text, jar_add_original, jar_changed, FoundCookie, jar_texts, jar_values,
    joined_texts, lists_each_once, no_cookies, original_texts, original_values, read_jar, write_jar,
};
use crate::common::error::LazyParseError;
use crate::common::header::{map_get, map_insert};
use crate::common::parsed::{multi_map, Parse, QueryMap};
use crate::common::parsed_request::{content_type_header, cookie_header, form_urlencoded_type, query_of};
use crate::common::query::form_pairs;
use crate::common::request::{Request, RequestHead};
use crate::common::uri::parse_uri;
use crate::common::IntoParts;
use vstd::std_specs::convert::FromSpecImpl;

verus! {

/// The cookie state that parsing the `cookie` header of `headers` from `state` leaves,
/// and whether that succeeds: a parsed jar stays; a failed parse stays failed; no header
/// gives an empty jar; a header that is not visible ASCII, or holds a cookie that does
/// not parse, fails.
pub open spec fn cookies_parse_ok(state: Parse<cookie::CookieJar>, headers: Seq<crate::common::header::EntryView>) -> bool {
    match state {
        Parse::Parsed(_) => true,
        Parse::Failed => false,
        Parse::Unparsed => match map_get(headers, cookie_header()) {
            None => true,
            Some(v) => all_visible(v) && cookie_pairs(v) is Some,
        },
    }
}

/// The cookie values found by name once parsing from `state` succeeded.
pub open spec fn cookies_parse_values(
    state: Parse<cookie::CookieJar>,
    headers: Seq<crate::common::header::EntryView>,
) -> Map<Seq<char>, Seq<char>> {
    match state {
        Parse::Parsed(j) => jar_values(j),
        _ => match map_get(headers, cookie_header()) {
            Some(v) => match cookie_pairs(v) {
                Some(ps) => original_values(ps),
                None => no_cookies(),
            },
            None => no_cookies(),
        },
    }
}

/// The encoded cookies by name once parsing from `state` succeeded.
pub open spec fn cookies_parse_texts(
    state: Parse<cookie::CookieJar>,
    headers: Seq<crate::common::header::EntryView>,
) -> Map<Seq<char>, Seq<char>> {
    match state {
        Parse::Parsed(j) => jar_texts(j),
        _ => match map_get(headers, cookie_header()) {
            Some(v) => match cookie_pairs(v) {
                Some(ps) => original_texts(ps),
                None => no_cookies(),
            },
            None => no_cookies(),
        },
    }
}

/// The names the jar's own changes hold once parsing from `state` succeeded.
pub open spec fn cookies_parse_changed(state: Parse<cookie::CookieJar>) -> Set<Seq<char>> {
    match state {
        Parse::Parsed(j) => jar_changed(j),
        _ => crate::common::cookies::no_names(),
    }
}

/// Whether `after` is the cookie state parsing leaves, from `state`.
pub open spec fn cookies_parse_leaves(
    state: Parse<cookie::CookieJar>,
    headers: Seq<crate::common::header::EntryView>,
    after: Parse<cookie::CookieJar>,
) -> bool {
    match state {
        Parse::Unparsed => match map_get(headers, cookie_header()) {
            None => after matches Parse::Parsed(k) && jar_values(k) == no_cookies() && jar_texts(k) == no_cookies()
                && jar_changed(k) == crate::common::cookies::no_names(),
            Some(v) => match cookie_pairs(v) {
                Some(ps) if all_visible(v) => after matches Parse::Parsed(k) && jar_values(k) == original_values(ps)
                    && jar_texts(k) == original_texts(ps) && jar_changed(k) == crate::common::cookies::no_names(),
                _ => after is Failed,
            },
        },
        _ => after == state,
    }
}

/// The query state that parsing the query of `uri` from `state` leaves: a parsed query
/// stays; a failed parse stays failed; no query gives an empty map; a query that does
/// not decode fails; else each name has the values given for it, in order.
pub open spec fn url_parse_leaves(state: Parse<QueryMap>, uri: Seq<u8>, after: Parse<QueryMap>) -> bool {
    match state {
        Parse::Unparsed => match query_of(uri) {
            None => after matches Parse::Parsed(m) && m@ == Map::<Seq<char>, Seq<Seq<char>>>::empty(),
            Some(q) => match form_pairs(q) {
                None => after is Failed,
                Some(ps) => after matches Parse::Parsed(m) && m@ == multi_map(ps),
            },
        },
        _ => after == state,
    }
}

/// Whether parsing the query of `uri` from `state` succeeds.
pub open spec fn url_parse_ok(state: Parse<QueryMap>, uri: Seq<u8>) -> bool {
    match state {
        Parse::Parsed(_) => true,
        Parse::Failed => false,
        Parse::Unparsed => match query_of(uri) {
            None => true,
            Some(q) => form_pairs(q) is Some,
        },
    }
}

/// A request whose cookies, URL query and urlencoded form body are parsed when first
/// asked for, and kept; a parse that failed is not tried again.
pub struct ParsedRequest<P> {
    inner: Request<P>,
    cookie_jar: Parse<cookie::CookieJar>,
    url_params: Parse<QueryMap>,
    body_form_params: Parse<QueryMap>,
    body_cache: Option<Vec<u8>>,
}

impl<P> ParsedRequest<P> {
    pub closed spec fn request(self) -> Request<P> {
        self.inner
    }

    pub closed spec fn jar_state(self) -> Parse<cookie::CookieJar> {
        self.cookie_jar
    }

    pub closed spec fn url_state(self) -> Parse<QueryMap> {
        self.url_params
    }

    pub closed spec fn form_state(self) -> Parse<QueryMap> {
        self.body_form_params
    }

    /// The form body kept, once it was read.
    pub closed spec fn body_kept(self) -> Option<Seq<u8>> {
        match self.body_cache {
            Some(b) => Some(b@),
            None => None,
        }
    }

    /// `req`, nothing parsed yet.
    pub closed spec fn fresh(req: Request<P>) -> Self {
        ParsedRequest {
            inner: req,
            cookie_jar: Parse::Unparsed,
            url_params: Parse::Unparsed,
            body_form_params: Parse::Unparsed,
            body_cache: None,
        }
    }

    /// `req`, nothing parsed yet.
    pub fn new(req: Request<P>) -> (r: Self)
        ensures
            r == Self::fresh(req),
            r.request() == req,
            r.jar_state() is Unparsed,
            r.url_state() is Unparsed,
            r.form_state() is Unparsed,
            r.body_kept() is None,
    {
        ParsedRequest {
            inner: req,
            cookie_jar: Parse::Unparsed,
            url_params: Parse::Unparsed,
            body_form_params: Parse::Unparsed,
            body_cache: None,
        }
    }

    /// The cookie state, to read or change.
    pub fn cookies(&mut self) -> (r: &mut Parse<cookie::CookieJar>)
        ensures
            *r == old(self).jar_state(),
            final(self).jar_state() == *final(r),
            final(self).request() == old(self).request(),
            final(self).url_state() == old(self).url_state(),
            final(self).form_state() == old(self).form_state(),
            final(self).body_kept() == old(self).body_kept(),
    {
        &mut self.cookie_jar
    }

    /// The query state, to read or change.
    pub fn url_params(&mut self) -> (r: &mut Parse<QueryMap>)
        ensures
            *r == old(self).url_state(),
            final(self).url_state() == *final(r),
            final(self).request() == old(self).request(),
            final(self).jar_state() == old(self).jar_state(),
            final(self).form_state() == old(self).form_state(),
            final(self).body_kept() == old(self).body_kept(),
    {
        &mut self.url_params
    }

    /// The form state, to read or change.
    pub fn body_form_params(&mut self) -> (r: &mut Parse<QueryMap>)
        ensures
            *r == old(self).form_state(),
            final(self).form_state() == *final(r),
            final(self).request() == old(self).request(),
            final(self).jar_state() == old(self).jar_state(),
            final(self).url_state() == old(self).url_state(),
            final(self).body_kept() == old(self).body_kept(),
    {
        &mut self.body_form_params
    }

    /// The request's head, for reading.
    pub fn head(&self) -> (r: &RequestHead)
        ensures
            *r == self.request().head,
    {
        &self.inner.head
    }

    /// Puts `body` in place of the request's body, and gives back the one it had.
    pub fn replace_body(&mut self, body: P) -> (r: P)
        ensures
            r == old(self).request().body,
            final(self).request().head == old(self).request().head,
            final(self).request().body == body,
            final(self).jar_state() == old(self).jar_state(),
            final(self).url_state() == old(self).url_state(),
            final(self).form_state() == old(self).form_state(),
            final(self).body_kept() == old(self).body_kept(),
    {
        let mut b = body;
        std::mem::swap(&mut b, &mut self.inner.body);
        b
    }

    /// Parses the query of the request target once: an empty map where there is none;
    /// `Previous` after a failed parse; a query that does not decode fails, and is not
    /// tried again.
    pub fn parse_url_params(&mut self) -> (r: Result<(), LazyParseError>)
        ensures
            final(self).request() == old(self).request(),
            final(self).jar_state() == old(self).jar_state(),
            final(self).form_state() == old(self).form_state(),
            final(self).body_kept() == old(self).body_kept(),
            url_parse_leaves(old(self).url_state(), old(self).request().head.uri@, final(self).url_state()),
            r is Ok <==> url_parse_ok(old(self).url_state(), old(self).request().head.uri@),
            old(self).url_state() is Failed ==> r matches Err(LazyParseError::Previous),
            (old(self).url_state() is Unparsed && r is Err) ==> r matches Err(LazyParseError::UrlDecode(_)),
    {
        if self.url_params.is_parsed() {
            return Ok(());
        }
        if self.url_params.is_failed() {
            return Err(LazyParseError::Previous);
        }
        let query = match parse_uri(self.inner.head.uri.as_slice()) {
            Ok(parts) => parts.query,
            Err(_) => None,
        };
        match query {
            None => {
                self.url_params = Parse::Parsed(QueryMap::new());
                Ok(())
            },
            Some(q) => match QueryMap::decode(q.as_slice()) {
                Ok(m) => {
                    self.url_params = Parse::Parsed(m);
                    Ok(())
                },
                Err(e) => {
                    self.url_params = Parse::Failed;
                    Err(LazyParseError::UrlDecode(e))
                },
            },
        }
    }

    /// The values of the query parameter `name` (parsing the query first where it was
    /// not).
    pub fn get_url_param(&mut self, name: &str) -> (r: Result<Option<&Vec<String>>, LazyParseError>)
        ensures
            final(self).request() == old(self).request(),
            final(self).jar_state() == old(self).jar_state(),
            final(self).form_state() == old(self).form_state(),
            url_parse_leaves(old(self).url_state(), old(self).request().head.uri@, final(self).url_state()),
            r is Ok <==> url_parse_ok(old(self).url_state(), old(self).request().head.uri@),
            r matches Ok(o) ==> (final(self).url_state() matches Parse::Parsed(m) && match o {
                Some(vs) => m@.contains_key(name@) && m@[name@] == vs@.map_values(|v: String| v@),
                None => !m@.contains_key(name@),
            }),
    {
        match self.parse_url_params() {
            Ok(()) => {},
            Err(e) => return Err(e),
        }
        match &self.url_params {
            Parse::Parsed(m) => Ok(m.get(name)),
            _ => vstd::pervasive::unreached(),
        }
    }

    /// Parses the cookies of the `cookie` header once: an empty jar where there is none;
    /// `Previous` after a failed parse; a header that is not visible ASCII, or holds a
    /// cookie that does not parse, fails with `InvalidHeaderValue`, and is not tried
    /// again.
    pub fn parse_cookies_params(&mut self) -> (r: Result<(), LazyParseError>)
        ensures
            final(self).request() == old(self).request(),
            final(self).url_state() == old(self).url_state(),
            final(self).form_state() == old(self).form_state(),
            final(self).body_kept() == old(self).body_kept(),
            cookies_parse_leaves(old(self).jar_state(), old(self).request().head.headers@, final(self).jar_state()),
            r is Ok <==> cookies_parse_ok(old(self).jar_state(), old(self).request().head.headers@),
            old(self).jar_state() is Failed ==> r matches Err(LazyParseError::Previous),
            (old(self).jar_state() is Unparsed && r is Err) ==> r matches Err(LazyParseError::InvalidHeaderValue),
    {
        if self.cookie_jar.is_parsed() {
            return Ok(());
        }
        if self.cookie_jar.is_failed() {
            return Err(LazyParseError::Previous);
        }
        let name: [u8; 6] = [99u8, 111, 111, 107, 105, 101];
        proof {
            assert(name@ =~= cookie_header());
        }
        match read_jar(&self.inner.head.headers, name.as_slice()) {
            Ok(jar) => {
                self.cookie_jar = Parse::Parsed(jar);
                Ok(())
            },
            Err(_) => {
                self.cookie_jar = Parse::Failed;
                Err(LazyParseError::InvalidHeaderValue)
            },
        }
    }

    /// Adds the cookie `name=value` to the jar as an original cookie (parsing the
    /// cookies first where they were not).
    pub fn set_cookie_param(&mut self, name: &str, value: &str) -> (r: Result<(), LazyParseError>)
        ensures
            final(self).request() == old(self).request(),
            final(self).url_state() == old(self).url_state(),
            final(self).form_state() == old(self).form_state(),
            r is Ok <==> cookies_parse_ok(old(self).jar_state(), old(self).request().head.headers@),
            r is Err ==> cookies_parse_leaves(
                old(self).jar_state(),
                old(self).request().head.headers@,
                final(self).jar_state(),
            ),
            r is Ok ==> (final(self).jar_state() matches Parse::Parsed(j) && jar_changed(j) == cookies_parse_changed(
                old(self).jar_state(),
            ) && if cookies_parse_changed(old(self).jar_state()).contains(name@) {
                jar_values(j) == cookies_parse_values(old(self).jar_state(), old(self).request().head.headers@) && jar_texts(j)
                    == cookies_parse_texts(old(self).jar_state(), old(self).request().head.headers@)
            } else {
                jar_values(j) == cookies_parse_values(old(self).jar_state(), old(self).request().head.headers@).insert(name@, value@) && jar_texts(j)
                    == cookies_parse_texts(old(self).jar_state(), old(self).request().head.headers@).insert(name@, cookie_text(name@, value@))
            }),
    {
        match self.parse_cookies_params() {
            Ok(()) => {},
            Err(e) => return Err(e),
        }
        let mut state: Parse<cookie::CookieJar> = Parse::Unparsed;
        std::mem::swap(&mut state, &mut self.cookie_jar);
        match state {
            Parse::Parsed(mut jar) => {
                jar_add_original(&mut jar, name, value);
                self.cookie_jar = Parse::Parsed(jar);
                Ok(())
            },
            _ => vstd::pervasive::unreached(),
        }
    }

    /// A copy of the cookie `name` (parsing the cookies first where they were not).
    pub fn get_cookie_param(&mut self, name: &str) -> (r: Result<Option<FoundCookie>, LazyParseError>)
        ensures
            final(self).request() == old(self).request(),
            final(self).url_state() == old(self).url_state(),
            final(self).form_state() == old(self).form_state(),
            cookies_parse_leaves(old(self).jar_state(), old(self).request().head.headers@, final(self).jar_state()),
            r is Ok <==> cookies_parse_ok(old(self).jar_state(), old(self).request().head.headers@),
            r matches Ok(o) ==> (final(self).jar_state() matches Parse::Parsed(j) && match o {
                Some(c) => jar_values(j).contains_key(name@) && c@ == (name@, jar_values(j)[name@]),
                None => !jar_values(j).contains_key(name@),
            }),
    {
        match self.parse_cookies_params() {
            Ok(()) => {},
            Err(e) => return Err(e),
        }
        match &self.cookie_jar {
            Parse::Parsed(jar) => Ok(FoundCookie::find(jar, name)),
            _ => vstd::pervasive::unreached(),
        }
    }

    /// Where the cookies were parsed, writes them into the `cookie` header (in place of
    /// what it held), encoded and joined by `; `.
    fn serialize_cookies_into_header(&mut self)
        ensures
            final(self).jar_state() == old(self).jar_state(),
            final(self).url_state() == old(self).url_state(),
            final(self).form_state() == old(self).form_state(),
            final(self).body_kept() == old(self).body_kept(),
            final(self).request().head.method == old(self).request().head.method,
            final(self).request().head.uri == old(self).request().head.uri,
            final(self).request().head.version == old(self).request().head.version,
            final(self).request().body == old(self).request().body,
            match old(self).jar_state() {
                Parse::Parsed(j) => exists|texts: Seq<Seq<char>>|
                    lists_each_once(texts, jar_texts(j)) && final(self).request().head.headers@ == #[trigger] map_insert(
                        old(self).request().head.headers@,
                        cookie_header(),
                        joined_texts(texts),
                    ),
                _ => final(self).request() == old(self).request(),
            },
    {
        match &self.cookie_jar {
            Parse::Parsed(jar) => {
                let name: [u8; 6] = [99u8, 111, 111, 107, 105, 101];
                proof {
                    assert(name@ =~= cookie_header());
                }
                let mut headers = crate::common::header::HeaderMap::new();
                std::mem::swap(&mut headers, &mut self.inner.head.headers);
                write_jar(jar, &mut headers, name.as_slice());
                self.inner.head.headers = headers;
            },
            _ => {},
        }
    }

    /// Writes the parsed cookies back into the `cookie` header.
    pub fn writeback(&mut self)
        ensures
            final(self).jar_state() == old(self).jar_state(),
            final(self).url_state() == old(self).url_state(),
            final(self).form_state() == old(self).form_state(),
            final(self).request().head.method == old(self).request().head.method,
            final(self).request().head.uri == old(self).request().head.uri,
            final(self).request().body == old(self).request().body,
            match old(self).jar_state() {
                Parse::Parsed(j) => exists|texts: Seq<Seq<char>>|
                    lists_each_once(texts, jar_texts(j)) && final(self).request().head.headers@ == #[trigger] map_insert(
                        old(self).request().head.headers@,
                        cookie_header(),
                        joined_texts(texts),
                    ),
                _ => final(self).request() == old(self).request(),
            },
    {
        self.serialize_cookies_into_header();
    }

    /// The request, its cookies written back into its `cookie` header where they were
    /// parsed.
    pub fn into_http_request(self) -> (r: Request<P>)
        ensures
            r.head.method == self.request().head.method,
            r.head.uri == self.request().head.uri,
            r.head.version == self.request().head.version,
            r.body == self.request().body,
            match self.jar_state() {
                Parse::Parsed(j) => exists|texts: Seq<Seq<char>>|
                    lists_each_once(texts, jar_texts(j)) && r.head.headers@ == #[trigger] map_insert(
                        self.request().head.headers@,
                        cookie_header(),
                        joined_texts(texts),
                    ),
                _ => r == self.request(),
            },
    {
        let mut me = self;
        me.serialize_cookies_into_header();
        me.inner
    }

    /// Whether reading the body as an urlencoded form is to start: not where it was read
    /// already; `Previous` after a failed read; where the `content-type` header is not
    /// exactly `application/x-www-form-urlencoded`, `InvalidContentType`, and the form
    /// counts as failed.
    pub fn begin_body_form_params(&mut self) -> (r: Result<bool, LazyParseError>)
        ensures
            final(self).request() == old(self).request(),
            final(self).jar_state() == old(self).jar_state(),
            final(self).url_state() == old(self).url_state(),
            final(self).body_kept() == old(self).body_kept(),
            match old(self).form_state() {
                Parse::Parsed(_) => r matches Ok(false) && final(self).form_state() == old(self).form_state(),
                Parse::Failed => r matches Err(LazyParseError::Previous) && final(self).form_state() == old(self).form_state(),
                Parse::Unparsed => if map_get(old(self).request().head.headers@, content_type_header()) == Some(
                    form_urlencoded_type(),
                ) {
                    r matches Ok(true) && final(self).form_state() is Unparsed
                } else {
                    r matches Err(LazyParseError::InvalidContentType) && final(self).form_state() is Failed
                },
            },
    {
        if self.body_form_params.is_parsed() {
            return Ok(false);
        }
        if self.body_form_params.is_failed() {
            return Err(LazyParseError::Previous);
        }
        let name: [u8; 12] = [99u8, 111, 110, 116, 101, 110, 116, 45, 116, 121, 112, 101];
        let form: [u8; 33] = [97u8, 112, 112, 108, 105, 99, 97, 116, 105, 111, 110, 47, 120, 45, 119, 119, 119, 45, 102,
            111, 114, 109, 45, 117, 114, 108, 101, 110, 99, 111, 100, 101, 100];
        proof {
            assert(name@ =~= content_type_header());
            assert(form@ =~= form_urlencoded_type());
        }
        let ok = match self.inner.head.headers.get(name.as_slice()) {
            Some(v) => crate::common::header::bytes_eq(v.as_slice(), form.as_slice()),
            None => false,
        };
        if ok {
            Ok(true)
        } else {
            self.body_form_params = Parse::Failed;
            Err(LazyParseError::InvalidContentType)
        }
    }

    /// The form body, read in full as `data`: kept, and decoded (each name with all its
    /// values, in order); where it does not decode, `UrlDecode`, and the form counts as
    /// failed.
    pub fn finish_body_form_params(&mut self, data: &[u8]) -> (r: Result<&QueryMap, LazyParseError>)
        ensures
            final(self).request() == old(self).request(),
            final(self).jar_state() == old(self).jar_state(),
            final(self).url_state() == old(self).url_state(),
            final(self).body_kept() == Some(data@),
            match form_pairs(data@) {
                Some(ps) => r matches Ok(m) && m@ == multi_map(ps) && final(self).form_state() == Parse::Parsed(*m),
                None => r matches Err(LazyParseError::UrlDecode(_)) && final(self).form_state() is Failed,
            },
    {
        self.body_cache = Some(crate::common::header::copy_bytes(data));
        match QueryMap::decode(data) {
            Ok(m) => {
                self.body_form_params = Parse::Parsed(m);
                match &self.body_form_params {
                    Parse::Parsed(m) => Ok(m),
                    _ => vstd::pervasive::unreached(),
                }
            },
            Err(e) => {
                self.body_form_params = Parse::Failed;
                Err(LazyParseError::UrlDecode(e))
            },
        }
    }

    /// The values of the form field `name`; `None` where the form was not read.
    pub fn get_body_url_encoded_param(&self, name: &str) -> (r: Option<&Vec<String>>)
        ensures
            match self.form_state() {
                Parse::Parsed(m) => match r {
                    Some(vs) => m@.contains_key(name@) && m@[name@] == vs@.map_values(|v: String| v@),
                    None => !m@.contains_key(name@),
                },
                _ => r is None,
            },
    {
        match &self.body_form_params {
            Parse::Parsed(m) => m.get(name),
            _ => None,
        }
    }

    /// The request, taken apart: its head and its body.
    pub fn into_request(self) -> (r: Request<P>)
        ensures
            r == self.request(),
    {
        self.inner
    }
}

impl<P> From<Request<P>> for ParsedRequest<P> {
    /// `req`, nothing parsed yet.
    fn from(req: Request<P>) -> (r: Self)
        ensures
            r.request() == req,
            r.jar_state() is Unparsed,
            r.url_state() is Unparsed,
            r.form_state() is Unparsed,
    {
        ParsedRequest::new(req)
    }
}

impl<P> FromSpecImpl<Request<P>> for ParsedRequest<P> {
    open spec fn obeys_from_spec() -> bool {
        true
    }

    open spec fn from_spec(v: Request<P>) -> Self {
        ParsedRequest::fresh(v)
    }
}

impl<P> IntoParts for ParsedRequest<P> {
    type Parts = RequestHead;
    type Body = P;

    /// The head (its cookies written back) and the body.
    fn into_parts(self) -> (r: (RequestHead, P))
        ensures
            r.0.method == self.request().head.method,
            r.0.uri == self.request().head.uri,
            r.1 == self.request().body,
    {
        let req = self.into_http_request();
        (req.head, req.body)
    }
}

} // verus!
