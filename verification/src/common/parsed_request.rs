//! A request whose cookies, query and form body are parsed when first asked for.
use vstd::prelude::*;

use crate::common::cookies::{
    jar_parse_leaves, jar_parse_ok, jar_parse_texts, jar_parse_values,
    jar_add, jar_changed, jar_get, FoundCookie, jar_texts, jar_values, lists_each_once, read_jar, write_jar, joined_texts,
    original_texts, original_values, all_visible, cookie_pairs, cookie_text, CookieReadError,
};
use crate::common::error::{ExtractError, HttpError};
use crate::common::header::{map_get, map_insert, EntryView, HeaderMap};
use crate::common::query::{form_map, QueryMap};
use crate::common::request::{Request, RequestHead};
use crate::common::uri::{parse_uri, uri_parts_of};
use crate::common::{IntoParts, Parse};
use crate::h1::codec::raw::occurs_at;
use vstd::std_specs::convert::FromSpecImpl;

verus! {

/// The query map that parsing the query of `uri` from the state `state` gives: the one
/// kept where it was parsed; else the decoded query, `None` where there is no query or
/// it does not decode.
pub open spec fn url_parse_map(state: Parse<QueryMap>, uri: Seq<u8>) -> Option<Map<Seq<char>, Seq<char>>> {
    match state {
        Parse::Parsed(m) => Some(m@),
        _ => match query_of(uri) {
            None => None,
            Some(q) => form_map(q),
        },
    }
}

/// The query of a request target; `None` where it has none (or is not a URI).
pub open spec fn query_of(uri: Seq<u8>) -> Option<Seq<u8>> {
    match uri_parts_of(uri) {
        Some(p) => p.query,
        None => None,
    }
}

/// `cookie`.
pub open spec fn cookie_header() -> Seq<u8> {
    seq![99u8, 111, 111, 107, 105, 101]
}

/// `content-type`.
pub open spec fn content_type_header() -> Seq<u8> {
    seq![99u8, 111, 110, 116, 101, 110, 116, 45, 116, 121, 112, 101]
}

/// `application/x-www-form-urlencoded`.
pub open spec fn form_urlencoded_type() -> Seq<u8> {
    seq![97u8, 112, 112, 108, 105, 99, 97, 116, 105, 111, 110, 47, 120, 45, 119, 119, 119, 45, 102, 111, 114, 109, 45,
        117, 114, 108, 101, 110, 99, 111, 100, 101, 100]
}

/// `multipart/form-data`.
pub open spec fn multipart_type() -> Seq<u8> {
    seq![109u8, 117, 108, 116, 105, 112, 97, 114, 116, 47, 102, 111, 114, 109, 45, 100, 97, 116, 97]
}

/// `boundary=`.
pub open spec fn boundary_key() -> Seq<u8> {
    seq![98u8, 111, 117, 110, 100, 97, 114, 121, 61]
}

/// The position of the first `needle` in `hay` at or after `from`; `hay`'s length where
/// there is none.
pub open spec fn next_occurrence(hay: Seq<u8>, needle: Seq<u8>, from: int) -> int
    decreases hay.len() - from,
{
    if from < 0 || from >= hay.len() {
        hay.len() as int
    } else if occurs_at(hay, needle, from) {
        from
    } else {
        next_occurrence(hay, needle, from + 1)
    }
}

/// The media type of a `Content-Type` value: what comes before its first `;` (none
/// where it is not visible ASCII).
pub open spec fn media_type(v: Seq<u8>) -> Seq<u8> {
    if all_visible(v) {
        v.take(next_occurrence(v, seq![59u8], 0))
    } else {
        Seq::empty()
    }
}

/// The boundary a `Content-Type` value gives: what follows its first `boundary=`, up to
/// the next one (none where there is no `boundary=`, or it is not visible ASCII).
pub open spec fn boundary_of(v: Seq<u8>) -> Seq<u8> {
    let i = next_occurrence(v, boundary_key(), 0);
    if !all_visible(v) || i >= v.len() {
        Seq::empty()
    } else {
        v.subrange(i + 9, next_occurrence(v, boundary_key(), i + 9))
    }
}

/// The first `needle` in `hay` at or after `from`.
fn find_from(hay: &[u8], needle: &[u8], from: usize) -> (r: usize)
    requires
        needle@.len() > 0,
        from <= hay@.len(),
    ensures
        r == next_occurrence(hay@, needle@, from as int),
        from <= r <= hay@.len(),
{
    let mut i: usize = from;
    while i < hay.len()
        invariant
            from <= i <= hay@.len(),
            needle@.len() > 0,
            next_occurrence(hay@, needle@, from as int) == next_occurrence(hay@, needle@, i as int),
        decreases hay@.len() - i,
    {
        if needle.len() <= hay.len() - i {
            let mut k: usize = 0;
            let mut same = true;
            while same && k < needle.len()
                invariant
                    k <= needle@.len(),
                    i <= hay@.len(),
                    needle@.len() <= hay@.len() - i,
                    forall|j: int| 0 <= j < k ==> hay@[i + j] == needle@[j],
                    !same ==> k < needle@.len() && hay@[i + k] != needle@[k as int],
                decreases needle@.len() - k, (if same { 1int } else { 0int }),
            {
                let n = hay.len();
                assert(i + k < n);
                if hay[i + k] == needle[k] {
                    k += 1;
                } else {
                    same = false;
                }
            }
            if k == needle.len() {
                proof {
                    assert(hay@.subrange(i as int, i + needle@.len()) =~= needle@);
                }
                return i;
            }
            proof {
                assert(hay@.subrange(i as int, i + needle@.len())[k as int] != needle@[k as int]);
            }
        }
        i += 1;
    }
    hay.len()
}

fn slice_to_vec(v: &[u8], from: usize, to: usize) -> (r: Vec<u8>)
    requires
        from <= to <= v@.len(),
    ensures
        r@ == v@.subrange(from as int, to as int),
{
    let mut r: Vec<u8> = Vec::new();
    let mut i: usize = from;
    while i < to
        invariant
            from <= i <= to <= v@.len(),
            r@ == v@.subrange(from as int, i as int),
        decreases to - i,
    {
        r.push(v[i]);
        i += 1;
        proof {
            assert(r@ =~= v@.subrange(from as int, i as int));
        }
    }
    r
}

/// The media type of a `Content-Type` value.
pub fn media_type_of(v: &[u8]) -> (r: Vec<u8>)
    ensures
        r@ == media_type(v@),
{
    if !crate::common::cookies::check_visible_ascii(v) {
        return Vec::new();
    }
    let semi: [u8; 1] = [59u8];
    proof {
        assert(semi@ =~= seq![59u8]);
    }
    let end = find_from(v, semi.as_slice(), 0);
    proof {
        assert(v@.subrange(0, end as int) =~= v@.take(end as int));
    }
    slice_to_vec(v, 0, end)
}

/// The boundary a `Content-Type` value gives.
pub fn boundary_from(v: &[u8]) -> (r: Vec<u8>)
    ensures
        r@ == boundary_of(v@),
{
    if !crate::common::cookies::check_visible_ascii(v) {
        return Vec::new();
    }
    let key: [u8; 9] = [98u8, 111, 117, 110, 100, 97, 114, 121, 61];
    proof {
        assert(key@ =~= boundary_key());
    }
    let i = find_from(v, key.as_slice(), 0);
    if i >= v.len() {
        return Vec::new();
    }
    proof {
        assert(occurs_at(v@, boundary_key(), i as int)) by {
            lemma_next_occurs(v@, boundary_key(), 0);
        }
    }
    let end = find_from(v, key.as_slice(), i + 9);
    slice_to_vec(v, i + 9, end)
}

proof fn lemma_next_occurs(hay: Seq<u8>, needle: Seq<u8>, from: int)
    requires
        0 <= from,
        next_occurrence(hay, needle, from) < hay.len(),
    ensures
        occurs_at(hay, needle, next_occurrence(hay, needle, from)),
    decreases hay.len() - from,
{
    if from < hay.len() && !occurs_at(hay, needle, from) {
        lemma_next_occurs(hay, needle, from + 1);
    }
}

/// `s` holds no `boundary=`.
pub open spec fn has_no_boundary_key(s: Seq<u8>) -> bool {
    forall|j: int| !occurs_at(s, boundary_key(), j)
}

/// Where `needle` occurs nowhere in `hay` from `from` up to `t`, and `t` is the end of
/// `hay` or a place where it occurs, the next occurrence from `from` is `t`.
proof fn lemma_next_occurrence_is(hay: Seq<u8>, needle: Seq<u8>, from: int, t: int)
    requires
        0 <= from <= t <= hay.len(),
        forall|j: int| from <= j < t ==> !occurs_at(hay, needle, j),
        t == hay.len() || occurs_at(hay, needle, t),
    ensures
        next_occurrence(hay, needle, from) == t,
    decreases t - from,
{
    if from < t {
        lemma_next_occurrence_is(hay, needle, from + 1, t);
    }
}

/// Only one `boundary=` occurs in text holding none, then `boundary=`, then text
/// holding none: the letter `b` that starts it occurs in it nowhere else.
proof fn lemma_key_occurs_once(p: Seq<u8>, b: Seq<u8>, j: int)
    requires
        has_no_boundary_key(p),
        has_no_boundary_key(b),
        j != p.len(),
    ensures
        !occurs_at(p + boundary_key() + b, boundary_key(), j),
{
    let key = boundary_key();
    let v = p + key + b;
    let n = p.len() as int;
    if occurs_at(v, key, j) {
        let w = v.subrange(j, j + 9);
        assert(w == key);
        if j + 9 <= n {
            assert(p.subrange(j, j + 9) =~= w);
            assert(occurs_at(p, key, j));
        } else if j >= n + 9 {
            assert(b.subrange(j - n - 9, j - n) =~= w);
            assert(occurs_at(b, key, j - n - 9));
        } else if j < n {
            assert(w[n - j] == v[n]);
            assert(v[n] == key[0]);
            assert(key[n - j] != 98u8);
        } else {
            assert(w[0] == v[j]);
            assert(v[j] == key[j - n]);
            assert(key[j - n] != 98u8);
        }
    }
}

/// The law of the multipart boundary: in a visible-ASCII `Content-Type` value made of
/// text holding no `boundary=`, then `boundary=`, then text `b` holding no `boundary=`,
/// the boundary is exactly `b`, whatever bytes it holds (`-` among them).
pub proof fn lemma_boundary_after_key(p: Seq<u8>, b: Seq<u8>)
    requires
        all_visible(p + boundary_key() + b),
        has_no_boundary_key(p),
        has_no_boundary_key(b),
    ensures
        boundary_of(p + boundary_key() + b) == b,
{
    let key = boundary_key();
    let v = p + key + b;
    let n = p.len() as int;
    assert(v.subrange(n, n + 9) =~= key);
    assert forall|j: int| 0 <= j < v.len() && j != n implies !occurs_at(v, key, j) by {
        lemma_key_occurs_once(p, b, j);
    }
    lemma_next_occurrence_is(v, key, 0, n);
    lemma_next_occurrence_is(v, key, n + 9, v.len() as int);
    assert(v.subrange(n + 9, v.len() as int) =~= b);
}

/// Whether a request with `headers` carries an urlencoded form: `Err` where it has no
/// `Content-Type`, or one of another media type.
pub fn check_form_content_type(headers: &HeaderMap) -> (r: Result<(), ExtractError>)
    ensures
        match map_get(headers@, content_type_header()) {
            None => r matches Err(ExtractError::InvalidHeaderValue),
            Some(v) => if media_type(v) == form_urlencoded_type() {
                r is Ok
            } else {
                r matches Err(ExtractError::InvalidContentType)
            },
        },
{
    let name: [u8; 12] = [99u8, 111, 110, 116, 101, 110, 116, 45, 116, 121, 112, 101];
    let form: [u8; 33] = [97u8, 112, 112, 108, 105, 99, 97, 116, 105, 111, 110, 47, 120, 45, 119, 119, 119, 45, 102,
        111, 114, 109, 45, 117, 114, 108, 101, 110, 99, 111, 100, 101, 100];
    proof {
        assert(name@ =~= content_type_header());
        assert(form@ =~= form_urlencoded_type());
    }
    match headers.get(name.as_slice()) {
        None => Err(ExtractError::InvalidHeaderValue),
        Some(v) => {
            let mt = media_type_of(v.as_slice());
            if crate::common::header::bytes_eq(mt.as_slice(), form.as_slice()) {
                Ok(())
            } else {
                Err(ExtractError::InvalidContentType)
            }
        },
    }
}

/// The multipart boundary of a request with `headers`: `Err` where it has no
/// `Content-Type`, or one of another media type than `multipart/form-data`.
pub fn multipart_boundary(headers: &HeaderMap) -> (r: Result<Vec<u8>, ExtractError>)
    ensures
        match map_get(headers@, content_type_header()) {
            None => r matches Err(ExtractError::InvalidHeaderValue),
            Some(v) => if media_type(v) == multipart_type() {
                r matches Ok(b) && b@ == boundary_of(v)
            } else {
                r matches Err(ExtractError::InvalidContentType)
            },
        },
{
    let name: [u8; 12] = [99u8, 111, 110, 116, 101, 110, 116, 45, 116, 121, 112, 101];
    let mp: [u8; 19] = [109u8, 117, 108, 116, 105, 112, 97, 114, 116, 47, 102, 111, 114, 109, 45, 100, 97, 116, 97];
    proof {
        assert(name@ =~= content_type_header());
        assert(mp@ =~= multipart_type());
    }
    match headers.get(name.as_slice()) {
        None => Err(ExtractError::InvalidHeaderValue),
        Some(v) => {
            let mt = media_type_of(v.as_slice());
            if crate::common::header::bytes_eq(mt.as_slice(), mp.as_slice()) {
                Ok(boundary_from(v.as_slice()))
            } else {
                Err(ExtractError::InvalidContentType)
            }
        },
    }
}

/// A request whose cookies, URL query and urlencoded form body are parsed when first
/// asked for, and kept.
pub struct ParsedRequest<P> {
    inner: Request<P>,
    cookie_jar: Parse<cookie::CookieJar>,
    url_params: Parse<QueryMap>,
    body_url_params: Parse<QueryMap>,
}

impl<P> ParsedRequest<P> {
    #[verifier::type_invariant]
    closed spec fn inv(self) -> bool {
        !(self.cookie_jar is Failed)
    }

    pub closed spec fn request(self) -> Request<P> {
        self.inner
    }

    pub closed spec fn jar_state(self) -> Parse<cookie::CookieJar> {
        self.cookie_jar
    }

    pub closed spec fn url_state(self) -> Parse<QueryMap> {
        self.url_params
    }

    pub closed spec fn body_state(self) -> Parse<QueryMap> {
        self.body_url_params
    }

    /// `req`, nothing parsed yet.
    pub closed spec fn fresh(req: Request<P>) -> Self {
        ParsedRequest {
            inner: req,
            cookie_jar: Parse::Unparsed,
            url_params: Parse::Unparsed,
            body_url_params: Parse::Unparsed,
        }
    }

    /// `req`, nothing parsed yet.
    pub fn new(req: Request<P>) -> (r: Self)
        ensures
            r == Self::fresh(req),
            r.request() == req,
            r.jar_state() is Unparsed,
            r.url_state() is Unparsed,
            r.body_state() is Unparsed,
    {
        ParsedRequest {
            inner: req,
            cookie_jar: Parse::Unparsed,
            url_params: Parse::Unparsed,
            body_url_params: Parse::Unparsed,
        }
    }

    /// The query of the request target, parsed once: an error where the target has no
    /// query (`MissingURL`, after which parsing counts as failed) or the query does not
    /// decode. Asking again after a failure is not allowed.
    pub fn parse_url_params(&mut self) -> (r: Result<&QueryMap, HttpError>)
        requires
            !(old(self).url_state() is Failed),
        ensures
            final(self).request() == old(self).request(),
            final(self).jar_state() == old(self).jar_state(),
            final(self).body_state() == old(self).body_state(),
            match old(self).url_state() {
                Parse::Parsed(m) => r matches Ok(q) && *q == m && final(self).url_state() == old(self).url_state(),
                _ => match query_of(old(self).request().head.uri@) {
                    None => r matches Err(HttpError::CookieError(ExtractError::MissingURL))
                        && final(self).url_state() is Failed,
                    Some(q) => match form_map(q) {
                        None => r matches Err(HttpError::SerDeError(_)) && final(self).url_state() is Failed,
                        Some(m) => r matches Ok(qm) && qm@ == m && final(self).url_state() == Parse::Parsed(*qm),
                    },
                },
            },
    {
        proof {
            use_type_invariant(&*self);
        }
        if self.url_params.is_unparsed() {
            let query = match parse_uri(self.inner.head.uri.as_slice()) {
                Ok(parts) => parts.query,
                Err(_) => None,
            };
            match query {
                Some(q) => match QueryMap::decode(q.as_slice()) {
                    Ok(m) => {
                        self.url_params = Parse::Parsed(m);
                    },
                    Err(e) => {
                        self.url_params = Parse::Failed;
                        return Err(HttpError::SerDeError(e));
                    },
                },
                None => {
                    self.url_params = Parse::Failed;
                    return Err(HttpError::CookieError(ExtractError::MissingURL));
                },
            }
        }
        match &self.url_params {
            Parse::Parsed(m) => Ok(m),
            _ => vstd::pervasive::unreached(),
        }
    }

    /// The state of the query parameters: parsed (with them), failed, or not yet parsed.
    pub fn get_url_params(&self) -> (r: &Parse<QueryMap>)
        ensures
            *r == self.url_state(),
    {
        &self.url_params
    }

    /// The value of the query parameter `name`, where the query parses.
    pub fn get_url_param(&mut self, name: &str) -> (r: Option<&String>)
        requires
            !(old(self).url_state() is Failed),
        ensures
            final(self).request() == old(self).request(),
            final(self).jar_state() == old(self).jar_state(),
            final(self).body_state() == old(self).body_state(),
            match url_parse_map(old(self).url_state(), old(self).request().head.uri@) {
                None => r is None && final(self).url_state() is Failed,
                Some(m) => final(self).url_state() matches Parse::Parsed(qm) && qm@ == m && match r {
                    Some(v) => m.contains_key(name@) && m[name@] == v@,
                    None => !m.contains_key(name@),
                },
            },
    {
        match self.parse_url_params() {
            Ok(m) => m.get(name),
            Err(_) => None,
        }
    }

    /// The cookies of the `Cookie` header, parsed once (an empty jar where there is
    /// none): an error, and nothing kept, where the header is not visible ASCII or a
    /// cookie in it does not parse.
    pub fn parse_cookies_params(&mut self) -> (r: Result<&cookie::CookieJar, HttpError>)
        ensures
            final(self).request() == old(self).request(),
            r is Ok <==> jar_parse_ok(old(self).jar_state(), old(self).request().head.headers@, cookie_header()),
            jar_parse_leaves(old(self).jar_state(), old(self).request().head.headers@, cookie_header(), final(self).jar_state()),
            r matches Ok(k) ==> final(self).jar_state() == Parse::Parsed(*k),
            final(self).url_state() == old(self).url_state(),
            final(self).body_state() == old(self).body_state(),
            match old(self).jar_state() {
                Parse::Parsed(j) => r matches Ok(k) && *k == j && final(self).jar_state() == old(self).jar_state(),
                _ => match map_get(old(self).request().head.headers@, cookie_header()) {
                    None => r matches Ok(k) && final(self).jar_state() == Parse::Parsed(*k) && jar_values(*k)
                        == crate::common::cookies::no_cookies() && jar_texts(*k) == crate::common::cookies::no_cookies(),
                    Some(v) => if !all_visible(v) {
                        r matches Err(HttpError::CookieError(ExtractError::InvalidHeaderValue))
                            && final(self).jar_state() == old(self).jar_state()
                    } else {
                        match cookie_pairs(v) {
                            None => r matches Err(HttpError::CookieError(ExtractError::CookieParseError(_)))
                                && final(self).jar_state() == old(self).jar_state(),
                            Some(ps) => r matches Ok(k) && final(self).jar_state() == Parse::Parsed(*k) && jar_values(*k)
                                == original_values(ps) && jar_texts(*k) == original_texts(ps) && jar_changed(*k)
                                == crate::common::cookies::no_names(),
                        }
                    },
                },
            },
    {
        proof {
            use_type_invariant(&*self);
        }
        if self.cookie_jar.is_unparsed() {
            let name: [u8; 6] = [99u8, 111, 111, 107, 105, 101];
            proof {
                assert(name@ =~= cookie_header());
            }
            match read_jar(&self.inner.head.headers, name.as_slice()) {
                Ok(jar) => {
                    self.cookie_jar = Parse::Parsed(jar);
                },
                Err(CookieReadError::InvalidHeaderValue) => {
                    return Err(HttpError::CookieError(ExtractError::InvalidHeaderValue));
                },
                Err(CookieReadError::Parse(e)) => {
                    return Err(HttpError::CookieError(ExtractError::CookieParseError(e)));
                },
            }
        }
        match &self.cookie_jar {
            Parse::Parsed(j) => Ok(j),
            _ => vstd::pervasive::unreached(),
        }
    }

    /// Sets the cookie `name=value` (after parsing the cookies, where they were not).
    pub fn set_cookie_param(&mut self, name: &str, value: &str) -> (r: Result<(), HttpError>)
        ensures
            final(self).request() == old(self).request(),
            r is Ok <==> jar_parse_ok(old(self).jar_state(), old(self).request().head.headers@, cookie_header()),
            r is Ok ==> (final(self).jar_state() matches Parse::Parsed(j) && jar_values(j) == jar_parse_values(
                old(self).jar_state(),
                old(self).request().head.headers@,
                cookie_header(),
            ).insert(name@, value@) && jar_texts(j) == jar_parse_texts(
                old(self).jar_state(),
                old(self).request().head.headers@,
                cookie_header(),
            ).insert(name@, cookie_text(name@, value@))),
            r is Err ==> final(self).jar_state() == old(self).jar_state(),
    {
        proof {
            use_type_invariant(&*self);
        }
        if self.cookie_jar.is_unparsed() {
            match self.parse_cookies_params() {
                Ok(_) => {},
                Err(e) => return Err(e),
            }
        }
        let mut state: Parse<cookie::CookieJar> = Parse::Unparsed;
        std::mem::swap(&mut state, &mut self.cookie_jar);
        match state {
            Parse::Parsed(mut jar) => {
                jar_add(&mut jar, name, value);
                self.cookie_jar = Parse::Parsed(jar);
                Ok(())
            },
            _ => vstd::pervasive::unreached(),
        }
    }

    /// The cookie `name`, where the cookies parse; a copy of it.
    pub fn get_cookie_param(&mut self, name: &str) -> (r: Option<FoundCookie>)
        ensures
            final(self).request() == old(self).request(),
            jar_parse_leaves(old(self).jar_state(), old(self).request().head.headers@, cookie_header(), final(self).jar_state()),
            ({
                let ok = jar_parse_ok(old(self).jar_state(), old(self).request().head.headers@, cookie_header());
                let values = jar_parse_values(old(self).jar_state(), old(self).request().head.headers@, cookie_header());
                match r {
                    Some(c) => ok && values.contains_key(name@) && c@ == (name@, values[name@]),
                    None => !(ok && values.contains_key(name@)),
                }
            }),
    {
        match self.parse_cookies_params() {
            Ok(jar) => FoundCookie::find(jar, name),
            Err(_) => None,
        }
    }

    /// The value of the cookie `name`, where the cookies parse.
    pub fn get_cookie_value(&mut self, name: &str) -> (r: Option<String>)
        ensures
            final(self).request() == old(self).request(),
            jar_parse_leaves(old(self).jar_state(), old(self).request().head.headers@, cookie_header(), final(self).jar_state()),
            match r {
                Some(v) => jar_parse_ok(old(self).jar_state(), old(self).request().head.headers@, cookie_header()) && jar_parse_values(
                    old(self).jar_state(),
                    old(self).request().head.headers@,
                    cookie_header(),
                ).contains_key(name@) && jar_parse_values(old(self).jar_state(), old(self).request().head.headers@, cookie_header())[name@] == v@,
                None => !(jar_parse_ok(old(self).jar_state(), old(self).request().head.headers@, cookie_header()) && jar_parse_values(
                    old(self).jar_state(),
                    old(self).request().head.headers@,
                    cookie_header(),
                ).contains_key(name@)),
            },
    {
        match self.parse_cookies_params() {
            Ok(jar) => match jar_get(jar, name) {
                Some((_, _, v)) => Some(v),
                None => None,
            },
            Err(_) => None,
        }
    }

    /// Where the cookies were parsed, writes them into the `Cookie` header (in place of
    /// what it held), encoded and joined by `; `.
    fn serialize_cookies_into_header(&mut self)
        ensures
            final(self).jar_state() == old(self).jar_state(),
            final(self).url_state() == old(self).url_state(),
            final(self).body_state() == old(self).body_state(),
            final(self).request().head.method == old(self).request().head.method,
            final(self).request().head.uri == old(self).request().head.uri,
            final(self).request().head.version == old(self).request().head.version,
            final(self).request().body == old(self).request().body,
            match old(self).jar_state() {
                Parse::Parsed(j) => exists|texts: Seq<Seq<char>>|
                    lists_each_once(texts, jar_texts(j)) && final(self).request().head.headers@ == #[trigger] map_insert(
                        old(self).request().head.headers@,
                        cookie_header(),
                        joined_texts(texts),
                    ),
                _ => final(self).request() == old(self).request(),
            },
    {
        match &self.cookie_jar {
            Parse::Parsed(jar) => {
                let name: [u8; 6] = [99u8, 111, 111, 107, 105, 101];
                proof {
                    assert(name@ =~= cookie_header());
                }
                let mut headers = HeaderMap::new();
                std::mem::swap(&mut headers, &mut self.inner.head.headers);
                write_jar(jar, &mut headers, name.as_slice());
                self.inner.head.headers = headers;
            },
            _ => {},
        }
    }

    /// The request, its cookies written back into its `Cookie` header where they were
    /// parsed.
    pub fn into_http_request(self) -> (r: Request<P>)
        ensures
            r.head.method == self.request().head.method,
            r.head.uri == self.request().head.uri,
            r.head.version == self.request().head.version,
            r.body == self.request().body,
            match self.jar_state() {
                Parse::Parsed(j) => exists|texts: Seq<Seq<char>>|
                    lists_each_once(texts, jar_texts(j)) && r.head.headers@ == #[trigger] map_insert(
                        self.request().head.headers@,
                        cookie_header(),
                        joined_texts(texts),
                    ),
                _ => r == self.request(),
            },
    {
        let mut me = self;
        me.serialize_cookies_into_header();
        me.inner
    }

    /// The request, its cookies written back as `into_http_request` does.
    pub fn inner_ref(&mut self) -> (r: &Request<P>)
        ensures
            *r == final(self).request(),
            final(self).jar_state() == old(self).jar_state(),
            final(self).url_state() == old(self).url_state(),
            final(self).body_state() == old(self).body_state(),
    {
        self.serialize_cookies_into_header();
        &self.inner
    }

    /// Whether reading the body as an urlencoded form is to start: not where the form was
    /// read already (it is then what was kept); an error where the request does not carry
    /// such a form.
    pub fn begin_body_url_encoded_params(&self) -> (r: Result<bool, HttpError>)
        ensures
            self.body_state() is Parsed ==> r == Ok::<bool, HttpError>(false),
            !(self.body_state() is Parsed) ==> match map_get(self.request().head.headers@, content_type_header()) {
                None => r matches Err(HttpError::CookieError(ExtractError::InvalidHeaderValue)),
                Some(v) => if media_type(v) == form_urlencoded_type() {
                    r == Ok::<bool, HttpError>(true)
                } else {
                    r matches Err(HttpError::CookieError(ExtractError::InvalidContentType))
                },
            },
    {
        if self.body_url_params.is_parsed() {
            return Ok(false);
        }
        match check_form_content_type(&self.inner.head.headers) {
            Ok(()) => Ok(true),
            Err(e) => Err(HttpError::CookieError(e)),
        }
    }

    /// The form body, read in full as `data`, decoded and kept.
    pub fn finish_body_url_encoded_params(&mut self, data: &[u8]) -> (r: Result<&QueryMap, HttpError>)
        ensures
            final(self).request() == old(self).request(),
            final(self).url_state() == old(self).url_state(),
            final(self).jar_state() == old(self).jar_state(),
            match form_map(data@) {
                None => r matches Err(HttpError::SerDeError(_)) && final(self).body_state() == old(self).body_state(),
                Some(m) => r matches Ok(q) && q@ == m && final(self).body_state() == Parse::Parsed(*q),
            },
    {
        proof {
            use_type_invariant(&*self);
        }
        match QueryMap::decode(data) {
            Ok(m) => {
                self.body_url_params = Parse::Parsed(m);
                match &self.body_url_params {
                    Parse::Parsed(m) => Ok(m),
                    _ => vstd::pervasive::unreached(),
                }
            },
            Err(e) => Err(HttpError::SerDeError(e)),
        }
    }

    /// The form kept from the body, once it was read.
    pub fn body_url_params(&self) -> (r: Option<&QueryMap>)
        ensures
            match r {
                Some(m) => self.body_state() == Parse::Parsed(*m),
                None => !(self.body_state() is Parsed),
            },
    {
        match &self.body_url_params {
            Parse::Parsed(m) => Some(m),
            _ => None,
        }
    }

    /// Puts `body` in place of the request's body, and gives back the one it had.
    pub fn replace_body(&mut self, body: P) -> (r: P)
        ensures
            r == old(self).request().body,
            final(self).request().head == old(self).request().head,
            final(self).request().body == body,
            final(self).url_state() == old(self).url_state(),
            final(self).jar_state() == old(self).jar_state(),
            final(self).body_state() == old(self).body_state(),
    {
        proof {
            use_type_invariant(&*self);
        }
        let mut b = body;
        std::mem::swap(&mut b, &mut self.inner.body);
        b
    }

    /// The value of the form field `name`, once the form was read.
    pub fn get_body_url_param(&self, name: &str) -> (r: Option<String>)
        ensures
            match self.body_state() {
                Parse::Parsed(m) => match r {
                    Some(v) => m@.contains_key(name@) && m@[name@] == v@,
                    None => !m@.contains_key(name@),
                },
                _ => r is None,
            },
    {
        match &self.body_url_params {
            Parse::Parsed(m) => match m.get(name) {
                Some(v) => Some(v.clone()),
                None => None,
            },
            _ => None,
        }
    }

    /// The request's head, for reading.
    pub fn head(&self) -> (r: &RequestHead)
        ensures
            *r == self.request().head,
    {
        &self.inner.head
    }

    /// The request, taken apart: its head and its body (`Parse` states dropped).
    pub fn into_request(self) -> (r: Request<P>)
        ensures
            r == self.request(),
    {
        self.inner
    }
}

impl<P> From<Request<P>> for ParsedRequest<P> {
    /// `value`, nothing parsed yet.
    fn from(value: Request<P>) -> (r: Self)
        ensures
            r.request() == value,
            r.jar_state() is Unparsed,
            r.url_state() is Unparsed,
            r.body_state() is Unparsed,
    {
        ParsedRequest::new(value)
    }
}

impl<P> FromSpecImpl<Request<P>> for ParsedRequest<P> {
    open spec fn obeys_from_spec() -> bool {
        true
    }

    open spec fn from_spec(v: Request<P>) -> Self {
        ParsedRequest::fresh(v)
    }
}

impl<P> IntoParts for ParsedRequest<P> {
    type Parts = RequestHead;
    type Body = P;

    /// The head (its cookies written back) and the body.
    fn into_parts(self) -> (r: (RequestHead, P))
        ensures
            r.0.method == self.request().head.method,
            r.0.uri == self.request().head.uri,
            r.0.version == self.request().head.version,
            r.1 == self.request().body,
            match self.jar_state() {
                Parse::Parsed(j) => exists|texts: Seq<Seq<char>>|
                    lists_each_once(texts, jar_texts(j)) && r.0.headers@ == #[trigger] map_insert(
                        self.request().head.headers@,
                        cookie_header(),
                        joined_texts(texts),
                    ),
                _ => r.0 == self.request().head,
            },
    {
        let req = self.into_http_request();
        (req.head, req.body)
    }
}

} // verus!
