//! Cookies of a message, kept in a `cookie::CookieJar`.
use vstd::prelude::*;

use crate::common::header::{map_get, map_insert, EntryView, HeaderMap};
use crate::common::query::pairs_view;
use crate::h1::codec::decoder::is_visible_ascii;

verus! {

#[verifier::external_type_specification]
#[verifier::external_body]
pub struct ExCookieJar(cookie::CookieJar);

/// The value of each cookie `CookieJar::get` finds in `jar`, by name.
pub uninterp spec fn jar_values(jar: cookie::CookieJar) -> Map<Seq<char>, Seq<char>>;

/// The encoded form (`Cookie::encoded`) of each cookie `CookieJar::get` finds in `jar`,
/// by name.
pub uninterp spec fn jar_texts(jar: cookie::CookieJar) -> Map<Seq<char>, Seq<char>>;

/// The names the jar's own changes (`CookieJar::add`, `remove`) hold an entry for.
pub uninterp spec fn jar_changed(jar: cookie::CookieJar) -> Set<Seq<char>>;

/// `Cookie::new(name, value).encoded().to_string()`.
pub uninterp spec fn cookie_text(name: Seq<char>, value: Seq<char>) -> Seq<char>;

/// The name and value of each cookie `Cookie::split_parse` finds in `header` (read as
/// text); `None` where one of them does not parse.
pub uninterp spec fn cookie_pairs(header: Seq<u8>) -> Option<Seq<(Seq<char>, Seq<char>)>>;

/// Whether parsing the cookies of the header `name` of `headers`, from the state
/// `state`, succeeds: a parsed state stays; else there is no such header, or it is
/// visible ASCII and each cookie in it parses.
pub open spec fn jar_parse_ok(state: crate::common::Parse<cookie::CookieJar>, headers: Seq<EntryView>, name: Seq<u8>) -> bool {
    match state {
        crate::common::Parse::Parsed(_) => true,
        _ => match map_get(headers, name) {
            None => true,
            Some(v) => all_visible(v) && cookie_pairs(v) is Some,
        },
    }
}

/// The cookie values found by name once parsing from `state` succeeded.
pub open spec fn jar_parse_values(
    state: crate::common::Parse<cookie::CookieJar>,
    headers: Seq<EntryView>,
    name: Seq<u8>,
) -> Map<Seq<char>, Seq<char>> {
    match state {
        crate::common::Parse::Parsed(j) => jar_values(j),
        _ => match map_get(headers, name) {
            None => no_cookies(),
            Some(v) => match cookie_pairs(v) {
                Some(ps) => original_values(ps),
                None => no_cookies(),
            },
        },
    }
}

/// The encoded cookies by name once parsing from `state` succeeded.
pub open spec fn jar_parse_texts(
    state: crate::common::Parse<cookie::CookieJar>,
    headers: Seq<EntryView>,
    name: Seq<u8>,
) -> Map<Seq<char>, Seq<char>> {
    match state {
        crate::common::Parse::Parsed(j) => jar_texts(j),
        _ => match map_get(headers, name) {
            None => no_cookies(),
            Some(v) => match cookie_pairs(v) {
                Some(ps) => original_texts(ps),
                None => no_cookies(),
            },
        },
    }
}

/// Whether `after` is the cookie state that parsing from `state` leaves: the parsed jar
/// where parsing succeeds, `state` itself where it fails.
pub open spec fn jar_parse_leaves(
    state: crate::common::Parse<cookie::CookieJar>,
    headers: Seq<EntryView>,
    name: Seq<u8>,
    after: crate::common::Parse<cookie::CookieJar>,
) -> bool {
    if jar_parse_ok(state, headers, name) {
        after matches crate::common::Parse::Parsed(k) && jar_values(k) == jar_parse_values(state, headers, name)
            && jar_texts(k) == jar_parse_texts(state, headers, name)
    } else {
        after == state
    }
}

/// No cookie.
pub open spec fn no_cookies() -> Map<Seq<char>, Seq<char>> {
    Map::empty()
}

/// No name.
pub open spec fn no_names() -> Set<Seq<char>> {
    Set::empty()
}

/// `CookieJar::new`: an empty jar.
#[verifier::external_body]
fn jar_new() -> (r: cookie::CookieJar)
    ensures
        jar_values(r) == no_cookies(),
        jar_texts(r) == no_cookies(),
        jar_changed(r) == no_names(),
{
    cookie::CookieJar::new()
}

/// `CookieJar::add_original` of the cookie `name=value`: it is found by name unless the
/// jar's own changes hold that name.
#[verifier::external_body]
pub(crate) fn jar_add_original(jar: &mut cookie::CookieJar, name: &str, value: &str)
    ensures
        jar_changed(*final(jar)) == jar_changed(*old(jar)),
        jar_changed(*old(jar)).contains(name@) ==> jar_values(*final(jar)) == jar_values(*old(jar))
            && jar_texts(*final(jar)) == jar_texts(*old(jar)),
        !jar_changed(*old(jar)).contains(name@) ==> jar_values(*final(jar)) == jar_values(*old(jar)).insert(name@, value@)
            && jar_texts(*final(jar)) == jar_texts(*old(jar)).insert(name@, cookie_text(name@, value@)),
{
    jar.add_original(cookie::Cookie::new(name.to_string(), value.to_string()))
}

/// `CookieJar::add` of the cookie `name=value`: it is what is found by that name.
#[verifier::external_body]
pub(crate) fn jar_add(jar: &mut cookie::CookieJar, name: &str, value: &str)
    ensures
        jar_changed(*final(jar)) == jar_changed(*old(jar)).insert(name@),
        jar_values(*final(jar)) == jar_values(*old(jar)).insert(name@, value@),
        jar_texts(*final(jar)) == jar_texts(*old(jar)).insert(name@, cookie_text(name@, value@)),
{
    jar.add(cookie::Cookie::new(name.to_string(), value.to_string()))
}

#[verifier::external_type_specification]
#[verifier::external_body]
pub struct ExCookie<'c>(cookie::Cookie<'c>);

/// `CookieJar::get(name)`: a copy of the cookie the jar finds by that name, with its
/// name (the one looked up: the jar finds cookies by name) and its value.
#[verifier::external_body]
pub(crate) fn jar_get(jar: &cookie::CookieJar, name: &str) -> (r: Option<(cookie::Cookie<'static>, String, String)>)
    ensures
        match r {
            Some(c) => jar_values(*jar).contains_key(name@) && c.1@ == name@ && jar_values(*jar)[name@] == c.2@,
            None => !jar_values(*jar).contains_key(name@),
        },
{
    jar.get(name).map(|c| (c.clone(), c.name().to_string(), c.value().to_string()))
}

/// A cookie found in a jar by name: a copy of the `cookie::Cookie`, with its name and
/// value as text.
pub struct FoundCookie {
    cookie: cookie::Cookie<'static>,
    name: String,
    value: String,
}

impl View for FoundCookie {
    type V = (Seq<char>, Seq<char>);

    /// Its name and its value.
    closed spec fn view(&self) -> (Seq<char>, Seq<char>) {
        (self.name@, self.value@)
    }
}

impl FoundCookie {
    /// The cookie `name` of `jar`, if the jar finds one.
    pub(crate) fn find(jar: &cookie::CookieJar, name: &str) -> (r: Option<FoundCookie>)
        ensures
            match r {
                Some(c) => jar_values(*jar).contains_key(name@) && c@ == (name@, jar_values(*jar)[name@]),
                None => !jar_values(*jar).contains_key(name@),
            },
    {
        match jar_get(jar, name) {
            Some((cookie, n, value)) => Some(FoundCookie { cookie, name: n, value }),
            None => None,
        }
    }

    /// Its name.
    pub fn name(&self) -> (r: &str)
        ensures
            r@ == self@.0,
    {
        self.name.as_str()
    }

    /// Its value.
    pub fn value(&self) -> (r: &str)
        ensures
            r@ == self@.1,
    {
        self.value.as_str()
    }

    /// The `cookie::Cookie` itself, with its other attributes.
    pub fn cookie(&self) -> &cookie::Cookie<'static> {
        &self.cookie
    }

    /// The `cookie::Cookie` itself.
    pub fn into_cookie(self) -> cookie::Cookie<'static> {
        self.cookie
    }
}

/// Whether `texts` lists the texts of `m`, one per name (in some order).
pub open spec fn lists_each_once(texts: Seq<Seq<char>>, m: Map<Seq<char>, Seq<char>>) -> bool {
    exists|names: Seq<Seq<char>>|
        {
            &&& names.len() == texts.len()
            &&& names.no_duplicates()
            &&& names.to_set() == m.dom()
            &&& forall|i: int| 0 <= i < names.len() ==> #[trigger] texts[i] == m[names[i]]
        }
}

/// `CookieJar::iter`, each cookie `encoded` as text: each cookie the jar finds, once, in
/// an order that is not stated (it rests on a hash set).
#[verifier::external_body]
fn jar_encoded(jar: &cookie::CookieJar) -> (r: Vec<String>)
    ensures
        lists_each_once(r@.map_values(|s: String| s@), jar_texts(*jar)),
{
    jar.iter().map(|c| c.encoded().to_string()).collect()
}

/// `Cookie::split_parse` of the header `header` (read as text), each cookie by its name
/// and value; an error where one does not parse.
#[verifier::external_body]
fn split_cookies(header: &[u8]) -> (r: Result<Vec<(String, String)>, cookie::ParseError>)
    ensures
        match r {
            Ok(v) => cookie_pairs(header@) == Some(pairs_view(v@)),
            Err(_) => cookie_pairs(header@) is None,
        },
{
    cookie::Cookie::split_parse(String::from_utf8_lossy(header).into_owned()).map(
        |c| c.map(|c| (c.name().to_string(), c.value().to_string())),
    ).collect()
}

/// The jar of cookies read from a header: each added as an original cookie in turn.
pub open spec fn original_values(pairs: Seq<(Seq<char>, Seq<char>)>) -> Map<Seq<char>, Seq<char>>
    decreases pairs.len(),
{
    if pairs.len() == 0 {
        Map::empty()
    } else {
        original_values(pairs.drop_last()).insert(pairs.last().0, pairs.last().1)
    }
}

pub open spec fn original_texts(pairs: Seq<(Seq<char>, Seq<char>)>) -> Map<Seq<char>, Seq<char>>
    decreases pairs.len(),
{
    if pairs.len() == 0 {
        Map::empty()
    } else {
        original_texts(pairs.drop_last()).insert(pairs.last().0, cookie_text(pairs.last().0, pairs.last().1))
    }
}

/// Why cookies could not be read from a message.
pub enum CookieReadError {
    /// The header is not visible ASCII.
    InvalidHeaderValue,
    /// A cookie in it does not parse.
    Parse(cookie::ParseError),
}

/// Whether every byte is visible ASCII or a tab (what `HeaderValue::to_str` accepts).
pub open spec fn all_visible(v: Seq<u8>) -> bool {
    forall|i: int| 0 <= i < v.len() ==> is_visible_ascii(#[trigger] v[i])
}

pub fn check_visible_ascii(v: &[u8]) -> (r: bool)
    ensures
        r == all_visible(v@),
{
    let mut i: usize = 0;
    while i < v.len()
        invariant
            i <= v.len(),
            forall|j: int| 0 <= j < i ==> is_visible_ascii(#[trigger] v@[j]),
        decreases v.len() - i,
    {
        let b = v[i];
        if !((b >= 32 && b < 127) || b == 9) {
            return false;
        }
        i += 1;
    }
    true
}

/// The jar read from the header `name` of `headers`: empty where there is none; the
/// header's cookies where it is visible ASCII and each of them parses.
pub fn read_jar(headers: &HeaderMap, name: &[u8]) -> (r: Result<cookie::CookieJar, CookieReadError>)
    ensures
        match map_get(headers@, name@) {
            None => r matches Ok(j) && jar_values(j) == no_cookies() && jar_texts(j) == no_cookies()
                && jar_changed(j) == no_names(),
            Some(v) => if !all_visible(v) {
                r matches Err(CookieReadError::InvalidHeaderValue)
            } else {
                match cookie_pairs(v) {
                    None => r matches Err(CookieReadError::Parse(_)),
                    Some(ps) => r matches Ok(j) && jar_values(j) == original_values(ps) && jar_texts(j)
                        == original_texts(ps) && jar_changed(j) == no_names(),
                }
            },
        },
{
    let mut jar = jar_new();
    let v = match headers.get(name) {
        Some(v) => v,
        None => return Ok(jar),
    };
    if !check_visible_ascii(v.as_slice()) {
        return Err(CookieReadError::InvalidHeaderValue);
    }
    let pairs = match split_cookies(v.as_slice()) {
        Ok(p) => p,
        Err(e) => return Err(CookieReadError::Parse(e)),
    };
    let ghost ps = pairs_view(pairs@);
    let mut i: usize = 0;
    while i < pairs.len()
        invariant
            i <= pairs@.len(),
            ps == pairs_view(pairs@),
            jar_values(jar) == original_values(ps.take(i as int)),
            jar_texts(jar) == original_texts(ps.take(i as int)),
            jar_changed(jar) == no_names(),
        decreases pairs@.len() - i,
    {
        proof {
            assert(ps.take(i + 1).drop_last() =~= ps.take(i as int));
            assert(ps.take(i + 1).last() == (pairs@[i as int].0@, pairs@[i as int].1@));
        }
        jar_add_original(&mut jar, pairs[i].0.as_str(), pairs[i].1.as_str());
        i += 1;
    }
    proof {
        assert(ps.take(i as int) =~= ps);
    }
    Ok(jar)
}

/// Texts joined by `; `, as bytes.
pub open spec fn joined_texts(ts: Seq<Seq<char>>) -> Seq<u8>
    decreases ts.len(),
{
    if ts.len() == 0 {
        Seq::empty()
    } else if ts.len() == 1 {
        vstd::utf8::encode_utf8(ts[0])
    } else {
        joined_texts(ts.drop_last()) + seq![59u8, 32u8] + vstd::utf8::encode_utf8(ts.last())
    }
}

/// The jar's cookies written into the header `name` of `headers` (in place of what it
/// held): their encoded texts joined by `; `, in the order the jar lists them.
pub fn write_jar(jar: &cookie::CookieJar, headers: &mut HeaderMap, name: &[u8])
    ensures
        exists|texts: Seq<Seq<char>>|
            lists_each_once(texts, jar_texts(*jar)) && final(headers)@ == #[trigger] map_insert(
                old(headers)@,
                name@,
                joined_texts(texts),
            ),
{
    let texts = jar_encoded(jar);
    let ghost tv = texts@.map_values(|s: String| s@);
    let mut value: Vec<u8> = Vec::new();
    let mut i: usize = 0;
    while i < texts.len()
        invariant
            i <= texts@.len(),
            tv == texts@.map_values(|s: String| s@),
            value@ == joined_texts(tv.take(i as int)),
        decreases texts@.len() - i,
    {
        let ghost before = value@;
        if i > 0 {
            value.push(59u8);
            value.push(32u8);
        }
        let bytes = texts[i].as_str().as_bytes();
        let mut j: usize = 0;
        let ghost mid = value@;
        while j < bytes.len()
            invariant
                j <= bytes@.len(),
                value@ == mid + bytes@.take(j as int),
            decreases bytes@.len() - j,
        {
            value.push(bytes[j]);
            j += 1;
            proof {
                assert(value@ =~= mid + bytes@.take(j as int));
            }
        }
        proof {
            assert(bytes@.take(j as int) =~= bytes@);
            assert(tv.take(i + 1).drop_last() =~= tv.take(i as int));
            assert(tv.take(i + 1).last() == texts@[i as int]@);
            if i == 0 {
                assert(tv.take(1).len() == 1);
                assert(value@ =~= vstd::utf8::encode_utf8(tv.take(1)[0]));
            } else {
                assert(value@ =~= joined_texts(tv.take(i as int)) + seq![59u8, 32u8] + vstd::utf8::encode_utf8(
                    tv.take(i + 1).last(),
                ));
            }
        }
        i += 1;
    }
    proof {
        assert(tv.take(i as int) =~= tv);
    }
    headers.insert(crate::common::header::copy_bytes(name), value);
}


/// A cookie set is read back: where a jar's cookies are those of an earlier jar with
/// `name` set to `value` (as `set_cookie_param` leaves them), the jar finds `value`
/// under `name` (as `get_cookie_value` reads it), and every other cookie as it was.
pub proof fn lemma_cookie_set_then_get(
    before: cookie::CookieJar,
    after: cookie::CookieJar,
    name: Seq<char>,
    value: Seq<char>,
    other: Seq<char>,
)
    requires
        jar_values(after) == jar_values(before).insert(name, value),
        other != name,
    ensures
        jar_values(after).contains_key(name),
        jar_values(after)[name] == value,
        jar_values(after).contains_key(other) == jar_values(before).contains_key(other),
        jar_values(before).contains_key(other) ==> jar_values(after)[other] == jar_values(before)[other],
{
}

} // verus!
