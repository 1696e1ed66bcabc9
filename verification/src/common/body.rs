//! Bodies: how a body says it will be delivered, and the content codings a body can be
//! written in or read from.
use vstd::prelude::*;
use vstd::string::StrSliceExecFns;

verus! {

/// How a body will be delivered: not at all, in one piece, or as a stream of pieces.
#[derive(Debug, Clone, Copy, PartialEq, Eq, Structural)]
pub enum StreamHint {
    /// No body at all.
    Empty,
    Fixed,
    Stream,
}

/// A content coding.
#[derive(Debug, Clone, Copy, PartialEq, Eq, Structural)]
pub enum Encoding {
    Gzip,
    Brotli,
    Deflate,
    Identity,
}

/// Whether `c` has the Unicode `White_Space` property (what `char::is_whitespace`
/// and `str::trim` go by).
pub open spec fn is_white_space(c: char) -> bool {
    let u = c as u32;
    (0x9 <= u && u <= 0xd) || u == 0x20 || u == 0x85 || u == 0xa0 || u == 0x1680 || (0x2000 <= u
        && u <= 0x200a) || u == 0x2028 || u == 0x2029 || u == 0x202f || u == 0x205f || u == 0x3000
}

/// The number of white space characters at the front of `s`.
pub open spec fn leading_space(s: Seq<char>) -> nat
    decreases s.len(),
{
    if s.len() > 0 && is_white_space(s[0]) {
        1 + leading_space(s.drop_first())
    } else {
        0
    }
}

/// The number of white space characters at the back of `s`.
pub open spec fn trailing_space(s: Seq<char>) -> nat
    decreases s.len(),
{
    if s.len() > 0 && is_white_space(s.last()) {
        1 + trailing_space(s.drop_last())
    } else {
        0
    }
}

/// `s` without white space at either end (`str::trim`).
pub open spec fn trim(s: Seq<char>) -> Seq<char> {
    let a = leading_space(s);
    if a == s.len() {
        Seq::empty()
    } else {
        s.subrange(a as int, s.len() - trailing_space(s))
    }
}

/// The position of the first comma in `s`; its length where there is none.
pub open spec fn comma_index(s: Seq<char>) -> nat
    decreases s.len(),
{
    if s.len() == 0 {
        0
    } else if s[0] == ',' {
        0
    } else {
        1 + comma_index(s.drop_first())
    }
}

/// The supported coding a token names exactly: `gzip`, `br` or `deflate`.
pub open spec fn supported_coding(t: Seq<char>) -> Option<Encoding> {
    if t == seq!['g', 'z', 'i', 'p'] {
        Some(Encoding::Gzip)
    } else if t == seq!['b', 'r'] {
        Some(Encoding::Brotli)
    } else if t == seq!['d', 'e', 'f', 'l', 'a', 't', 'e'] {
        Some(Encoding::Deflate)
    } else {
        None
    }
}

/// The first comma-separated item of `s` that, trimmed, names a supported coding.
pub open spec fn first_supported(s: Seq<char>) -> Option<Encoding>
    decreases s.len(),
{
    let i = comma_index(s);
    match supported_coding(trim(s.take(i as int))) {
        Some(e) => Some(e),
        None => if i < s.len() {
            first_supported(s.skip((i + 1) as int))
        } else {
            None
        },
    }
}

/// The coding chosen for an `Accept-Encoding` value: the first item it lists that is
/// supported, else identity.
pub open spec fn selected_encoding(accept: Seq<char>) -> Encoding {
    match first_supported(accept) {
        Some(e) => e,
        None => Encoding::Identity,
    }
}

/// The coding a `Content-Encoding` value names exactly; identity for any other.
pub open spec fn content_encoding_of(encoding: Seq<char>) -> Encoding {
    match supported_coding(encoding) {
        Some(e) => e,
        None => Encoding::Identity,
    }
}

fn is_white_space_char(c: char) -> (r: bool)
    ensures
        r == is_white_space(c),
{
    let u = c as u32;
    (0x9 <= u && u <= 0xd) || u == 0x20 || u == 0x85 || u == 0xa0 || u == 0x1680 || (0x2000 <= u && u
        <= 0x200a) || u == 0x2028 || u == 0x2029 || u == 0x202f || u == 0x205f || u == 0x3000
}

proof fn lemma_leading_space_bound(s: Seq<char>)
    ensures
        leading_space(s) <= s.len(),
        forall|j: int| 0 <= j < leading_space(s) ==> is_white_space(#[trigger] s[j]),
        leading_space(s) < s.len() ==> !is_white_space(s[leading_space(s) as int]),
    decreases s.len(),
{
    if s.len() > 0 && is_white_space(s[0]) {
        lemma_leading_space_bound(s.drop_first());
        assert forall|j: int| 0 <= j < leading_space(s) implies is_white_space(#[trigger] s[j]) by {
            if j > 0 {
                assert(s[j] == s.drop_first()[j - 1]);
            }
        }
    }
}

proof fn lemma_leading_space_is(s: Seq<char>, a: int)
    requires
        0 <= a <= s.len(),
        forall|j: int| 0 <= j < a ==> is_white_space(#[trigger] s[j]),
        a < s.len() ==> !is_white_space(s[a]),
    ensures
        leading_space(s) == a,
    decreases s.len(),
{
    if a > 0 {
        assert(is_white_space(s[0]));
        assert forall|j: int| 0 <= j < a - 1 implies is_white_space(#[trigger] s.drop_first()[j]) by {
            assert(s.drop_first()[j] == s[j + 1]);
        }
        if a - 1 < s.drop_first().len() {
            assert(s.drop_first()[a - 1] == s[a]);
        }
        lemma_leading_space_is(s.drop_first(), a - 1);
    }
}

proof fn lemma_trailing_space_is(s: Seq<char>, b: int)
    requires
        0 <= b <= s.len(),
        forall|j: int| s.len() - b <= j < s.len() ==> is_white_space(#[trigger] s[j]),
        b < s.len() ==> !is_white_space(s[s.len() - b - 1]),
    ensures
        trailing_space(s) == b,
    decreases s.len(),
{
    if b > 0 {
        assert(is_white_space(s[s.len() - 1]));
        let t = s.drop_last();
        assert forall|j: int| t.len() - (b - 1) <= j < t.len() implies is_white_space(#[trigger] t[j]) by {
            assert(t[j] == s[j]);
        }
        if b - 1 < t.len() {
            assert(t[t.len() - (b - 1) - 1] == s[s.len() - b - 1]);
        }
        lemma_trailing_space_is(t, b - 1);
    }
}

proof fn lemma_comma_index_is(s: Seq<char>, i: int)
    requires
        0 <= i <= s.len(),
        forall|j: int| 0 <= j < i ==> #[trigger] s[j] != ',',
        i < s.len() ==> s[i] == ',',
    ensures
        comma_index(s) == i,
    decreases s.len(),
{
    if i > 0 {
        assert(s[0] != ',');
        assert forall|j: int| 0 <= j < i - 1 implies #[trigger] s.drop_first()[j] != ',' by {
            assert(s.drop_first()[j] == s[j + 1]);
        }
        if i - 1 < s.drop_first().len() {
            assert(s.drop_first()[i - 1] == s[i]);
        }
        lemma_comma_index_is(s.drop_first(), i - 1);
    }
}

/// The trimmed text of `s[from..to]` (char positions), by its bounds.
fn trimmed_bounds(s: &str, from: usize, to: usize) -> (r: (usize, usize))
    requires
        from <= to <= s@.len(),
    ensures
        from <= r.0 <= r.1 <= to,
        s@.subrange(r.0 as int, r.1 as int) == trim(s@.subrange(from as int, to as int)),
{
    let ghost t = s@.subrange(from as int, to as int);
    let mut a: usize = from;
    while a < to && is_white_space_char(s.get_char(a))
        invariant
            from <= a <= to <= s@.len(),
            forall|j: int| from <= j < a ==> is_white_space(#[trigger] s@[j]),
        decreases to - a,
    {
        a += 1;
    }
    proof {
        assert forall|j: int| 0 <= j < a - from implies is_white_space(#[trigger] t[j]) by {
            assert(t[j] == s@[from + j]);
        }
        if a < to {
            assert(t[a - from] == s@[a as int]);
        }
        lemma_leading_space_is(t, a - from);
    }
    if a == to {
        proof {
            assert(s@.subrange(a as int, a as int) =~= Seq::<char>::empty());
        }
        return (a, a);
    }
    let mut b: usize = to;
    while b > a && is_white_space_char(s.get_char(b - 1))
        invariant
            from <= a < to,
            a <= b <= to <= s@.len(),
            !is_white_space(s@[a as int]),
            forall|j: int| b <= j < to ==> is_white_space(#[trigger] s@[j]),
        decreases b - a,
    {
        b -= 1;
    }
    proof {
        assert(b > a);
        assert forall|j: int| t.len() - (to - b) <= j < t.len() implies is_white_space(#[trigger] t[j]) by {
            assert(t[j] == s@[from + j]);
        }
        assert(t[t.len() - (to - b) - 1] == s@[b - 1]);
        lemma_trailing_space_is(t, to - b);
        assert(s@.subrange(a as int, b as int) =~= t.subrange(a - from, t.len() - (to - b)));
    }
    (a, b)
}

/// Whether `s[from..to]` (char positions) is exactly `lit`.
fn chars_equal(s: &str, from: usize, to: usize, lit: &str) -> (r: bool)
    requires
        from <= to <= s@.len(),
    ensures
        r == (s@.subrange(from as int, to as int) == lit@),
{
    let n = lit.unicode_len();
    if to - from != n {
        proof {
            assert(s@.subrange(from as int, to as int).len() != lit@.len());
        }
        return false;
    }
    let mut i: usize = 0;
    while i < n
        invariant
            n == lit@.len(),
            to - from == n,
            from <= to <= s@.len(),
            i <= n,
            forall|j: int| 0 <= j < i ==> s@[from + j] == lit@[j],
        decreases n - i,
    {
        if s.get_char(from + i) != lit.get_char(i) {
            proof {
                assert(s@.subrange(from as int, to as int)[i as int] != lit@[i as int]);
            }
            return false;
        }
        i += 1;
    }
    proof {
        assert(s@.subrange(from as int, to as int) =~= lit@);
    }
    true
}

/// Whether two strings hold the same characters.
pub fn str_eq(a: &str, b: &str) -> (r: bool)
    ensures
        r == (a@ == b@),
{
    let n = a.unicode_len();
    proof {
        assert(a@.subrange(0, n as int) =~= a@);
    }
    chars_equal(a, 0, n, b)
}

/// The supported coding `s[from..to]` names exactly.
fn coding_of(s: &str, from: usize, to: usize) -> (r: Option<Encoding>)
    requires
        from <= to <= s@.len(),
    ensures
        r == supported_coding(s@.subrange(from as int, to as int)),
{
    proof {
        reveal_strlit("gzip");
        reveal_strlit("br");
        reveal_strlit("deflate");
        assert("gzip"@ =~= seq!['g', 'z', 'i', 'p']);
        assert("br"@ =~= seq!['b', 'r']);
        assert("deflate"@ =~= seq!['d', 'e', 'f', 'l', 'a', 't', 'e']);
    }
    if chars_equal(s, from, to, "gzip") {
        Some(Encoding::Gzip)
    } else if chars_equal(s, from, to, "br") {
        Some(Encoding::Brotli)
    } else if chars_equal(s, from, to, "deflate") {
        Some(Encoding::Deflate)
    } else {
        None
    }
}

/// The coding chosen for an `Accept-Encoding` value: the first comma-separated item
/// that, trimmed, is `gzip`, `br` or `deflate`; identity where there is none.
pub fn select_encoding(accept_encoding: &str) -> (r: Encoding)
    ensures
        r == selected_encoding(accept_encoding@),
{
    let ghost s = accept_encoding@;
    let n = accept_encoding.unicode_len();
    let mut start: usize = 0;
    assert(s.skip(0) =~= s);
    loop
        invariant
            s == accept_encoding@,
            n == s.len(),
            start <= n,
            first_supported(s) == first_supported(s.skip(start as int)),
        decreases n - start,
    {
        let ghost rest = s.skip(start as int);
        let mut i: usize = start;
        while i < n && accept_encoding.get_char(i) != ','
            invariant
                s == accept_encoding@,
                n == s.len(),
                start <= i <= n,
                forall|j: int| start <= j < i ==> s[j] != ',',
            decreases n - i,
        {
            i += 1;
        }
        proof {
            assert forall|j: int| 0 <= j < i - start implies #[trigger] rest[j] != ',' by {
                assert(rest[j] == s[start + j]);
            }
            if i < n {
                assert(rest[i - start] == s[i as int]);
            }
            lemma_comma_index_is(rest, i - start);
            assert(rest.take(i - start) =~= s.subrange(start as int, i as int));
        }
        let (a, b) = trimmed_bounds(accept_encoding, start, i);
        match coding_of(accept_encoding, a, b) {
            Some(e) => return e,
            None => {},
        }
        if i >= n {
            return Encoding::Identity;
        }
        proof {
            assert(rest.skip(i - start + 1) =~= s.skip(i + 1));
        }
        start = i + 1;
    }
}

/// The coding a `Content-Encoding` value names: `gzip`, `br` or `deflate` exactly;
/// identity for anything else.
pub fn content_encoding(encoding: &str) -> (r: Encoding)
    ensures
        r == content_encoding_of(encoding@),
{
    let n = encoding.unicode_len();
    proof {
        assert(encoding@.subrange(0, n as int) =~= encoding@);
    }
    match coding_of(encoding, 0, n) {
        Some(e) => e,
        None => Encoding::Identity,
    }
}


/// What `flate2::read::GzEncoder` (best compression) reads out of `data`; `None` where
/// reading fails.
pub uninterp spec fn gzip_compressed(data: Seq<u8>) -> Option<Seq<u8>>;

/// What `flate2::read::GzDecoder` reads out of `data`; `None` where reading fails.
pub uninterp spec fn gzip_decompressed(data: Seq<u8>) -> Option<Seq<u8>>;

/// What `flate2::read::ZlibEncoder` (best compression) reads out of `data`.
pub uninterp spec fn zlib_compressed(data: Seq<u8>) -> Option<Seq<u8>>;

/// What `flate2::read::ZlibDecoder` reads out of `data`.
pub uninterp spec fn zlib_decompressed(data: Seq<u8>) -> Option<Seq<u8>>;

/// What `brotli::CompressorReader` (buffer 4096, quality 11, window 22) reads out of
/// `data`.
pub uninterp spec fn brotli_compressed(data: Seq<u8>) -> Option<Seq<u8>>;

/// What `brotli::Decompressor` (buffer 4096) reads out of `data`.
pub uninterp spec fn brotli_decompressed(data: Seq<u8>) -> Option<Seq<u8>>;

/// `read_to_end` of a `flate2::read::GzEncoder` at best compression over `data`: what
/// comes out is `gzip_compressed(data)`, not stated further.
#[verifier::external_body]
fn gzip_encode(data: &[u8]) -> (r: Result<Vec<u8>, std::io::Error>)
    ensures
        match r {
            Ok(v) => gzip_compressed(data@) == Some(v@),
            Err(_) => gzip_compressed(data@) is None,
        },
{
    let mut out = Vec::new();
    std::io::Read::read_to_end(&mut flate2::read::GzEncoder::new(data, flate2::Compression::best()), &mut out).map(|_| out)
}

/// `read_to_end` of a `flate2::read::GzDecoder` over `data`: `gzip_decompressed(data)`.
#[verifier::external_body]
fn gzip_decode(data: &[u8]) -> (r: Result<Vec<u8>, std::io::Error>)
    ensures
        match r {
            Ok(v) => gzip_decompressed(data@) == Some(v@),
            Err(_) => gzip_decompressed(data@) is None,
        },
{
    let mut out = Vec::new();
    std::io::Read::read_to_end(&mut flate2::read::GzDecoder::new(data), &mut out).map(|_| out)
}

/// `read_to_end` of a `flate2::read::ZlibEncoder` at best compression over `data`:
/// `zlib_compressed(data)`.
#[verifier::external_body]
fn zlib_encode(data: &[u8]) -> (r: Result<Vec<u8>, std::io::Error>)
    ensures
        match r {
            Ok(v) => zlib_compressed(data@) == Some(v@),
            Err(_) => zlib_compressed(data@) is None,
        },
{
    let mut out = Vec::new();
    std::io::Read::read_to_end(&mut flate2::read::ZlibEncoder::new(data, flate2::Compression::best()), &mut out).map(|_| out)
}

/// `read_to_end` of a `flate2::read::ZlibDecoder` over `data`: `zlib_decompressed(data)`.
#[verifier::external_body]
fn zlib_decode(data: &[u8]) -> (r: Result<Vec<u8>, std::io::Error>)
    ensures
        match r {
            Ok(v) => zlib_decompressed(data@) == Some(v@),
            Err(_) => zlib_decompressed(data@) is None,
        },
{
    let mut out = Vec::new();
    std::io::Read::read_to_end(&mut flate2::read::ZlibDecoder::new(data), &mut out).map(|_| out)
}

/// `read_to_end` of a `brotli::CompressorReader` (buffer 4096, quality 11, window 22)
/// over `data`: `brotli_compressed(data)`.
#[verifier::external_body]
fn brotli_encode(data: &[u8]) -> (r: Result<Vec<u8>, std::io::Error>)
    ensures
        match r {
            Ok(v) => brotli_compressed(data@) == Some(v@),
            Err(_) => brotli_compressed(data@) is None,
        },
{
    let mut out = Vec::new();
    std::io::Read::read_to_end(&mut brotli::CompressorReader::new(std::io::Cursor::new(data), 4096, 11, 22), &mut out).map(|_| out)
}

/// `read_to_end` of a `brotli::Decompressor` (buffer 4096) over `data`:
/// `brotli_decompressed(data)`.
#[verifier::external_body]
fn brotli_decode(data: &[u8]) -> (r: Result<Vec<u8>, std::io::Error>)
    ensures
        match r {
            Ok(v) => brotli_decompressed(data@) == Some(v@),
            Err(_) => brotli_decompressed(data@) is None,
        },
{
    let mut out = Vec::new();
    std::io::Read::read_to_end(&mut brotli::Decompressor::new(data, 4096), &mut out).map(|_| out)
}

/// A body's bytes in the coding `enc`; `None` where the coder fails.
pub open spec fn encoded_content(data: Seq<u8>, enc: Encoding) -> Option<Seq<u8>> {
    match enc {
        Encoding::Gzip => gzip_compressed(data),
        Encoding::Deflate => zlib_compressed(data),
        Encoding::Brotli => brotli_compressed(data),
        Encoding::Identity => Some(data),
    }
}

/// A body's bytes read back from the coding `enc`; `None` where they are not in it.
pub open spec fn decoded_content(data: Seq<u8>, enc: Encoding) -> Option<Seq<u8>> {
    match enc {
        Encoding::Gzip => gzip_decompressed(data),
        Encoding::Deflate => zlib_decompressed(data),
        Encoding::Brotli => brotli_decompressed(data),
        Encoding::Identity => Some(data),
    }
}

/// A body's bytes in the coding `enc`.
pub fn encode_with(buf: &[u8], enc: Encoding) -> (r: Result<Vec<u8>, std::io::Error>)
    ensures
        match encoded_content(buf@, enc) {
            Some(d) => r matches Ok(v) && v@ == d,
            None => r is Err,
        },
{
    match enc {
        Encoding::Gzip => gzip_encode(buf),
        Encoding::Deflate => zlib_encode(buf),
        Encoding::Brotli => brotli_encode(buf),
        Encoding::Identity => Ok(crate::common::header::copy_bytes(buf)),
    }
}

/// A body's bytes read back from the coding `enc`.
pub fn decode_with(buf: &[u8], enc: Encoding) -> (r: Result<Vec<u8>, std::io::Error>)
    ensures
        match decoded_content(buf@, enc) {
            Some(d) => r matches Ok(v) && v@ == d,
            None => r is Err,
        },
{
    match enc {
        Encoding::Gzip => gzip_decode(buf),
        Encoding::Deflate => zlib_decode(buf),
        Encoding::Brotli => brotli_decode(buf),
        Encoding::Identity => Ok(crate::common::header::copy_bytes(buf)),
    }
}

/// A body's bytes in the coding chosen for `accept_encoding` (the first supported one it
/// lists, else none).
pub fn encode_content(buf: &[u8], accept_encoding: &str) -> (r: Result<Vec<u8>, std::io::Error>)
    ensures
        match encoded_content(buf@, selected_encoding(accept_encoding@)) {
            Some(d) => r matches Ok(v) && v@ == d,
            None => r is Err,
        },
{
    encode_with(buf, select_encoding(accept_encoding))
}

/// A body's bytes read back from the coding `encoding` names (`gzip`, `deflate`
/// or `br`; the bytes as they are for any other).
pub fn decode_content(buf: &[u8], encoding: &str) -> (r: Result<Vec<u8>, std::io::Error>)
    ensures
        match decoded_content(buf@, content_encoding_of(encoding@)) {
            Some(d) => r matches Ok(v) && v@ == d,
            None => r is Err,
        },
{
    decode_with(buf, content_encoding(encoding))
}

proof fn lemma_comma_free(s: Seq<char>)
    requires
        forall|i: int| 0 <= i < s.len() ==> s[i] != ',',
    ensures
        comma_index(s) == s.len(),
    decreases s.len(),
{
    if s.len() > 0 {
        assert forall|i: int| 0 <= i < s.drop_first().len() implies s.drop_first()[i] != ',' by {
            assert(s.drop_first()[i] == s[i + 1]);
        }
        lemma_comma_free(s.drop_first());
    }
}

/// An `Accept-Encoding` value of one name, without commas or white space, chooses the
/// coding that name gives as a `Content-Encoding`.
proof fn lemma_single_name(s: Seq<char>)
    requires
        s.len() > 0,
        forall|i: int| 0 <= i < s.len() ==> s[i] != ',' && !is_white_space(#[trigger] s[i]),
    ensures
        selected_encoding(s) == content_encoding_of(s),
{
    lemma_comma_free(s);
    assert(leading_space(s) == 0);
    assert(!is_white_space(s[s.len() - 1]));
    assert(trailing_space(s) == 0);
    assert(s.take(s.len() as int) =~= s);
    assert(trim(s) =~= s);
}

/// The law of the content codings by name: the body a `Content-Encoding` of `gzip`
/// names is in the gzip format (what `flate2`'s `GzEncoder` writes and `GzDecoder`
/// reads), `deflate` the zlib format (`ZlibEncoder` and `ZlibDecoder`), `br` the brotli
/// format; any other name leaves the bytes as they are. An `Accept-Encoding` listing
/// only one of these names chooses the same coder.
pub proof fn lemma_codings_by_name(data: Seq<u8>)
    ensures
        encoded_content(data, content_encoding_of(seq!['g', 'z', 'i', 'p'])) == gzip_compressed(data),
        decoded_content(data, content_encoding_of(seq!['g', 'z', 'i', 'p'])) == gzip_decompressed(data),
        encoded_content(data, content_encoding_of(seq!['d', 'e', 'f', 'l', 'a', 't', 'e'])) == zlib_compressed(data),
        decoded_content(data, content_encoding_of(seq!['d', 'e', 'f', 'l', 'a', 't', 'e'])) == zlib_decompressed(
            data,
        ),
        encoded_content(data, content_encoding_of(seq!['b', 'r'])) == brotli_compressed(data),
        decoded_content(data, content_encoding_of(seq!['b', 'r'])) == brotli_decompressed(data),
        encoded_content(data, content_encoding_of(seq!['x'])) == Some(data),
        decoded_content(data, content_encoding_of(seq!['x'])) == Some(data),
        encoded_content(data, selected_encoding(seq!['d', 'e', 'f', 'l', 'a', 't', 'e'])) == zlib_compressed(data),
        encoded_content(data, selected_encoding(seq!['g', 'z', 'i', 'p'])) == gzip_compressed(data),
        encoded_content(data, selected_encoding(seq!['b', 'r'])) == brotli_compressed(data),
{
    lemma_single_name(seq!['g', 'z', 'i', 'p']);
    lemma_single_name(seq!['d', 'e', 'f', 'l', 'a', 't', 'e']);
    lemma_single_name(seq!['b', 'r']);
    assert(seq!['d', 'e', 'f', 'l', 'a', 't', 'e'] != seq!['g', 'z', 'i', 'p']);
    assert(seq!['d', 'e', 'f', 'l', 'a', 't', 'e'] != seq!['b', 'r']);
    assert(seq!['b', 'r'] != seq!['g', 'z', 'i', 'p']);
    assert(seq!['x'] != seq!['g', 'z', 'i', 'p']);
    assert(seq!['x'] != seq!['b', 'r']);
    assert(seq!['x'] != seq!['d', 'e', 'f', 'l', 'a', 't', 'e']);
}

} // verus!
