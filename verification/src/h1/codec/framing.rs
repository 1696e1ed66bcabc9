//! How a written head is framed for its reader: the head decoders find the end of a
//! head the encoder wrote exactly where it ends.
use vstd::prelude::*;

use crate::common::header::EntryView;
use crate::common::request::RequestHeadView;
use crate::common::response::ResponseHeadView;
use crate::h1::codec::decoder::{
    first_occurrence, head_terminator, is_first_occurrence, lemma_first_occurrence_extends, request_head_step,
    response_head_step,
};
use crate::h1::codec::encoder::{
    crlf, header_lines, ok_status_line, reason_phrase, request_head_bytes, request_target, request_version_line,
    response_head_bytes, response_version_prefix, status_digits, status_line, value_lines,
};
use crate::h1::codec::raw::occurs_at;
use crate::h1::codec::wire::{CR, LF};

verus! {

/// No carriage return in `s`.
pub open spec fn no_cr(s: Seq<u8>) -> bool {
    forall|i: int| 0 <= i < s.len() ==> #[trigger] s[i] != CR
}

/// No carriage return in the names and values of a header map.
pub open spec fn headers_no_cr(m: Seq<EntryView>) -> bool {
    forall|i: int|
        0 <= i < m.len() ==> no_cr(#[trigger] m[i].0) && forall|j: int|
            0 <= j < m[i].1.len() ==> no_cr(#[trigger] m[i].1[j])
}

/// `s` is made of lines: it ends with CRLF, each CR in it starts a CRLF, and no line
/// in it is empty but possibly the first.
pub open spec fn lines_shape(s: Seq<u8>) -> bool {
    &&& s.len() >= 2
    &&& s[s.len() - 2] == CR
    &&& s[s.len() - 1] == LF
    &&& forall|p: int|
        0 <= p < s.len() && #[trigger] s[p] == CR ==> p + 1 < s.len() && s[p + 1] == LF && (p + 2 < s.len()
            ==> s[p + 2] != CR)
}

/// A line of text without CR, and its CRLF, after lines: still lines.
proof fn lemma_add_line(s: Seq<u8>, c: Seq<u8>)
    requires
        s.len() == 0 || lines_shape(s),
        no_cr(c),
        c.len() >= 1,
    ensures
        lines_shape(s + c + crlf()),
{
    let u = s + c + crlf();
    let n = s.len() as int;
    let m = c.len() as int;
    assert(u.len() == n + m + 2);
    assert(u[n + m] == CR);
    assert(u[n + m + 1] == LF);
    assert forall|p: int| 0 <= p < u.len() && #[trigger] u[p] == CR implies p + 1 < u.len() && u[p + 1] == LF && (p
        + 2 < u.len() ==> u[p + 2] != CR) by {
        if p < n {
            assert(u[p] == s[p]);
            assert(s[p] == CR);
            assert(u[p + 1] == s[p + 1]);
            if p + 2 < n {
                assert(u[p + 2] == s[p + 2]);
            } else {
                assert(p + 2 == n);
                assert(u[p + 2] == c[0]);
            }
        } else if p < n + m {
            assert(u[p] == c[p - n]);
        } else {
            assert(p == n + m);
        }
    }
}

/// Header lines for one name, after lines: still lines.
proof fn lemma_value_lines(s: Seq<u8>, name: Seq<u8>, values: Seq<Seq<u8>>)
    requires
        lines_shape(s),
        no_cr(name),
        forall|j: int| 0 <= j < values.len() ==> no_cr(#[trigger] values[j]),
    ensures
        lines_shape(s + value_lines(name, values)),
    decreases values.len(),
{
    if values.len() == 0 {
        assert(s + value_lines(name, values) =~= s);
    } else {
        let init = values.drop_last();
        assert forall|j: int| 0 <= j < init.len() implies no_cr(#[trigger] init[j]) by {
            assert(init[j] == values[j]);
        }
        lemma_value_lines(s, name, init);
        let c = name + seq![58u8, 32u8] + values.last();
        assert(no_cr(values[values.len() - 1]));
        assert forall|i: int| 0 <= i < c.len() implies #[trigger] c[i] != CR by {
            if i < name.len() {
                assert(c[i] == name[i]);
            } else if i < name.len() + 2 {
            } else {
                assert(c[i] == values.last()[i - name.len() - 2]);
            }
        }
        lemma_add_line(s + value_lines(name, init), c);
        assert(s + value_lines(name, values) =~= s + value_lines(name, init) + c + crlf());
    }
}

/// The header lines of a map, after lines: still lines.
proof fn lemma_header_lines(s: Seq<u8>, m: Seq<EntryView>)
    requires
        lines_shape(s),
        headers_no_cr(m),
    ensures
        lines_shape(s + header_lines(m)),
    decreases m.len(),
{
    if m.len() == 0 {
        assert(s + header_lines(m) =~= s);
    } else {
        let init = m.drop_last();
        assert forall|i: int| 0 <= i < init.len() implies no_cr(#[trigger] init[i].0) && forall|j: int|
            0 <= j < init[i].1.len() ==> no_cr(#[trigger] init[i].1[j]) by {
            assert(init[i] == m[i]);
        }
        lemma_header_lines(s, init);
        let last = m[m.len() - 1];
        assert(no_cr(last.0));
        assert forall|j: int| 0 <= j < last.1.len() implies no_cr(#[trigger] last.1[j]) by {
            assert(no_cr(m[m.len() - 1].1[j]));
        }
        lemma_value_lines(s + header_lines(init), last.0, last.1);
        assert(s + header_lines(m) =~= s + header_lines(init) + value_lines(last.0, last.1));
    }
}

/// Lines followed by an empty line: the first empty line is that one.
proof fn lemma_head_end(l: Seq<u8>)
    requires
        lines_shape(l),
    ensures
        first_occurrence(l + crlf(), head_terminator()) == Some((l.len() - 2) as int),
{
    let b = l + crlf();
    let t = head_terminator();
    let i = l.len() - 2;
    assert(b.subrange(i, i + 4) =~= t);
    assert forall|j: int| 0 <= j < i implies !occurs_at(b, t, j) by {
        if occurs_at(b, t, j) {
            assert(b.subrange(j, j + 4)[0] == b[j]);
            assert(b.subrange(j, j + 4)[2] == b[j + 2]);
            assert(b[j] == l[j]);
            assert(l[j] == CR);
            assert(b[j + 2] == l[j + 2]);
        }
    }
    assert(is_first_occurrence(b, t, i));
    let k = choose|k: int| is_first_occurrence(b, t, k);
    assert(is_first_occurrence(b, t, k));
    assert(k == i);
}

/// The law of request head framing: a request head as the encoder writes it (with
/// no CR in its method, its target, or its header names and values), followed by any
/// bytes, is read by the request head decoder up to its end exactly, leaving the bytes
/// that follow.
pub proof fn lemma_request_head_framing(h: RequestHeadView, rest: Seq<u8>)
    requires
        request_head_bytes(h) is Some,
        no_cr(h.method),
        no_cr(request_target(h.uri)->0),
        headers_no_cr(h.headers),
    ensures
        request_head_step(request_head_bytes(h)->0 + rest).0 == rest,
{
    let target = request_target(h.uri)->0;
    let vl = request_version_line(h.version);
    let v = vl.take(8);
    assert(vl =~= v + crlf());
    assert forall|i: int| 0 <= i < v.len() implies #[trigger] v[i] != CR by {
        assert(v[i] == vl[i]);
    }
    let c = h.method + seq![32u8] + target + seq![32u8] + v;
    assert forall|i: int| 0 <= i < c.len() implies #[trigger] c[i] != CR by {
        let a = h.method.len() as int;
        let b = target.len() as int;
        if i < a {
            assert(c[i] == h.method[i]);
        } else if i == a {
        } else if i < a + 1 + b {
            assert(c[i] == target[i - a - 1]);
        } else if i == a + 1 + b {
        } else {
            assert(c[i] == v[i - a - 2 - b]);
        }
    }
    lemma_add_line(Seq::empty(), c);
    assert(Seq::<u8>::empty() + c + crlf() =~= c + crlf());
    lemma_header_lines(c + crlf(), h.headers);
    let l = c + crlf() + header_lines(h.headers);
    let bytes = request_head_bytes(h)->0;
    assert(bytes =~= l + crlf());
    lemma_head_end(l);
    lemma_first_occurrence_extends(bytes, head_terminator(), rest);
    assert((bytes + rest).skip(bytes.len() as int) =~= rest);
}

/// The law of response head framing: a response head as the encoder writes it (with
/// no CR in its reason phrase or its header names and values), followed by any bytes,
/// is read by the response head decoder up to its end exactly, leaving the bytes that
/// follow.
pub proof fn lemma_response_head_framing(h: ResponseHeadView, rest: Seq<u8>)
    requires
        response_head_bytes(h) is Some,
        no_cr(reason_phrase(h)),
        headers_no_cr(h.headers),
    ensures
        response_head_step(response_head_bytes(h)->0 + rest).0 == rest,
{
    let line = status_line(h)->0;
    let c = line.take(line.len() - 2);
    if h.version == crate::common::header::Version::Http11 && h.status == 200 && h.reason is None {
        assert(line == ok_status_line());
        assert(line =~= c + crlf());
        assert forall|i: int| 0 <= i < c.len() implies #[trigger] c[i] != CR by {
            assert(c[i] == ok_status_line()[i]);
        }
    } else {
        let v = response_version_prefix(h.version)->0;
        let d = status_digits(h.status);
        let r = reason_phrase(h);
        assert(line == v + d + seq![32u8] + r + crlf());
        assert(line =~= c + crlf());
        assert(c =~= v + d + seq![32u8] + r);
        assert forall|i: int| 0 <= i < c.len() implies #[trigger] c[i] != CR by {
            let a = v.len() as int;
            if i < a {
                assert(c[i] == v[i]);
            } else if i < a + 3 {
                assert(c[i] == d[i - a]);
                assert(h.status / 100 < 10);
            } else if i == a + 3 {
            } else {
                assert(c[i] == r[i - a - 4]);
            }
        }
    }
    lemma_add_line(Seq::empty(), c);
    assert(Seq::<u8>::empty() + c + crlf() =~= c + crlf());
    lemma_header_lines(c + crlf(), h.headers);
    let l = c + crlf() + header_lines(h.headers);
    let bytes = response_head_bytes(h)->0;
    assert(bytes =~= l + crlf());
    lemma_head_end(l);
    lemma_first_occurrence_extends(bytes, head_terminator(), rest);
    assert((bytes + rest).skip(bytes.len() as int) =~= rest);
}

} // verus!
