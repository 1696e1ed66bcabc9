//! A multipart form: its fields and files, and how it is written out as a
//! `multipart/form-data` body.
use vstd::prelude::*;

use crate::common::body::StreamHint;
use crate::common::buf::{buf_extend, bytes_contents, bytes_mut_contents};
use crate::common::header::{has_name, map_get, EntryView, HeaderMap};

verus! {

/// Byte strings in lexicographic order: `a` comes strictly before `b`.
pub open spec fn lex_lt(a: Seq<u8>, b: Seq<u8>) -> bool
    decreases a.len(),
{
    if a.len() == 0 {
        b.len() > 0
    } else if b.len() == 0 {
        false
    } else if a[0] < b[0] {
        true
    } else if a[0] > b[0] {
        false
    } else {
        lex_lt(a.drop_first(), b.drop_first())
    }
}

pub proof fn lemma_lex_irreflexive(a: Seq<u8>)
    ensures
        !lex_lt(a, a),
    decreases a.len(),
{
    if a.len() > 0 {
        lemma_lex_irreflexive(a.drop_first());
    }
}

pub proof fn lemma_lex_total(a: Seq<u8>, b: Seq<u8>)
    requires
        a != b,
    ensures
        lex_lt(a, b) || lex_lt(b, a),
    decreases a.len(),
{
    if a.len() > 0 && b.len() > 0 && a[0] == b[0] {
        if a.drop_first() == b.drop_first() {
            assert(a =~= seq![a[0]] + a.drop_first());
            assert(b =~= seq![b[0]] + b.drop_first());
        }
        lemma_lex_total(a.drop_first(), b.drop_first());
    } else if a.len() == 0 && b.len() == 0 {
        assert(a =~= b);
    }
}

pub proof fn lemma_lex_transitive(a: Seq<u8>, b: Seq<u8>, c: Seq<u8>)
    requires
        lex_lt(a, b),
        lex_lt(b, c),
    ensures
        lex_lt(a, c),
    decreases a.len(),
{
    if a.len() > 0 && b.len() > 0 && c.len() > 0 && a[0] == b[0] && b[0] == c[0] {
        lemma_lex_transitive(a.drop_first(), b.drop_first(), c.drop_first());
    }
}

pub proof fn lemma_lex_asymmetric(a: Seq<u8>, b: Seq<u8>)
    requires
        lex_lt(a, b),
    ensures
        !lex_lt(b, a),
    decreases a.len(),
{
    if a.len() > 0 && b.len() > 0 && a[0] == b[0] {
        lemma_lex_asymmetric(a.drop_first(), b.drop_first());
    }
}

/// Whether `a` comes strictly before `b`.
pub fn lex_less(a: &[u8], b: &[u8]) -> (r: bool)
    ensures
        r == lex_lt(a@, b@),
{
    let mut i: usize = 0;
    proof {
        assert(a@.skip(0) =~= a@);
        assert(b@.skip(0) =~= b@);
    }
    while i < a.len() && i < b.len()
        invariant
            i <= a@.len(),
            i <= b@.len(),
            lex_lt(a@, b@) == lex_lt(a@.skip(i as int), b@.skip(i as int)),
        decreases a@.len() - i,
    {
        proof {
            assert(a@.skip(i as int).drop_first() =~= a@.skip(i + 1));
            assert(b@.skip(i as int).drop_first() =~= b@.skip(i + 1));
        }
        if a[i] < b[i] {
            return true;
        }
        if a[i] > b[i] {
            return false;
        }
        i += 1;
    }
    a.len() - i == 0 && b.len() - i > 0
}

/// Whether `ns` is sorted, strictly.
pub open spec fn strictly_sorted(ns: Seq<Seq<u8>>) -> bool {
    forall|i: int, j: int| 0 <= i < j < ns.len() ==> lex_lt(#[trigger] ns[i], #[trigger] ns[j])
}

/// The names of a header map, in order.
pub open spec fn names_of(m: Seq<EntryView>) -> Seq<Seq<u8>> {
    m.map_values(|e: EntryView| e.0)
}

/// `--boundary` and CRLF before the first part; CRLF, `--boundary` and CRLF before the
/// others.
pub open spec fn part_delimiter(first: bool, boundary: Seq<u8>) -> Seq<u8> {
    if first {
        seq![45u8, 45u8] + boundary + seq![13u8, 10u8]
    } else {
        seq![13u8, 10u8, 45u8, 45u8] + boundary + seq![13u8, 10u8]
    }
}

/// The header lines of a part, for the names `ns`: `name: value` (its first value) and
/// CRLF each.
pub open spec fn part_header_lines(m: Seq<EntryView>, ns: Seq<Seq<u8>>) -> Seq<u8>
    decreases ns.len(),
{
    if ns.len() == 0 {
        Seq::empty()
    } else {
        part_header_lines(m, ns.drop_last()) + ns.last() + seq![58u8, 32u8] + map_get(m, ns.last()).unwrap() + seq![
            13u8,
            10u8,
        ]
    }
}

/// The head of a part: its delimiter, its header lines in the order of their names,
/// and an empty line.
pub open spec fn part_head(first: bool, boundary: Seq<u8>, m: Seq<EntryView>) -> Seq<u8> {
    let ns = choose|ns: Seq<Seq<u8>>| strictly_sorted(ns) && ns.to_set() == names_of(m).to_set();
    part_delimiter(first, boundary) + part_header_lines(m, ns) + seq![13u8, 10u8]
}

/// The bytes of the parts `parts` (headers and content each), written one after another;
/// `first` says whether the first of them opens the form.
pub open spec fn parts_bytes(first: bool, boundary: Seq<u8>, parts: Seq<(Seq<EntryView>, Seq<u8>)>) -> Seq<u8>
    decreases parts.len(),
{
    if parts.len() == 0 {
        Seq::empty()
    } else {
        parts_bytes(first, boundary, parts.drop_last()) + part_head(
            first && parts.len() == 1,
            boundary,
            parts.last().0,
        ) + parts.last().1
    }
}

/// The parts of a group of fields: the headers of each and its value as UTF-8.
pub open spec fn field_parts(group: Seq<FieldHeader>) -> Seq<(Seq<EntryView>, Seq<u8>)> {
    group.map_values(|f: FieldHeader| (f.headers@, vstd::utf8::encode_utf8(f.value@)))
}

/// The parts of all groups of fields, group after group.
pub open spec fn groups_parts(groups: Seq<(String, Vec<FieldHeader>)>) -> Seq<(Seq<EntryView>, Seq<u8>)>
    decreases groups.len(),
{
    if groups.len() == 0 {
        Seq::empty()
    } else {
        groups_parts(groups.drop_last()) + field_parts(groups.last().1@)
    }
}

/// The end of the form: CRLF, `--boundary--`, CRLF.
pub open spec fn closing_delimiter(boundary: Seq<u8>) -> Seq<u8> {
    seq![13u8, 10u8, 45u8, 45u8] + boundary + seq![45u8, 45u8, 13u8, 10u8]
}

proof fn lemma_sorted_unique(a: Seq<Seq<u8>>, b: Seq<Seq<u8>>)
    requires
        strictly_sorted(a),
        strictly_sorted(b),
        a.to_set() == b.to_set(),
    ensures
        a == b,
    decreases a.len(),
{
    if a.len() == 0 {
        if b.len() > 0 {
            assert(b.to_set().contains(b[0]));
        }
    } else if b.len() == 0 {
        assert(a.to_set().contains(a[0]));
    } else {
        assert(a.to_set().contains(a[0]));
        assert(b.to_set().contains(b[0]));
        let ia = choose|k: int| 0 <= k < a.len() && a[k] == b[0];
        let ib = choose|k: int| 0 <= k < b.len() && b[k] == a[0];
        if ia > 0 {
            assert(lex_lt(a[0], a[ia]));
            if ib > 0 {
                assert(lex_lt(b[0], b[ib]));
                lemma_lex_asymmetric(a[0], b[0]);
            }
            lemma_lex_irreflexive(a[0]);
        }
        if ib > 0 {
            lemma_lex_irreflexive(b[0]);
        }
        assert(a[0] == b[0]);
        let ta = a.drop_first();
        let tb = b.drop_first();
        assert forall|x: Seq<u8>| ta.to_set().contains(x) implies tb.to_set().contains(x) by {
            let k = choose|k: int| 0 <= k < ta.len() && ta[k] == x;
            assert(a[k + 1] == x);
            assert(lex_lt(a[0], x));
            assert(b.to_set().contains(x));
            let j = choose|j: int| 0 <= j < b.len() && b[j] == x;
            if j == 0 {
                lemma_lex_irreflexive(x);
            }
            assert(tb[j - 1] == x);
        }
        assert forall|x: Seq<u8>| tb.to_set().contains(x) implies ta.to_set().contains(x) by {
            let k = choose|k: int| 0 <= k < tb.len() && tb[k] == x;
            assert(b[k + 1] == x);
            assert(lex_lt(b[0], x));
            assert(a.to_set().contains(x));
            let j = choose|j: int| 0 <= j < a.len() && a[j] == x;
            if j == 0 {
                lemma_lex_irreflexive(x);
            }
            assert(ta[j - 1] == x);
        }
        assert(ta.to_set() =~= tb.to_set());
        lemma_sorted_unique(ta, tb);
        assert(a =~= seq![a[0]] + ta);
        assert(b =~= seq![b[0]] + tb);
    }
}

proof fn lemma_insert_to_set<A>(s: Seq<A>, k: int, x: A)
    requires
        0 <= k <= s.len(),
    ensures
        s.insert(k, x).to_set() == s.to_set().insert(x),
{
    let t = s.insert(k, x);
    assert forall|y: A| t.to_set().contains(y) <==> s.to_set().insert(x).contains(y) by {
        if t.to_set().contains(y) {
            let j = choose|j: int| 0 <= j < t.len() && t[j] == y;
            if j < k {
                assert(s[j] == y);
            } else if j > k {
                assert(s[j - 1] == y);
            }
        }
        if s.to_set().insert(x).contains(y) {
            if y == x {
                assert(t[k] == x);
            } else {
                let j = choose|j: int| 0 <= j < s.len() && s[j] == y;
                if j < k {
                    assert(t[j] == y);
                } else {
                    assert(t[j + 1] == y);
                }
            }
        }
    }
    assert(t.to_set() =~= s.to_set().insert(x));
}

/// The names of `headers`, sorted.
fn sorted_names(headers: &HeaderMap) -> (r: Vec<Vec<u8>>)
    ensures
        strictly_sorted(r@.map_values(|v: Vec<u8>| v@)),
        r@.map_values(|v: Vec<u8>| v@).to_set() == names_of(headers@).to_set(),
{
    let entries = headers.entries();
    let ghost names = names_of(headers@);
    let mut out: Vec<Vec<u8>> = Vec::new();
    let mut i: usize = 0;
    while i < entries.len()
        invariant
            i <= entries@.len(),
            entries@.map_values(|e: crate::common::header::HeaderEntry| e@) == headers@,
            crate::common::header::entries_wf(headers@),
            names == names_of(headers@),
            strictly_sorted(out@.map_values(|v: Vec<u8>| v@)),
            out@.map_values(|v: Vec<u8>| v@).to_set() == names.take(i as int).to_set(),
        decreases entries@.len() - i,
    {
        let ghost ov = out@.map_values(|v: Vec<u8>| v@);
        let name = crate::common::header::copy_bytes(entries[i].name.as_slice());
        assert(name@ == names[i as int]);
        proof {
            assert forall|k: int| 0 <= k < ov.len() implies ov[k] != name@ by {
                assert(names.take(i as int).to_set().contains(ov[k]));
                let j = choose|j: int| 0 <= j < i && names.take(i as int)[j] == ov[k];
                assert(headers@[j].0 != headers@[i as int].0);
            }
        }
        let mut k: usize = 0;
        while k < out.len() && !lex_less(name.as_slice(), out[k].as_slice())
            invariant
                k <= out@.len(),
                ov == out@.map_values(|v: Vec<u8>| v@),
                forall|j: int| 0 <= j < k ==> lex_lt(#[trigger] ov[j], name@),
                forall|j: int| 0 <= j < ov.len() ==> ov[j] != name@,
            decreases out@.len() - k,
        {
            proof {
                lemma_lex_total(name@, ov[k as int]);
            }
            k += 1;
        }
        out.insert(k, name);
        proof {
            let nv = out@.map_values(|v: Vec<u8>| v@);
            assert(nv =~= ov.insert(k as int, name@));
            assert forall|a: int, b: int| 0 <= a < b < nv.len() implies lex_lt(#[trigger] nv[a], #[trigger] nv[b]) by {
                if b < k {
                    assert(nv[a] == ov[a] && nv[b] == ov[b]);
                } else if b == k {
                    assert(nv[a] == ov[a]);
                } else if a == k {
                    assert(nv[b] == ov[b - 1]);
                    assert(lex_lt(name@, ov[k as int]));
                    if b - 1 > k {
                        lemma_lex_transitive(name@, ov[k as int], ov[b - 1]);
                    }
                } else if a < k {
                    assert(nv[a] == ov[a] && nv[b] == ov[b - 1]);
                } else {
                    assert(nv[a] == ov[a - 1] && nv[b] == ov[b - 1]);
                }
            }
            assert(names.take(i + 1) =~= names.take(i as int).push(name@));
            names.take(i as int).lemma_push_to_set_commute(name@);
            lemma_insert_to_set(ov, k as int, name@);
        }
        i += 1;
    }
    proof {
        assert(names.take(i as int) =~= names);
    }
    out
}

/// A field of a form: its value and the headers of its part.
#[derive(Debug)]
pub struct FieldHeader {
    pub value: String,
    pub headers: HeaderMap,
}

/// Where the content of a file of a form is: in memory, or in a file on disk.
#[derive(Debug)]
pub enum Data {
    InMemory(bytes::Bytes),
    InFile(std::path::PathBuf),
}

/// A file of a form: its name, the headers of its part, and its content.
#[derive(Debug)]
pub struct FileHeader {
    pub filename: String,
    pub headers: HeaderMap,
    pub data: Data,
}

impl FieldHeader {
    pub fn get_value(&self) -> (r: String)
        ensures
            r@ == self.value@,
    {
        self.value.clone()
    }

    pub fn get_headers(&self) -> (r: &HeaderMap)
        ensures
            *r == self.headers,
    {
        &self.headers
    }
}

/// `PathBuf::clone`: a copy of `p`, the same path.
#[verifier::external_body]
fn path_clone(p: &std::path::PathBuf) -> (r: std::path::PathBuf)
    ensures
        r == *p,
{
    p.clone()
}

impl FileHeader {
    pub fn get_filename(&self) -> (r: String)
        ensures
            r@ == self.filename@,
    {
        self.filename.clone()
    }

    pub fn get_headers(&self) -> (r: &HeaderMap)
        ensures
            *r == self.headers,
    {
        &self.headers
    }

    /// The path of a file kept on disk; `None` for one kept in memory.
    pub fn get_file_path(&self) -> (r: Option<std::path::PathBuf>)
        ensures
            match self.data {
                Data::InFile(p) => r == Some(p),
                Data::InMemory(_) => r is None,
            },
    {
        match &self.data {
            Data::InMemory(_) => None,
            Data::InFile(file) => Some(path_clone(file)),
        }
    }
}

/// A form read from a multipart body: the fields and the files under each name (names
/// in the order they first came), and where writing it out has got to.
pub struct ParsedMuliPartForm {
    value: Vec<(String, Vec<FieldHeader>)>,
    file: Vec<(String, Vec<FileHeader>)>,
    boundary: String,
    first_part: bool,
    closed: bool,
}

/// The names of a list of keyed groups.
pub open spec fn group_names<T>(groups: Seq<(String, T)>) -> Seq<Seq<char>> {
    groups.map_values(|g: (String, T)| g.0@)
}

impl ParsedMuliPartForm {
    pub closed spec fn field_names(self) -> Seq<Seq<char>> {
        group_names(self.value@)
    }

    pub closed spec fn field_counts(self) -> Seq<nat> {
        self.value@.map_values(|g: (String, Vec<FieldHeader>)| g.1@.len())
    }

    /// The fields still to be written, as parts, in the order they are written.
    pub closed spec fn pending_parts(self) -> Seq<(Seq<EntryView>, Seq<u8>)> {
        groups_parts(self.value@)
    }

    pub closed spec fn file_names(self) -> Seq<Seq<char>> {
        group_names(self.file@)
    }

    /// The parts of the `i`-th group of fields; empty past the last group.
    pub closed spec fn field_group(self, i: int) -> Seq<(Seq<EntryView>, Seq<u8>)> {
        if 0 <= i < self.value@.len() {
            field_parts(self.value@[i].1@)
        } else {
            Seq::empty()
        }
    }

    /// The files of the `i`-th group of files; empty past the last group.
    pub closed spec fn file_group(self, i: int) -> Seq<FileHeader> {
        if 0 <= i < self.file@.len() {
            self.file@[i].1@
        } else {
            Seq::empty()
        }
    }

    /// No name heads two groups.
    pub open spec fn wf(self) -> bool {
        self.field_names().no_duplicates() && self.file_names().no_duplicates()
    }

    pub closed spec fn boundary_bytes(self) -> Seq<u8> {
        vstd::utf8::encode_utf8(self.boundary@)
    }

    pub closed spec fn is_first_part(self) -> bool {
        self.first_part
    }

    pub closed spec fn is_closed(self) -> bool {
        self.closed
    }

    /// An empty form with the given boundary; nothing written yet.
    pub fn new(boundary: String) -> (r: Self)
        ensures
            r.field_names() == Seq::<Seq<char>>::empty(),
            r.file_names() == Seq::<Seq<char>>::empty(),
            r.boundary_bytes() == vstd::utf8::encode_utf8(boundary@),
            r.is_first_part(),
            !r.is_closed(),
            r.wf(),
    {
        let r = ParsedMuliPartForm { value: Vec::new(), file: Vec::new(), boundary, first_part: true, closed: false };
        assert(r.field_names() =~= Seq::<Seq<char>>::empty());
        assert(r.file_names() =~= Seq::<Seq<char>>::empty());
        r
    }

    /// The position of the group named `key`.
    fn field_position(&self, key: &str) -> (r: Option<usize>)
        ensures
            match r {
                Some(i) => i < self.field_names().len() && self.field_names()[i as int] == key@,
                None => forall|i: int| 0 <= i < self.field_names().len() ==> self.field_names()[i] != key@,
            },
    {
        let mut i: usize = 0;
        while i < self.value.len()
            invariant
                i <= self.value@.len(),
                forall|j: int| 0 <= j < i ==> self.field_names()[j] != key@,
            decreases self.value@.len() - i,
        {
            if crate::common::body::str_eq(self.value[i].0.as_str(), key) {
                return Some(i);
            }
            i += 1;
        }
        None
    }

    /// The position of the group of files named `key`.
    fn file_position(&self, key: &str) -> (r: Option<usize>)
        ensures
            match r {
                Some(i) => i < self.file_names().len() && self.file_names()[i as int] == key@,
                None => forall|i: int| 0 <= i < self.file_names().len() ==> self.file_names()[i] != key@,
            },
    {
        let mut i: usize = 0;
        while i < self.file.len()
            invariant
                i <= self.file@.len(),
                forall|j: int| 0 <= j < i ==> self.file_names()[j] != key@,
            decreases self.file@.len() - i,
        {
            if crate::common::body::str_eq(self.file[i].0.as_str(), key) {
                return Some(i);
            }
            i += 1;
        }
        None
    }

    /// Adds a field value under `key`, after those it already has.
    pub fn insert_field_value(&mut self, key: String, value: String, headers: HeaderMap)
        requires
            old(self).wf(),
        ensures
            final(self).wf(),
            final(self).field_names() == if old(self).field_names().contains(key@) {
                old(self).field_names()
            } else {
                old(self).field_names().push(key@)
            },
            forall|i: int|
                0 <= i < final(self).field_names().len() ==> #[trigger] final(self).field_group(i) == if final(self).field_names()[i] == key@ {
                    old(self).field_group(i).push((headers@, vstd::utf8::encode_utf8(value@)))
                } else {
                    old(self).field_group(i)
                },
            final(self).file_names() == old(self).file_names(),
            forall|i: int| #[trigger] final(self).file_group(i) == old(self).file_group(i),
            final(self).boundary_bytes() == old(self).boundary_bytes(),
            final(self).is_first_part() == old(self).is_first_part(),
            final(self).is_closed() == old(self).is_closed(),
    {
        let ghost before = self.field_names();
        let ghost old_self = *self;
        let ghost part = (headers@, vstd::utf8::encode_utf8(value@));
        match self.field_position(key.as_str()) {
            Some(i) => {
                let (k, mut group) = self.value.remove(i);
                group.push(FieldHeader { value, headers });
                self.value.insert(i, (k, group));
                proof {
                    assert(self.field_names() =~= before);
                    assert(field_parts(group@) =~= old_self.field_group(i as int).push(part));
                    assert forall|j: int| 0 <= j < self.field_names().len() implies #[trigger] self.field_group(j)
                        == if self.field_names()[j] == key@ {
                        old_self.field_group(j).push(part)
                    } else {
                        old_self.field_group(j)
                    } by {
                        if j != i {
                            assert(before[j] != before[i as int]);
                        }
                    }
                }
            },
            None => {
                let mut group: Vec<FieldHeader> = Vec::new();
                group.push(FieldHeader { value, headers });
                self.value.push((key, group));
                proof {
                    assert(self.field_names() =~= before.push(key@));
                    assert(!before.contains(key@));
                    assert(field_parts(group@) =~= Seq::<(Seq<EntryView>, Seq<u8>)>::empty().push(part));
                    assert forall|j: int| 0 <= j < self.field_names().len() implies #[trigger] self.field_group(j)
                        == if self.field_names()[j] == key@ {
                        old_self.field_group(j).push(part)
                    } else {
                        old_self.field_group(j)
                    } by {
                        if j < before.len() {
                            assert(before[j] != key@);
                        }
                    }
                }
            },
        }
    }

    /// Adds a file under `key`, after those it already has.
    pub fn insert_file_data(&mut self, key: String, filename: String, headers: HeaderMap, data: Data)
        requires
            old(self).wf(),
        ensures
            final(self).wf(),
            final(self).file_names() == if old(self).file_names().contains(key@) {
                old(self).file_names()
            } else {
                old(self).file_names().push(key@)
            },
            forall|i: int|
                0 <= i < final(self).file_names().len() ==> #[trigger] final(self).file_group(i) == if final(self).file_names()[i] == key@ {
                    old(self).file_group(i).push((FileHeader { filename, headers, data }))
                } else {
                    old(self).file_group(i)
                },
            final(self).field_names() == old(self).field_names(),
            forall|i: int| #[trigger] final(self).field_group(i) == old(self).field_group(i),
            final(self).field_counts() == old(self).field_counts(),
            final(self).pending_parts() == old(self).pending_parts(),
            final(self).boundary_bytes() == old(self).boundary_bytes(),
            final(self).is_first_part() == old(self).is_first_part(),
            final(self).is_closed() == old(self).is_closed(),
    {
        let ghost before = self.file_names();
        let ghost old_self = *self;
        let file = FileHeader { filename, headers, data };
        let ghost fname = file;
        match self.file_position(key.as_str()) {
            Some(i) => {
                let (k, mut group) = self.file.remove(i);
                group.push(file);
                self.file.insert(i, (k, group));
                proof {
                    assert(self.file_names() =~= before);
                    assert(group@ =~= old_self.file_group(i as int).push(fname));
                    assert forall|j: int| 0 <= j < self.file_names().len() implies #[trigger] self.file_group(j)
                        == if self.file_names()[j] == key@ {
                        old_self.file_group(j).push(fname)
                    } else {
                        old_self.file_group(j)
                    } by {
                        if j != i {
                            assert(before[j] != before[i as int]);
                        }
                    }
                }
            },
            None => {
                let mut group: Vec<FileHeader> = Vec::new();
                group.push(file);
                self.file.push((key, group));
                proof {
                    assert(self.file_names() =~= before.push(key@));
                    assert(!before.contains(key@));
                    assert(group@ =~= Seq::<FileHeader>::empty().push(fname));
                    assert forall|j: int| 0 <= j < self.file_names().len() implies #[trigger] self.file_group(j)
                        == if self.file_names()[j] == key@ {
                        old_self.file_group(j).push(fname)
                    } else {
                        old_self.file_group(j)
                    } by {
                        if j < before.len() {
                            assert(before[j] != key@);
                        }
                    }
                }
            },
        }
    }

    /// The values of the field `key`.
    pub fn get_field_value(&self, key: &str) -> (r: Option<&Vec<FieldHeader>>)
        ensures
            r is Some <==> self.field_names().contains(key@),
            match r {
                Some(g) => exists|i: int|
                    0 <= i < self.field_names().len() && self.field_names()[i] == key@ && #[trigger] self.field_group(
                        i,
                    ) == field_parts(g@),
                None => true,
            },
    {
        match self.field_position(key) {
            Some(i) => {
                assert(self.field_group(i as int) == field_parts(self.value@[i as int].1@));
                Some(&self.value[i].1)
            },
            None => None,
        }
    }

    /// The files under `key`.
    pub fn get_file(&self, key: &str) -> (r: Option<&Vec<FileHeader>>)
        ensures
            r is Some <==> self.file_names().contains(key@),
            match r {
                Some(g) => exists|i: int|
                    0 <= i < self.file_names().len() && self.file_names()[i] == key@ && #[trigger] self.file_group(i)
                        == g@,
                None => true,
            },
    {
        match self.file_position(key) {
            Some(i) => {
                assert(self.file_group(i as int) == self.file@[i as int].1@);
                Some(&self.file[i].1)
            },
            None => None,
        }
    }

    /// The name of a group of files still to be written, if any.
    pub fn get_next_file_key(&self) -> (r: Option<String>)
        ensures
            match r {
                Some(k) => self.file_names().len() > 0 && k@ == self.file_names()[0],
                None => self.file_names().len() == 0,
            },
    {
        if self.file.len() > 0 {
            Some(self.file[0].0.clone())
        } else {
            None
        }
    }

    /// Appends the head of the next part, with `headers`, to `buf`.
    pub fn write_part(&mut self, buf: &mut bytes::BytesMut, headers: &HeaderMap)
        ensures
            bytes_mut_contents(*final(buf)) == bytes_mut_contents(*old(buf)) + part_head(
                old(self).is_first_part(),
                old(self).boundary_bytes(),
                headers@,
            ),
            !final(self).is_first_part(),
            final(self).field_names() == old(self).field_names(),
            final(self).field_counts() == old(self).field_counts(),
            final(self).pending_parts() == old(self).pending_parts(),
            forall|i: int| #[trigger] final(self).field_group(i) == old(self).field_group(i),
            final(self).file_names() == old(self).file_names(),
            forall|i: int| #[trigger] final(self).file_group(i) == old(self).file_group(i),
            final(self).boundary_bytes() == old(self).boundary_bytes(),
            final(self).is_closed() == old(self).is_closed(),
    {
        let ghost start = bytes_mut_contents(*buf);
        let b = self.boundary.as_str().as_bytes();
        let dashes: [u8; 2] = [45u8, 45u8];
        let crlf: [u8; 2] = [13u8, 10u8];
        let sep: [u8; 2] = [58u8, 32u8];
        proof {
            assert(dashes@ =~= seq![45u8, 45u8]);
            assert(crlf@ =~= seq![13u8, 10u8]);
            assert(sep@ =~= seq![58u8, 32u8]);
        }
        if !self.first_part {
            buf_extend(buf, crlf.as_slice());
        }
        buf_extend(buf, dashes.as_slice());
        buf_extend(buf, b);
        buf_extend(buf, crlf.as_slice());
        proof {
            assert(bytes_mut_contents(*buf) =~= start + part_delimiter(old(self).first_part, b@));
        }
        self.first_part = false;
        let _ = headers.entries();
        let names = sorted_names(headers);
        let ghost nv = names@.map_values(|v: Vec<u8>| v@);
        let ghost mid = bytes_mut_contents(*buf);
        let mut i: usize = 0;
        while i < names.len()
            invariant
                i <= names@.len(),
                nv == names@.map_values(|v: Vec<u8>| v@),
                nv.to_set() == names_of(headers@).to_set(),
                crate::common::header::entries_wf(headers@),
                crlf@ == seq![13u8, 10u8],
                sep@ == seq![58u8, 32u8],
                bytes_mut_contents(*buf) == mid + part_header_lines(headers@, nv.take(i as int)),
            decreases names@.len() - i,
        {
            assert(nv.to_set().contains(nv[i as int]));
            let ghost name = nv[i as int];
            proof {
                let j = choose|j: int| 0 <= j < names_of(headers@).len() && names_of(headers@)[j] == name;
                assert(headers@[j].0 == name);
                assert(has_name(headers@, name));
            }
            let v = match headers.get(names[i].as_slice()) {
                Some(v) => v,
                None => vstd::pervasive::unreached(),
            };
            let ghost before = bytes_mut_contents(*buf);
            buf_extend(buf, names[i].as_slice());
            buf_extend(buf, sep.as_slice());
            buf_extend(buf, v.as_slice());
            buf_extend(buf, crlf.as_slice());
            proof {
                assert(nv.take(i + 1).drop_last() =~= nv.take(i as int));
                assert(nv.take(i + 1).last() == name);
                assert(bytes_mut_contents(*buf) =~= before + name + seq![58u8, 32u8] + v@ + seq![13u8, 10u8]);
            }
            i += 1;
        }
        buf_extend(buf, crlf.as_slice());
        proof {
            assert(nv.take(i as int) =~= nv);
            let ns = choose|ns: Seq<Seq<u8>>| strictly_sorted(ns) && ns.to_set() == names_of(headers@).to_set();
            lemma_sorted_unique(ns, nv);
            assert(bytes_mut_contents(*buf) =~= start + part_head(old(self).first_part, b@, headers@));
        }
    }

    /// Writes all fields (each as a part with its value), and forgets them.
    pub fn write_forms(&mut self) -> (r: bytes::Bytes)
        ensures
            bytes_contents(r) == parts_bytes(
                old(self).is_first_part(),
                old(self).boundary_bytes(),
                old(self).pending_parts(),
            ),
            final(self).is_first_part() == (old(self).is_first_part() && old(self).pending_parts().len()
                == 0),
            final(self).field_names() == Seq::<Seq<char>>::empty(),
            final(self).pending_parts() == Seq::<(Seq<EntryView>, Seq<u8>)>::empty(),
            final(self).file_names() == old(self).file_names(),
            forall|i: int| #[trigger] final(self).file_group(i) == old(self).file_group(i),
            final(self).boundary_bytes() == old(self).boundary_bytes(),
            final(self).is_closed() == old(self).is_closed(),
    {
        let mut forms: Vec<(String, Vec<FieldHeader>)> = Vec::new();
        std::mem::swap(&mut forms, &mut self.value);
        let mut buf = crate::common::buf::buf_new();
        proof {
            assert(self.field_names() =~= Seq::<Seq<char>>::empty());
            assert(self.pending_parts() =~= Seq::<(Seq<EntryView>, Seq<u8>)>::empty());
        }
        let ghost first0 = self.first_part;
        let ghost bnd = old(self).boundary_bytes();
        let mut i: usize = 0;
        while i < forms.len()
            invariant
                i <= forms@.len(),
                forms@ == old(self).value@,
                self.field_names() == Seq::<Seq<char>>::empty(),
                self.pending_parts() == Seq::<(Seq<EntryView>, Seq<u8>)>::empty(),
                self.file_names() == old(self).file_names(),
                forall|k: int| #[trigger] self.file_group(k) == old(self).file_group(k),
                self.boundary_bytes() == bnd,
                self.is_closed() == old(self).is_closed(),
                self.first_part == (first0 && groups_parts(forms@.take(i as int)).len() == 0),
                bytes_mut_contents(buf) == parts_bytes(first0, bnd, groups_parts(forms@.take(i as int))),
            decreases forms@.len() - i,
        {
            let group = &forms[i].1;
            let ghost done = groups_parts(forms@.take(i as int));
            proof {
                assert(forms@.take(i + 1).drop_last() =~= forms@.take(i as int));
                assert(groups_parts(forms@.take(i + 1)) == done + field_parts(group@));
            }
            let mut j: usize = 0;
            while j < group.len()
                invariant
                    j <= group@.len(),
                    self.field_names() == Seq::<Seq<char>>::empty(),
                    self.pending_parts() == Seq::<(Seq<EntryView>, Seq<u8>)>::empty(),
                    self.file_names() == old(self).file_names(),
                    forall|k: int| #[trigger] self.file_group(k) == old(self).file_group(k),
                    self.boundary_bytes() == bnd,
                    self.is_closed() == old(self).is_closed(),
                    self.first_part == (first0 && (done + field_parts(group@).take(j as int)).len() == 0),
                    bytes_mut_contents(buf) == parts_bytes(first0, bnd, done + field_parts(group@).take(j as int)),
                decreases group@.len() - j,
            {
                let ghost before = done + field_parts(group@).take(j as int);
                let ghost after = done + field_parts(group@).take(j + 1);
                proof {
                    assert(after.drop_last() =~= before);
                    assert(after.last() == (group@[j as int].headers@, vstd::utf8::encode_utf8(group@[j as int].value@)));
                }
                self.write_part(&mut buf, &group[j].headers);
                buf_extend(&mut buf, group[j].value.as_str().as_bytes());
                j += 1;
            }
            proof {
                assert(field_parts(group@).take(j as int) =~= field_parts(group@));
            }
            i += 1;
        }
        proof {
            assert(forms@.take(i as int) =~= forms@);
        }
        crate::common::buf::buf_freeze(buf)
    }

    /// Writes the end of the form, and marks it closed.
    pub fn close_multipart(&mut self) -> (r: bytes::Bytes)
        ensures
            bytes_contents(r) == closing_delimiter(old(self).boundary_bytes()),
            final(self).is_closed(),
            final(self).is_first_part() == old(self).is_first_part(),
            final(self).field_names() == old(self).field_names(),
            forall|i: int| #[trigger] final(self).field_group(i) == old(self).field_group(i),
            final(self).pending_parts() == old(self).pending_parts(),
            final(self).file_names() == old(self).file_names(),
            forall|i: int| #[trigger] final(self).file_group(i) == old(self).file_group(i),
            final(self).boundary_bytes() == old(self).boundary_bytes(),
    {
        let mut buf = crate::common::buf::buf_new();
        self.closed = true;
        let head: [u8; 4] = [13u8, 10u8, 45u8, 45u8];
        let tail: [u8; 4] = [45u8, 45u8, 13u8, 10u8];
        proof {
            assert(head@ =~= seq![13u8, 10u8, 45u8, 45u8]);
            assert(tail@ =~= seq![45u8, 45u8, 13u8, 10u8]);
        }
        buf_extend(&mut buf, head.as_slice());
        buf_extend(&mut buf, self.boundary.as_str().as_bytes());
        buf_extend(&mut buf, tail.as_slice());
        proof {
            assert(bytes_mut_contents(buf) =~= closing_delimiter(old(self).boundary_bytes()));
        }
        crate::common::buf::buf_freeze(buf)
    }

    /// Takes out the files under `key`, to be written.
    pub fn take_file(&mut self, key: &str) -> (r: Option<Vec<FileHeader>>)
        ensures
            r is Some <==> old(self).file_names().contains(key@),
            match r {
                Some(g) => exists|i: int|
                    0 <= i < old(self).file_names().len() && old(self).file_names()[i] == key@
                        && #[trigger] old(self).file_group(i) == g@
                        && final(self).file_names() == old(self).file_names().remove(i) && forall|j: int|
                        #[trigger] final(self).file_group(j) == old(self).file_group(if j < i {
                            j
                        } else {
                            j + 1
                        }),
                None => final(self).file_names() == old(self).file_names() && forall|j: int| #[trigger]
                    final(self).file_group(j) == old(self).file_group(j),
            },
            old(self).wf() ==> final(self).wf(),
            final(self).field_names() == old(self).field_names(),
            forall|i: int| #[trigger] final(self).field_group(i) == old(self).field_group(i),
            final(self).pending_parts() == old(self).pending_parts(),
            final(self).boundary_bytes() == old(self).boundary_bytes(),
            final(self).is_first_part() == old(self).is_first_part(),
            final(self).is_closed() == old(self).is_closed(),
    {
        let ghost old_self = *self;
        match self.file_position(key) {
            Some(i) => {
                let ghost before = self.file_names();
                let (_, group) = self.file.remove(i);
                proof {
                    assert(self.file_names() =~= before.remove(i as int));
                    assert(old_self.file_group(i as int) == group@);
                    assert forall|j: int| #[trigger] self.file_group(j) == old_self.file_group(if j < i {
                        j
                    } else {
                        j + 1
                    }) by {}
                    if old_self.wf() {
                        assert forall|a: int, b: int|
                            0 <= a < self.file_names().len() && 0 <= b < self.file_names().len() && a != b
                            implies self.file_names()[a] != self.file_names()[b] by {
                            let a2 = if a < i { a } else { a + 1 };
                            let b2 = if b < i { b } else { b + 1 };
                            assert(self.file_names()[a] == before[a2]);
                            assert(self.file_names()[b] == before[b2]);
                        }
                    }
                }
                Some(group)
            },
            None => None,
        }
    }

    /// How the form is delivered as a body: in pieces.
    pub fn stream_hint(&self) -> (r: StreamHint)
        ensures
            r == StreamHint::Stream,
    {
        StreamHint::Stream
    }

    /// Whether the end of the form was written.
    pub fn closed(&self) -> (r: bool)
        ensures
            r == self.is_closed(),
    {
        self.closed
    }

    /// Whether fields are still to be written.
    pub fn has_fields(&self) -> (r: bool)
        ensures
            r == (self.field_names().len() > 0),
    {
        self.value.len() > 0
    }

    /// What to write next: the fields while there are any, then the first group of
    /// files, then the end of the form once; after that, nothing.
    pub fn next_step(&self) -> (r: FormStep)
        ensures
            match r {
                FormStep::Fields => self.field_names().len() > 0,
                FormStep::Files(k) => self.field_names().len() == 0 && self.file_names().len() > 0 && k@
                    == self.file_names()[0],
                FormStep::Close => self.field_names().len() == 0 && self.file_names().len() == 0
                    && !self.is_closed(),
                FormStep::Done => self.field_names().len() == 0 && self.file_names().len() == 0
                    && self.is_closed(),
            },
    {
        if self.has_fields() {
            return FormStep::Fields;
        }
        match self.get_next_file_key() {
            Some(k) => FormStep::Files(k),
            None => if self.closed {
                FormStep::Done
            } else {
                FormStep::Close
            },
        }
    }

    /// Appends a file as a part to `buf`: the head of the part, with `headers`, then
    /// `content`.
    pub fn write_file_part(&mut self, buf: &mut bytes::BytesMut, headers: &HeaderMap, content: &[u8])
        ensures
            bytes_mut_contents(*final(buf)) == bytes_mut_contents(*old(buf)) + part_head(
                old(self).is_first_part(),
                old(self).boundary_bytes(),
                headers@,
            ) + content@,
            !final(self).is_first_part(),
            final(self).field_names() == old(self).field_names(),
            final(self).pending_parts() == old(self).pending_parts(),
            forall|i: int| #[trigger] final(self).field_group(i) == old(self).field_group(i),
            final(self).file_names() == old(self).file_names(),
            forall|i: int| #[trigger] final(self).file_group(i) == old(self).file_group(i),
            final(self).boundary_bytes() == old(self).boundary_bytes(),
            final(self).is_closed() == old(self).is_closed(),
    {
        self.write_part(buf, headers);
        buf_extend(buf, content);
    }
}

/// What a form writes next.
#[derive(Debug, PartialEq, Eq)]
pub enum FormStep {
    /// All its fields.
    Fields,
    /// The group of files under this name.
    Files(String),
    /// The end of the form.
    Close,
    /// Nothing: the form is written.
    Done,
}

/// Files of a form smaller than this many bytes are kept in memory; larger ones stay
/// on disk.
pub const MAX_FILE_SIZE: u64 = 10485760;

/// Whether a file of `size` bytes is kept in memory.
pub fn keep_in_memory(size: u64) -> (r: bool)
    ensures
        r == (size < MAX_FILE_SIZE),
{
    size < MAX_FILE_SIZE
}

/// Whether a part with this file name is a file; a part with none is a field.
pub fn is_file_field(file_name: &str) -> (r: bool)
    ensures
        r == (file_name@.len() > 0),
{
    !file_name.is_empty()
}

} // verus!
