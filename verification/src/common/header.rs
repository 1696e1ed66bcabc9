//! HTTP versions and header maps, as the codecs read and write them.
//!
//! A header map holds, for each header name (normalized to lower case), the values given
//! for it in order. Its entries keep the order in which their names first came, and
//! iterating yields each name's values together, as `http::HeaderMap` does.
use vstd::prelude::*;

verus! {

/// The HTTP version of a message.
#[derive(Clone, Copy, PartialEq, Eq, Structural, Debug)]
pub enum Version {
    Http09,
    Http10,
    Http11,
    Http2,
    Http3,
}

/// ASCII lower case of a byte.
pub open spec fn lower_byte(b: u8) -> u8 {
    if 65 <= b && b <= 90 {
        (b + 32) as u8
    } else {
        b
    }
}

/// ASCII lower case of a byte string.
pub open spec fn ascii_lower(s: Seq<u8>) -> Seq<u8> {
    s.map_values(|b: u8| lower_byte(b))
}

/// A byte that `http` takes in a header name (its `HEADER_CHARS` table): a digit, a
/// letter, or one of the marks ! " # $ % & ' * + - . ^ _ ` | ~.
pub open spec fn is_header_char(b: u8) -> bool {
    ||| b == 33 || b == 34 || b == 35 || b == 36 || b == 37 || b == 38 || b == 39
    ||| b == 42 || b == 43 || b == 45 || b == 46
    ||| 48 <= b && b <= 57
    ||| 65 <= b && b <= 90
    ||| b == 94 || b == 95 || b == 96
    ||| 97 <= b && b <= 122
    ||| b == 124 || b == 126
}

/// The longest header name `http` takes.
pub const MAX_HEADER_NAME_LEN: usize = 65535;

/// Whether `http::HeaderName` takes `bytes` as a header name: at least one byte, at
/// most `MAX_HEADER_NAME_LEN`, each a header name byte.
pub open spec fn is_header_name(bytes: Seq<u8>) -> bool {
    &&& 0 < bytes.len() <= MAX_HEADER_NAME_LEN
    &&& forall|i: int| 0 <= i < bytes.len() ==> is_header_char(#[trigger] bytes[i])
}

/// `http::HeaderName::from_bytes`: the normalized name, or `None` where `bytes` is not a
/// header name (`is_header_name`). The normalized name is the ASCII lower case of
/// `bytes`: `HEADER_CHARS` maps each byte it takes to its lower case.
#[verifier::external_body]
pub(crate) fn header_name(bytes: &[u8]) -> (r: Option<Vec<u8>>)
    ensures
        r is Some <==> is_header_name(bytes@),
        r matches Some(n) ==> n@ == ascii_lower(bytes@),
{
    http::HeaderName::from_bytes(bytes).ok().map(|n| n.as_str().as_bytes().to_vec())
}

/// A copy of the bytes of `b`.
pub fn copy_bytes(b: &[u8]) -> (r: Vec<u8>)
    ensures
        r@ == b@,
{
    let mut r: Vec<u8> = Vec::with_capacity(b.len());
    let mut i: usize = 0;
    while i < b.len()
        invariant
            i <= b.len(),
            r@ == b@.take(i as int),
        decreases b.len() - i,
    {
        r.push(b[i]);
        i += 1;
        assert(r@ =~= b@.take(i as int));
    }
    assert(b@.take(i as int) =~= b@);
    r
}

/// Byte-wise equality of two slices.
pub fn bytes_eq(a: &[u8], b: &[u8]) -> (r: bool)
    ensures
        r == (a@ == b@),
{
    if a.len() != b.len() {
        return false;
    }
    let mut i: usize = 0;
    while i < a.len()
        invariant
            a.len() == b.len(),
            i <= a.len(),
            forall|j: int| 0 <= j < i ==> a@[j] == b@[j],
        decreases a.len() - i,
    {
        if a[i] != b[i] {
            return false;
        }
        i += 1;
    }
    assert(a@ =~= b@);
    true
}

/// The values given for one header name, in order.
#[derive(Debug)]
pub struct HeaderEntry {
    pub name: Vec<u8>,
    pub values: Vec<Vec<u8>>,
}

/// The abstract view of one entry: a name and its values.
pub type EntryView = (Seq<u8>, Seq<Seq<u8>>);

impl View for HeaderEntry {
    type V = EntryView;

    open spec fn view(&self) -> EntryView {
        (self.name@, self.values@.map_values(|v: Vec<u8>| v@))
    }
}

/// Whether the map holds an entry for `name`.
pub open spec fn has_name(m: Seq<EntryView>, name: Seq<u8>) -> bool {
    exists|i: int| 0 <= i < m.len() && (#[trigger] m[i]).0 == name
}

/// The position of the entry for `name` (meaningful when there is one).
pub open spec fn name_index(m: Seq<EntryView>, name: Seq<u8>) -> int {
    choose|i: int| 0 <= i < m.len() && (#[trigger] m[i]).0 == name
}

/// No name has two entries, and no entry is without a value.
pub open spec fn entries_wf(m: Seq<EntryView>) -> bool {
    &&& forall|i: int, j: int|
        0 <= i < m.len() && 0 <= j < m.len() && i != j ==> (#[trigger] m[i]).0 != (#[trigger] m[j]).0
    &&& forall|i: int| 0 <= i < m.len() ==> (#[trigger] m[i]).1.len() > 0
}

/// The first value given for `name`, if any.
pub open spec fn map_get(m: Seq<EntryView>, name: Seq<u8>) -> Option<Seq<u8>> {
    if has_name(m, name) {
        Some(m[name_index(m, name)].1[0])
    } else {
        None
    }
}

/// `value` added for `name`, after the values it already has.
pub open spec fn map_append(m: Seq<EntryView>, name: Seq<u8>, value: Seq<u8>) -> Seq<EntryView> {
    if has_name(m, name) {
        let i = name_index(m, name);
        m.update(i, (name, m[i].1.push(value)))
    } else {
        m.push((name, seq![value]))
    }
}

/// `value` as the only value for `name`, in the place of those it had.
pub open spec fn map_insert(m: Seq<EntryView>, name: Seq<u8>, value: Seq<u8>) -> Seq<EntryView> {
    if has_name(m, name) {
        m.update(name_index(m, name), (name, seq![value]))
    } else {
        m.push((name, seq![value]))
    }
}

/// `name` and its values gone.
pub open spec fn map_remove(m: Seq<EntryView>, name: Seq<u8>) -> Seq<EntryView> {
    if has_name(m, name) {
        m.remove(name_index(m, name))
    } else {
        m
    }
}

/// A map of header names to their values. The entries are held as plain bytes, one
/// entry per name in the order names first came, so that the codecs' reading and
/// writing of headers can be stated over them and proved.
#[derive(Debug)]
pub struct HeaderMap {
    entries: Vec<HeaderEntry>,
}

impl View for HeaderMap {
    type V = Seq<EntryView>;

    closed spec fn view(&self) -> Seq<EntryView> {
        self.entries@.map_values(|e: HeaderEntry| e@)
    }
}

pub proof fn lemma_name_index(m: Seq<EntryView>, name: Seq<u8>, i: int)
    requires
        entries_wf(m),
        0 <= i < m.len(),
        m[i].0 == name,
    ensures
        has_name(m, name),
        name_index(m, name) == i,
{
    let k = name_index(m, name);
    assert(0 <= k < m.len() && m[k].0 == name);
}

impl HeaderMap {
    #[verifier::type_invariant]
    closed spec fn inv(self) -> bool {
        entries_wf(self@)
    }

    /// An empty map.
    pub fn new() -> (r: Self)
        ensures
            r@ == Seq::<EntryView>::empty(),
    {
        let r = HeaderMap { entries: Vec::new() };
        assert(r@ =~= Seq::<EntryView>::empty());
        r
    }

    /// An empty map, with room for `capacity` entries.
    pub fn with_capacity(capacity: usize) -> (r: Self)
        ensures
            r@ == Seq::<EntryView>::empty(),
    {
        let r = HeaderMap { entries: Vec::with_capacity(capacity) };
        assert(r@ =~= Seq::<EntryView>::empty());
        r
    }

    /// The entries, in order.
    pub fn entries(&self) -> (r: &Vec<HeaderEntry>)
        ensures
            r@.map_values(|e: HeaderEntry| e@) == self@,
            entries_wf(self@),
    {
        proof { use_type_invariant(self); }
        &self.entries
    }

    /// The position of the entry for `name`, if there is one.
    fn position(&self, name: &[u8]) -> (r: Option<usize>)
        ensures
            r is None <==> !has_name(self@, name@),
            r matches Some(i) ==> i < self@.len() && name_index(self@, name@) == i && self@[i as int].0
                == name@,
    {
        proof { use_type_invariant(self); }
        let mut i: usize = 0;
        while i < self.entries.len()
            invariant
                i <= self.entries@.len(),
                self@.len() == self.entries@.len(),
                entries_wf(self@),
                forall|j: int| 0 <= j < i ==> (#[trigger] self@[j]).0 != name@,
            decreases self.entries@.len() - i,
        {
            assert(self@[i as int] == self.entries@[i as int]@);
            if bytes_eq(self.entries[i].name.as_slice(), name) {
                proof { lemma_name_index(self@, name@, i as int); }
                return Some(i);
            }
            i += 1;
        }
        None
    }

    /// The first value given for `name`, if any.
    pub fn get(&self, name: &[u8]) -> (r: Option<&Vec<u8>>)
        ensures
            match r {
                Some(v) => map_get(self@, name@) == Some(v@),
                None => map_get(self@, name@) is None,
            },
    {
        proof { use_type_invariant(self); }
        match self.position(name) {
            Some(i) => {
                assert(self@[i as int] == self.entries@[i as int]@);
                assert(self.entries@[i as int].values@.len() > 0);
                Some(&self.entries[i].values[0])
            },
            None => None,
        }
    }

    /// Whether there is a value for `name`.
    pub fn contains_key(&self, name: &[u8]) -> (r: bool)
        ensures
            r == has_name(self@, name@),
    {
        self.position(name).is_some()
    }

    /// Sets `value` as the only value for `name`, in the place of those it had.
    pub fn insert(&mut self, name: Vec<u8>, value: Vec<u8>)
        ensures
            final(self)@ == map_insert(old(self)@, name@, value@),
    {
        proof { use_type_invariant(&*self); }
        let ghost m = self@;
        let pos = self.position(name.as_slice());
        let mut entries: Vec<HeaderEntry> = Vec::new();
        std::mem::swap(&mut entries, &mut self.entries);
        let ghost old_entries = entries@;
        assert(old_entries.map_values(|e: HeaderEntry| e@) == m);
        let entry = HeaderEntry { name, values: vec![value] };
        proof {
            assert(entry.values@.map_values(|v: Vec<u8>| v@) =~= seq![value@]);
        }
        match pos {
            Some(i) => {
                let _ = entries.remove(i);
                entries.insert(i, entry);
                proof {
                    assert(entries@ =~= old_entries.update(i as int, entry));
                    let nv = entries@.map_values(|e: HeaderEntry| e@);
                    assert(nv =~= m.update(i as int, (name@, seq![value@])));
                    assert(entries_wf(nv));
                }
            },
            None => {
                entries.push(entry);
                proof {
                    assert(entries@ =~= old_entries.push(entry));
                    let nv = entries@.map_values(|e: HeaderEntry| e@);
                    assert(nv =~= m.push((name@, seq![value@])));
                    assert forall|k: int| 0 <= k < m.len() implies (#[trigger] nv[k]).0 != name@ by {
                        assert(nv[k] == m[k]);
                    }
                    assert(entries_wf(nv));
                }
            },
        }
        self.entries = entries;
    }

    /// Removes `name` and all its values.
    pub fn remove(&mut self, name: &[u8])
        ensures
            final(self)@ == map_remove(old(self)@, name@),
    {
        proof { use_type_invariant(&*self); }
        let ghost m = self@;
        if let Some(i) = self.position(name) {
            let mut entries: Vec<HeaderEntry> = Vec::new();
            std::mem::swap(&mut entries, &mut self.entries);
            let ghost old_entries = entries@;
            assert(old_entries.map_values(|e: HeaderEntry| e@) == m);
            let _ = entries.remove(i);
            proof {
                let nv = entries@.map_values(|e: HeaderEntry| e@);
                assert(nv =~= m.remove(i as int));
                assert forall|a: int, b: int|
                    0 <= a < nv.len() && 0 <= b < nv.len() && a != b implies (#[trigger] nv[a]).0
                    != (#[trigger] nv[b]).0 by {
                    let a0 = if a < i { a } else { a + 1 };
                    let b0 = if b < i { b } else { b + 1 };
                    assert(nv[a] == m[a0]);
                    assert(nv[b] == m[b0]);
                }
                assert forall|a: int| 0 <= a < nv.len() implies (#[trigger] nv[a]).1.len() > 0 by {
                    let a0 = if a < i { a } else { a + 1 };
                    assert(nv[a] == m[a0]);
                }
            }
            self.entries = entries;
        }
    }

    /// Adds `value` for `name`, after the values it already has.
    pub fn append(&mut self, name: Vec<u8>, value: Vec<u8>)
        ensures
            final(self)@ == map_append(old(self)@, name@, value@),
    {
        proof { use_type_invariant(&*self); }
        let ghost m = self@;
        match self.position(name.as_slice()) {
            Some(i) => {
                let mut entries: Vec<HeaderEntry> = Vec::new();
                std::mem::swap(&mut entries, &mut self.entries);
                let ghost old_entries = entries@;
                assert(old_entries.map_values(|e: HeaderEntry| e@) == m);
                let mut entry = entries.remove(i);
                let ghost old_values = entry.values@;
                entry.values.push(value);
                entries.insert(i, entry);
                proof {
                    assert(entries@ =~= old_entries.update(i as int, entry));
                    assert(old_entries[i as int]@ == m[i as int]);
                    assert(entry.values@.map_values(|v: Vec<u8>| v@) =~= m[i as int].1.push(value@));
                    assert(entries@.map_values(|e: HeaderEntry| e@) =~= map_append(m, name@, value@));
                }
                self.entries = entries;
            },
            None => {
                let mut entries: Vec<HeaderEntry> = Vec::new();
                std::mem::swap(&mut entries, &mut self.entries);
                let ghost old_entries = entries@;
                let entry = HeaderEntry { name, values: vec![value] };
                proof {
                    assert(entry.values@.map_values(|v: Vec<u8>| v@) =~= seq![value@]);
                }
                entries.push(entry);
                proof {
                    assert(entries@ =~= old_entries.push(entry));
                    let nv = entries@.map_values(|e: HeaderEntry| e@);
                    assert(nv =~= m.push((name@, seq![value@])));
                    assert forall|k: int| 0 <= k < m.len() implies (#[trigger] nv[k]).0 != name@ by {
                        assert(nv[k] == m[k]);
                    }
                    assert(entries_wf(nv));
                }
                self.entries = entries;
            },
        }
    }
}


/// After `insert`, the name's value is the one inserted, and the map stays well formed.
pub proof fn lemma_insert_get_same(m: Seq<EntryView>, name: Seq<u8>, value: Seq<u8>)
    requires
        entries_wf(m),
    ensures
        map_get(map_insert(m, name, value), name) == Some(value),
        entries_wf(map_insert(m, name, value)),
{
    let r = map_insert(m, name, value);
    if has_name(m, name) {
        let i = name_index(m, name);
        assert(r[i].0 == name);
        assert forall|a: int, b: int|
            0 <= a < r.len() && 0 <= b < r.len() && a != b implies (#[trigger] r[a]).0 != (#[trigger] r[b]).0 by {
            if a != i && b != i {
                assert(r[a] == m[a] && r[b] == m[b]);
            } else if a == i {
                assert(r[b] == m[b]);
                assert(m[i].0 == name);
            } else {
                assert(r[a] == m[a]);
                assert(m[i].0 == name);
            }
        }
        lemma_name_index(r, name, i);
    } else {
        let i = m.len() as int;
        assert(r[i].0 == name);
        assert forall|a: int, b: int|
            0 <= a < r.len() && 0 <= b < r.len() && a != b implies (#[trigger] r[a]).0 != (#[trigger] r[b]).0 by {
            if a < i && b < i {
                assert(r[a] == m[a] && r[b] == m[b]);
            } else if a == i {
                assert(r[b] == m[b]);
            } else {
                assert(r[a] == m[a]);
            }
        }
        assert forall|a: int| 0 <= a < r.len() implies (#[trigger] r[a]).1.len() > 0 by {
            if a < i {
                assert(r[a] == m[a]);
            }
        }
        lemma_name_index(r, name, i);
    }
}

/// `insert` leaves the values of the other names as they were.
pub proof fn lemma_insert_get_other(m: Seq<EntryView>, name: Seq<u8>, value: Seq<u8>, other: Seq<u8>)
    requires
        entries_wf(m),
        other != name,
    ensures
        map_get(map_insert(m, name, value), other) == map_get(m, other),
{
    let r = map_insert(m, name, value);
    lemma_insert_get_same(m, name, value);
    if has_name(m, other) {
        let j = name_index(m, other);
        assert(r[j] == m[j]);
        lemma_name_index(r, other, j);
    } else {
        if has_name(r, other) {
            let j = name_index(r, other);
            if j < m.len() {
                assert(r[j] == m[j] || r[j].0 == name);
                assert(m[j].0 == other || r[j].0 == name);
            }
            assert(false);
        }
    }
}

/// After `remove`, the name has no value.
pub proof fn lemma_remove_get(m: Seq<EntryView>, name: Seq<u8>)
    requires
        entries_wf(m),
    ensures
        map_get(map_remove(m, name), name) is None,
{
    let r = map_remove(m, name);
    if has_name(m, name) {
        let i = name_index(m, name);
        if has_name(r, name) {
            let j = name_index(r, name);
            let j0 = if j < i { j } else { j + 1 };
            assert(r[j] == m[j0]);
            assert(m[j0].0 == name && m[i].0 == name && j0 != i);
            assert(false);
        }
    }
}

/// After `append`, the name's first value is the one it had, or the one appended where
/// it had none.
pub proof fn lemma_append_get(m: Seq<EntryView>, name: Seq<u8>, value: Seq<u8>)
    requires
        entries_wf(m),
    ensures
        map_get(map_append(m, name, value), name) == if has_name(m, name) {
            map_get(m, name)
        } else {
            Some(value)
        },
{
    let r = map_append(m, name, value);
    if has_name(m, name) {
        let i = name_index(m, name);
        assert(r[i].0 == name);
        assert(r[i].1[0] == m[i].1[0]);
        assert forall|a: int, b: int|
            0 <= a < r.len() && 0 <= b < r.len() && a != b implies (#[trigger] r[a]).0 != (#[trigger] r[b]).0 by {
            if a != i {
                assert(r[a] == m[a]);
            }
            if b != i {
                assert(r[b] == m[b]);
            }
        }
        lemma_name_index(r, name, i);
    } else {
        let i = m.len() as int;
        assert(r[i].0 == name);
        assert forall|a: int, b: int|
            0 <= a < r.len() && 0 <= b < r.len() && a != b implies (#[trigger] r[a]).0 != (#[trigger] r[b]).0 by {
            if a < i {
                assert(r[a] == m[a]);
            }
            if b < i {
                assert(r[b] == m[b]);
            }
        }
        lemma_name_index(r, name, i);
    }
}

/// All the values the map holds for `name`, in order; none where it has no entry.
pub open spec fn map_values_of(m: Seq<EntryView>, name: Seq<u8>) -> Seq<Seq<u8>> {
    if has_name(m, name) {
        m[name_index(m, name)].1
    } else {
        Seq::empty()
    }
}

/// `append` adds its value after the values of its name, keeps those of every other
/// name, and leaves the map well formed.
pub proof fn lemma_append_values(m: Seq<EntryView>, name: Seq<u8>, value: Seq<u8>, other: Seq<u8>)
    requires
        entries_wf(m),
    ensures
        entries_wf(map_append(m, name, value)),
        map_values_of(map_append(m, name, value), other) == if other == name {
            map_values_of(m, other).push(value)
        } else {
            map_values_of(m, other)
        },
{
    let r = map_append(m, name, value);
    lemma_append_get(m, name, value);
    let i = if has_name(m, name) {
        name_index(m, name)
    } else {
        m.len() as int
    };
    assert(0 <= i < r.len() && r[i].0 == name);
    assert forall|a: int| 0 <= a < r.len() && a != i implies #[trigger] r[a] == m[a] by {}
    assert forall|a: int| 0 <= a < r.len() implies (#[trigger] r[a]).1.len() > 0 by {
        if a != i {
            assert(r[a] == m[a]);
        }
    }
    lemma_name_index(r, name, i);
    if other != name {
        if has_name(m, other) {
            let j = name_index(m, other);
            assert(j != i);
            assert(r[j] == m[j]);
            lemma_name_index(r, other, j);
        } else if has_name(r, other) {
            let j = name_index(r, other);
            assert(j != i);
            assert(r[j] == m[j]);
            assert(false);
        }
    }
}

} // verus!
