//! Lazily parsed parts of requests and responses, and their state.
use vstd::prelude::*;

use crate::common::query::{form_pairs, form_pairs_decode, pairs_view};

pub mod request;
pub mod response;

verus! {

/// The state of something parsed lazily: parsed (with its value), failed, or not yet
/// parsed.
#[derive(Debug, Clone, Copy)]
pub enum Parse<T> {
    Parsed(T),
    Failed,
    Unparsed,
}

impl<T> Default for Parse<T> {
    fn default() -> (r: Self)
        ensures
            r is Unparsed,
    {
        Parse::Unparsed
    }
}

impl<T> Parse<T> {
    /// Back to not parsed.
    pub fn reset(&mut self)
        ensures
            *final(self) is Unparsed,
    {
        *self = Parse::Unparsed;
    }

    /// Parsed, with `value`.
    pub fn set(&mut self, value: T)
        ensures
            *final(self) == Parse::Parsed(value),
    {
        *self = Parse::Parsed(value);
    }

    pub fn is_parsed(&self) -> (r: bool)
        ensures
            r == (*self is Parsed),
    {
        matches!(self, Parse::Parsed(..))
    }

    pub fn is_failed(&self) -> (r: bool)
        ensures
            r == (*self is Failed),
    {
        matches!(self, Parse::Failed)
    }

    pub fn is_unparsed(&self) -> (r: bool)
        ensures
            r == (*self is Unparsed),
    {
        matches!(self, Parse::Unparsed)
    }

    pub fn is_unparsed_or_failed(&self) -> (r: bool)
        ensures
            r == (*self is Unparsed || *self is Failed),
    {
        matches!(self, Parse::Failed) || matches!(self, Parse::Unparsed)
    }

    /// The same state, with a reference to the value.
    pub fn as_ref(&self) -> (r: Parse<&T>)
        ensures
            match *self {
                Parse::Parsed(v) => r == Parse::Parsed(&v),
                Parse::Failed => r is Failed,
                Parse::Unparsed => r is Unparsed,
            },
    {
        match self {
            Parse::Parsed(inner) => Parse::Parsed(inner),
            Parse::Failed => Parse::Failed,
            Parse::Unparsed => Parse::Unparsed,
        }
    }

    /// The same state, with a mutable reference to the value: what is written through
    /// it is the value afterwards.
    pub fn as_mut(&mut self) -> (r: Parse<&mut T>)
        ensures
            match *old(self) {
                Parse::Parsed(v) => r matches Parse::Parsed(m) && *m == v && *final(self) == Parse::Parsed(
                    *final(m),
                ),
                Parse::Failed => r is Failed && *final(self) is Failed,
                Parse::Unparsed => r is Unparsed && *final(self) is Unparsed,
            },
    {
        match self {
            Parse::Parsed(inner) => Parse::Parsed(inner),
            Parse::Failed => Parse::Failed,
            Parse::Unparsed => Parse::Unparsed,
        }
    }

    /// The parsed value, for writing; only for a parsed state.
    pub fn parsed_inner_mut(&mut self) -> (r: &mut T)
        requires
            *old(self) is Parsed,
        ensures
            *old(self) == Parse::Parsed(*r),
            *final(self) == Parse::Parsed(*final(r)),
    {
        match self {
            Parse::Parsed(inner) => inner,
            _ => vstd::pervasive::unreached(),
        }
    }

    /// The parsed value; only for a parsed state, which the caller vouches for.
    pub fn unwrap_unchecked(self) -> (r: T)
        requires
            self is Parsed,
        ensures
            self == Parse::Parsed(r),
    {
        match self {
            Parse::Parsed(inner) => inner,
            _ => vstd::pervasive::unreached(),
        }
    }

    /// The parsed value; only for a parsed state.
    pub fn unwrap(self) -> (r: T)
        requires
            self is Parsed,
        ensures
            self == Parse::Parsed(r),
    {
        match self {
            Parse::Parsed(inner) => inner,
            _ => vstd::pervasive::unreached(),
        }
    }
}

impl<T: Default> Parse<T> {
    /// Parsed, with the default value.
    pub fn set_default(&mut self)
        ensures
            *final(self) matches Parse::Parsed(v) && call_ensures(T::default, (), v),
    {
        *self = Parse::Parsed(T::default());
    }
}


/// The values of each name of a list of pairs, in the order they come.
pub open spec fn multi_map(pairs: Seq<(Seq<char>, Seq<char>)>) -> Map<Seq<char>, Seq<Seq<char>>>
    decreases pairs.len(),
{
    if pairs.len() == 0 {
        Map::empty()
    } else {
        let m = multi_map(pairs.drop_last());
        let (k, v) = pairs.last();
        m.insert(
            k,
            if m.contains_key(k) {
                m[k].push(v)
            } else {
                seq![v]
            },
        )
    }
}

/// The names and values of a list of groups.
pub open spec fn groups_view(g: Seq<(String, Vec<String>)>) -> Seq<(Seq<char>, Seq<Seq<char>>)> {
    g.map_values(|e: (String, Vec<String>)| (e.0@, e.1@.map_values(|v: String| v@)))
}

/// The map from the name of each group to its values.
pub open spec fn groups_map(g: Seq<(Seq<char>, Seq<Seq<char>>)>) -> Map<Seq<char>, Seq<Seq<char>>> {
    Map::new(
        |k: Seq<char>| exists|i: int| 0 <= i < g.len() && (#[trigger] g[i]).0 == k,
        |k: Seq<char>| g[choose|i: int| 0 <= i < g.len() && (#[trigger] g[i]).0 == k].1,
    )
}

/// No group name occurs twice.
pub open spec fn group_names_unique(g: Seq<(Seq<char>, Seq<Seq<char>>)>) -> bool {
    forall|i: int, j: int| 0 <= i < g.len() && 0 <= j < g.len() && i != j ==> (#[trigger] g[i]).0 != (#[trigger] g[j]).0
}

proof fn lemma_groups_map_at(g: Seq<(Seq<char>, Seq<Seq<char>>)>, i: int)
    requires
        group_names_unique(g),
        0 <= i < g.len(),
    ensures
        groups_map(g).contains_key(g[i].0),
        groups_map(g)[g[i].0] == g[i].1,
{
    let k = g[i].0;
    assert(groups_map(g).contains_key(k));
    let j = choose|j: int| 0 <= j < g.len() && (#[trigger] g[j]).0 == k;
    assert(0 <= j < g.len() && g[j].0 == k);
}

proof fn lemma_groups_map_update(g: Seq<(Seq<char>, Seq<Seq<char>>)>, i: int, vs: Seq<Seq<char>>)
    requires
        group_names_unique(g),
        0 <= i < g.len(),
    ensures
        group_names_unique(g.update(i, (g[i].0, vs))),
        groups_map(g.update(i, (g[i].0, vs))) =~= groups_map(g).insert(g[i].0, vs),
{
    let g2 = g.update(i, (g[i].0, vs));
    assert forall|a: int, b: int| 0 <= a < g2.len() && 0 <= b < g2.len() && a != b implies (#[trigger] g2[a]).0
        != (#[trigger] g2[b]).0 by {
        assert(g2[a].0 == g[a].0);
        assert(g2[b].0 == g[b].0);
    }
    let m = groups_map(g);
    let m2 = groups_map(g2);
    assert forall|k: Seq<char>| m2.contains_key(k) <==> m.insert(g[i].0, vs).contains_key(k) by {
        if m2.contains_key(k) {
            let j = choose|j: int| 0 <= j < g2.len() && (#[trigger] g2[j]).0 == k;
            assert(g[j].0 == k);
        }
        if m.contains_key(k) {
            let j = choose|j: int| 0 <= j < g.len() && (#[trigger] g[j]).0 == k;
            assert(g2[j].0 == k);
        }
        if k == g[i].0 {
            assert(g2[i].0 == k);
        }
    }
    assert forall|k: Seq<char>| #[trigger] m2.contains_key(k) implies m2[k] == m.insert(g[i].0, vs)[k] by {
        let j = choose|j: int| 0 <= j < g2.len() && (#[trigger] g2[j]).0 == k;
        lemma_groups_map_at(g2, j);
        if j != i {
            assert(g2[j] == g[j]);
            lemma_groups_map_at(g, j);
            assert(g[j].0 != g[i].0);
        }
    }
}

proof fn lemma_groups_map_push(g: Seq<(Seq<char>, Seq<Seq<char>>)>, k: Seq<char>, vs: Seq<Seq<char>>)
    requires
        group_names_unique(g),
        !groups_map(g).contains_key(k),
    ensures
        group_names_unique(g.push((k, vs))),
        groups_map(g.push((k, vs))) =~= groups_map(g).insert(k, vs),
{
    let g2 = g.push((k, vs));
    assert forall|a: int| 0 <= a < g.len() implies (#[trigger] g[a]).0 != k by {
        if g[a].0 == k {
            assert(groups_map(g).contains_key(k));
        }
    }
    assert forall|a: int, b: int| 0 <= a < g2.len() && 0 <= b < g2.len() && a != b implies (#[trigger] g2[a]).0
        != (#[trigger] g2[b]).0 by {
        if a < g.len() {
            assert(g2[a] == g[a]);
        }
        if b < g.len() {
            assert(g2[b] == g[b]);
        }
    }
    let m = groups_map(g);
    let m2 = groups_map(g2);
    assert forall|x: Seq<char>| m2.contains_key(x) <==> m.insert(k, vs).contains_key(x) by {
        if m2.contains_key(x) {
            let j = choose|j: int| 0 <= j < g2.len() && (#[trigger] g2[j]).0 == x;
            if j < g.len() {
                assert(g[j].0 == x);
            }
        }
        if m.contains_key(x) {
            let j = choose|j: int| 0 <= j < g.len() && (#[trigger] g[j]).0 == x;
            assert(g2[j].0 == x);
        }
        if x == k {
            assert(g2[g.len() as int].0 == k);
        }
    }
    assert forall|x: Seq<char>| #[trigger] m2.contains_key(x) implies m2[x] == m.insert(k, vs)[x] by {
        let j = choose|j: int| 0 <= j < g2.len() && (#[trigger] g2[j]).0 == x;
        lemma_groups_map_at(g2, j);
        if j < g.len() {
            assert(g2[j] == g[j]);
            lemma_groups_map_at(g, j);
        }
    }
}

/// The values given for each name of a query or a form, in the order they came.
#[derive(Debug)]
pub struct QueryMap {
    groups: Vec<(String, Vec<String>)>,
}

impl View for QueryMap {
    type V = Map<Seq<char>, Seq<Seq<char>>>;

    closed spec fn view(&self) -> Map<Seq<char>, Seq<Seq<char>>> {
        groups_map(groups_view(self.groups@))
    }
}

impl QueryMap {
    #[verifier::type_invariant]
    closed spec fn inv(self) -> bool {
        group_names_unique(groups_view(self.groups@))
    }

    /// No name.
    pub fn new() -> (r: Self)
        ensures
            r@ == Map::<Seq<char>, Seq<Seq<char>>>::empty(),
    {
        let r = QueryMap { groups: Vec::new() };
        assert(r@ =~= Map::<Seq<char>, Seq<Seq<char>>>::empty());
        r
    }

    /// The position of the group named `name`.
    fn position(&self, name: &str) -> (r: Option<usize>)
        ensures
            match r {
                Some(i) => i < self.groups@.len() && self.groups@[i as int].0@ == name@,
                None => forall|i: int| 0 <= i < self.groups@.len() ==> self.groups@[i].0@ != name@,
            },
    {
        let mut i: usize = 0;
        while i < self.groups.len()
            invariant
                i <= self.groups@.len(),
                forall|j: int| 0 <= j < i ==> self.groups@[j].0@ != name@,
            decreases self.groups@.len() - i,
        {
            if crate::common::body::str_eq(self.groups[i].0.as_str(), name) {
                return Some(i);
            }
            i += 1;
        }
        None
    }

    /// The map of `pairs`: each value after the others given for its name.
    pub fn from_pairs(pairs: Vec<(String, String)>) -> (r: Self)
        ensures
            r@ == multi_map(pairs_view(pairs@)),
    {
        let ghost pv = pairs_view(pairs@);
        let mut m = QueryMap::new();
        let mut i: usize = 0;
        while i < pairs.len()
            invariant
                i <= pairs@.len(),
                pv == pairs_view(pairs@),
                m@ == multi_map(pv.take(i as int)),
            decreases pairs@.len() - i,
        {
            let k = pairs[i].0.clone();
            let v = pairs[i].1.clone();
            assert(k@ == pv[i as int].0 && v@ == pv[i as int].1);
            m.push_value(k, v);
            proof {
                assert(pv.take(i + 1).drop_last() =~= pv.take(i as int));
                assert(pv.take(i + 1).last() == pv[i as int]);
            }
            i += 1;
        }
        assert(pv.take(i as int) =~= pv);
        m
    }

    /// Adds `value` after the values of `name`.
    fn push_value(&mut self, name: String, value: String)
        ensures
            final(self)@ == old(self)@.insert(
                name@,
                if old(self)@.contains_key(name@) {
                    old(self)@[name@].push(value@)
                } else {
                    seq![value@]
                },
            ),
    {
        proof {
            use_type_invariant(&*self);
        }
        let ghost g = groups_view(self.groups@);
        match self.position(name.as_str()) {
            Some(i) => {
                let ghost vs = g[i as int].1.push(value@);
                proof {
                    lemma_groups_map_at(g, i as int);
                }
                let mut groups: Vec<(String, Vec<String>)> = Vec::new();
                std::mem::swap(&mut groups, &mut self.groups);
                let (k, mut values) = groups.remove(i);
                values.push(value);
                let ghost e = (k, values);
                groups.insert(i, (k, values));
                proof {
                    assert(e.1@.map_values(|v: String| v@) =~= vs);
                    assert(groups_view(groups@) =~= g.update(i as int, (g[i as int].0, vs)));
                    lemma_groups_map_update(g, i as int, vs);
                }
                self.groups = groups;
            },
            None => {
                proof {
                    if groups_map(g).contains_key(name@) {
                        let j = choose|j: int| 0 <= j < g.len() && (#[trigger] g[j]).0 == name@;
                        assert(self.groups@[j].0@ == name@);
                    }
                    lemma_groups_map_push(g, name@, seq![value@]);
                }
                let mut values: Vec<String> = Vec::new();
                values.push(value);
                let mut groups: Vec<(String, Vec<String>)> = Vec::new();
                std::mem::swap(&mut groups, &mut self.groups);
                let ghost e = (name, values);
                groups.push((name, values));
                proof {
                    assert(e.1@.map_values(|v: String| v@) =~= seq![value@]);
                    assert(groups_view(groups@) =~= g.push((name@, seq![value@])));
                }
                self.groups = groups;
            },
        }
    }

    /// The map of the urlencoded form `data`.
    pub fn decode(data: &[u8]) -> (r: Result<QueryMap, serde_urlencoded::de::Error>)
        ensures
            match r {
                Ok(m) => form_pairs(data@) matches Some(ps) && m@ == multi_map(ps),
                Err(_) => form_pairs(data@) is None,
            },
    {
        match form_pairs_decode(data) {
            Ok(pairs) => Ok(QueryMap::from_pairs(pairs)),
            Err(e) => Err(e),
        }
    }

    /// The values of `name`, in order, if it has any.
    pub fn get(&self, name: &str) -> (r: Option<&Vec<String>>)
        ensures
            match r {
                Some(vs) => self@.contains_key(name@) && self@[name@] == vs@.map_values(|v: String| v@),
                None => !self@.contains_key(name@),
            },
    {
        proof {
            use_type_invariant(self);
        }
        let ghost g = groups_view(self.groups@);
        match self.position(name) {
            Some(i) => {
                proof {
                    lemma_groups_map_at(g, i as int);
                }
                Some(&self.groups[i].1)
            },
            None => {
                proof {
                    if groups_map(g).contains_key(name@) {
                        let j = choose|j: int| 0 <= j < g.len() && (#[trigger] g[j]).0 == name@;
                        assert(self.groups@[j].0@ == name@);
                    }
                }
                None
            },
        }
    }
}

} // verus!
