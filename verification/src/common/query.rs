//! Query maps: the name-value pairs of a URL query or an urlencoded form.
use vstd::prelude::*;

verus! {

#[verifier::external_type_specification]
#[verifier::external_body]
pub struct ExUrlDecodeError(serde_urlencoded::de::Error);

/// The map a list of pairs makes when each is inserted in turn (a later pair for a name
/// replaces an earlier one).
pub open spec fn pairs_map(pairs: Seq<(Seq<char>, Seq<char>)>) -> Map<Seq<char>, Seq<char>>
    decreases pairs.len(),
{
    if pairs.len() == 0 {
        Map::empty()
    } else {
        pairs_map(pairs.drop_last()).insert(pairs.last().0, pairs.last().1)
    }
}

pub open spec fn pairs_view(v: Seq<(String, String)>) -> Seq<(Seq<char>, Seq<char>)> {
    v.map_values(|p: (String, String)| (p.0@, p.1@))
}

/// No name occurs twice.
pub open spec fn names_unique(pairs: Seq<(Seq<char>, Seq<char>)>) -> bool {
    forall|i: int, j: int| 0 <= i < pairs.len() && 0 <= j < pairs.len() && i != j ==> (#[trigger] pairs[i]).0 != (#[trigger] pairs[j]).0
}

/// What `serde_urlencoded` decodes `data` into, as a map from names to values;
/// `None` where it refuses it.
pub uninterp spec fn form_map(data: Seq<u8>) -> Option<Map<Seq<char>, Seq<char>>>;

/// `serde_urlencoded::from_bytes` into a `HashMap<String, String>`, its entries handed
/// out as pairs (in the map's order, which is not stated): the map they make is
/// `form_map(data)`.
#[verifier::external_body]
pub(crate) fn form_decode(data: &[u8]) -> (r: Result<Vec<(String, String)>, serde_urlencoded::de::Error>)
    ensures
        match r {
            Ok(v) => form_map(data@) == Some(pairs_map(pairs_view(v@))) && names_unique(pairs_view(v@)),
            Err(_) => form_map(data@) is None,
        },
{
    serde_urlencoded::from_bytes::<std::collections::HashMap<String, String>>(data).map(|m| m.into_iter().collect())
}

/// What `serde_urlencoded` decodes `data` into as a list of name-value pairs, in the
/// order they come; `None` where it refuses it.
pub uninterp spec fn form_pairs(data: Seq<u8>) -> Option<Seq<(Seq<char>, Seq<char>)>>;

/// `serde_urlencoded::from_bytes` into a `Vec<(String, String)>`: the pairs are
/// `form_pairs(data)`.
#[verifier::external_body]
pub(crate) fn form_pairs_decode(data: &[u8]) -> (r: Result<Vec<(String, String)>, serde_urlencoded::de::Error>)
    ensures
        match r {
            Ok(v) => form_pairs(data@) == Some(pairs_view(v@)),
            Err(_) => form_pairs(data@) is None,
        },
{
    serde_urlencoded::from_bytes::<Vec<(String, String)>>(data)
}

/// The name-value pairs of a query, each name once.
#[derive(Debug)]
pub struct QueryMap {
    pairs: Vec<(String, String)>,
}

proof fn lemma_unique_pairs_map(pairs: Seq<(Seq<char>, Seq<char>)>, i: int)
    requires
        names_unique(pairs),
        0 <= i < pairs.len(),
    ensures
        pairs_map(pairs).contains_key(pairs[i].0),
        pairs_map(pairs)[pairs[i].0] == pairs[i].1,
    decreases pairs.len(),
{
    if i < pairs.len() - 1 {
        let d = pairs.drop_last();
        assert(d[i] == pairs[i]);
        assert forall|a: int, b: int| 0 <= a < d.len() && 0 <= b < d.len() && a != b implies (#[trigger] d[a]).0 != (#[trigger] d[b]).0 by {
            assert(d[a] == pairs[a] && d[b] == pairs[b]);
        }
        lemma_unique_pairs_map(d, i);
        assert(pairs[pairs.len() - 1].0 != pairs[i].0);
    }
}

proof fn lemma_pairs_map_keys(pairs: Seq<(Seq<char>, Seq<char>)>, name: Seq<char>)
    requires
        forall|i: int| 0 <= i < pairs.len() ==> (#[trigger] pairs[i]).0 != name,
    ensures
        !pairs_map(pairs).contains_key(name),
    decreases pairs.len(),
{
    if pairs.len() > 0 {
        let d = pairs.drop_last();
        assert forall|i: int| 0 <= i < d.len() implies (#[trigger] d[i]).0 != name by {
            assert(d[i] == pairs[i]);
        }
        lemma_pairs_map_keys(d, name);
    }
}

impl View for QueryMap {
    type V = Map<Seq<char>, Seq<char>>;

    closed spec fn view(&self) -> Map<Seq<char>, Seq<char>> {
        pairs_map(pairs_view(self.pairs@))
    }
}

impl QueryMap {
    #[verifier::type_invariant]
    closed spec fn inv(self) -> bool {
        names_unique(pairs_view(self.pairs@))
    }

    /// The query map of `data` decoded as an urlencoded form.
    pub fn decode(data: &[u8]) -> (r: Result<QueryMap, serde_urlencoded::de::Error>)
        ensures
            match r {
                Ok(m) => form_map(data@) == Some(m@),
                Err(_) => form_map(data@) is None,
            },
    {
        match form_decode(data) {
            Ok(pairs) => Ok(QueryMap { pairs }),
            Err(e) => Err(e),
        }
    }

    /// The value for `name`, if any.
    pub fn get(&self, name: &str) -> (r: Option<&String>)
        ensures
            match r {
                Some(v) => self@.contains_key(name@) && self@[name@] == v@,
                None => !self@.contains_key(name@),
            },
    {
        proof {
            use_type_invariant(self);
        }
        let ghost pv = pairs_view(self.pairs@);
        let mut i: usize = 0;
        while i < self.pairs.len()
            invariant
                i <= self.pairs@.len(),
                pv == pairs_view(self.pairs@),
                names_unique(pv),
                forall|j: int| 0 <= j < i ==> (#[trigger] pv[j]).0 != name@,
            decreases self.pairs@.len() - i,
        {
            assert(pv[i as int] == (self.pairs@[i as int].0@, self.pairs@[i as int].1@));
            if crate::common::body::str_eq(self.pairs[i].0.as_str(), name) {
                proof {
                    lemma_unique_pairs_map(pv, i as int);
                }
                return Some(&self.pairs[i].1);
            }
            i += 1;
        }
        proof {
            lemma_pairs_map_keys(pv, name@);
        }
        None
    }
}

} // verus!
