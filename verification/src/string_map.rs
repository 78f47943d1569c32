//! A map from strings to values that remembers the order of its keys.

use vstd::hash_map::StringHashMap;
use vstd::prelude::*;

verus! {

/// A map keyed by strings. Lookup goes through a hash index; the pairs
/// themselves stand in the order in which their keys first came in, so the
/// map can be walked.
#[verifier::reject_recursive_types(V)]
pub struct StringMap<V> {
    store: Store<V>,
}

/// The two halves of a [`StringMap`]: the pairs, and for each key the place
/// of its pair.
#[verifier::reject_recursive_types(V)]
struct Store<V> {
    index: StringHashMap<usize>,
    pairs: Vec<(String, V)>,
}

/// The index and the pairs agree: each pair is indexed under its key, and
/// each indexed key leads to the pair that holds it.
spec fn agree<V>(index: Map<Seq<char>, usize>, pairs: Seq<(String, V)>) -> bool {
    &&& forall|i: int|
        0 <= i < pairs.len() ==> index.contains_key(#[trigger] pairs[i].0@) && index[pairs[i].0@]
            == i
    &&& forall|k: Seq<char>| #[trigger]
        index.contains_key(k) ==> index[k] < pairs.len() && pairs[index[k] as int].0@ == k
}

/// The map that an index and its pairs stand for.
spec fn contents<V>(index: Map<Seq<char>, usize>, pairs: Seq<(String, V)>) -> Map<
    Seq<char>,
    V,
> {
    Map::new(|k: Seq<char>| index.contains_key(k), |k: Seq<char>| pairs[index[k] as int].1)
}

/// `pairs` lists `map`: each pair is a key of `map` with its value, each key
/// of `map` has a pair, and no two pairs share a key.
pub open spec fn lists<V>(pairs: Seq<(String, V)>, map: Map<Seq<char>, V>) -> bool {
    &&& forall|i: int|
        0 <= i < pairs.len() ==> map.contains_key(#[trigger] pairs[i].0@) && map[pairs[i].0@]
            == pairs[i].1
    &&& forall|k: Seq<char>| #[trigger]
        map.contains_key(k) ==> exists|i: int| 0 <= i < pairs.len() && #[trigger] pairs[i].0@ == k
    &&& forall|i: int, j: int|
        0 <= i < j < pairs.len() ==> #[trigger] pairs[i].0@ != #[trigger] pairs[j].0@
}

/// The keys of `pairs`, in their order.
pub open spec fn keys_of<V>(pairs: Seq<(String, V)>) -> Seq<Seq<char>> {
    pairs.map_values(|pair: (String, V)| pair.0@)
}

impl<V> View for StringMap<V> {
    type V = Map<Seq<char>, V>;

    closed spec fn view(&self) -> Map<Seq<char>, V> {
        contents(self.store.index@, self.store.pairs@)
    }
}

impl<V: DeepView> DeepView for StringMap<V> {
    type V = Map<Seq<char>, V::V>;

    open spec fn deep_view(&self) -> Map<Seq<char>, V::V> {
        self@.map_values(|value: V| value.deep_view())
    }
}

fn insert_pair<V>(
    index: &mut StringHashMap<usize>,
    pairs: &mut Vec<(String, V)>,
    key: String,
    value: V,
)
    requires
        agree(old(index)@, old(pairs)@),
    ensures
        agree(final(index)@, final(pairs)@),
        contents(final(index)@, final(pairs)@) == contents(old(index)@, old(pairs)@).insert(
            key@,
            value,
        ),
        keys_of(final(pairs)@) == if old(index)@.contains_key(key@) {
            keys_of(old(pairs)@)
        } else {
            keys_of(old(pairs)@).push(key@)
        },
{
    let found = match index.get(key.as_str()) {
        Some(at) => Some(*at),
        None => None,
    };
    match found {
        Some(at) => {
            pairs[at] = (key, value);
        },
        None => {
            let at = pairs.len();
            index.insert(key.clone(), at);
            pairs.push((key, value));
        },
    }
    assert(contents(index@, pairs@) =~= contents(old(index)@, old(pairs)@).insert(key@, value));
    assert(keys_of(pairs@) =~= if old(index)@.contains_key(key@) {
        keys_of(old(pairs)@)
    } else {
        keys_of(old(pairs)@).push(key@)
    });
}

impl<V> StringMap<V> {
    #[verifier::type_invariant]
    spec fn well_formed(self) -> bool {
        agree(self.store.index@, self.store.pairs@)
    }

    /// The keys of the map, each once, in the order in which they first came
    /// in.
    pub closed spec fn keys(&self) -> Seq<Seq<char>> {
        keys_of(self.store.pairs@)
    }

    /// An empty map.
    pub fn new() -> (map: Self)
        ensures
            map@ == Map::<Seq<char>, V>::empty(),
            map.keys() == Seq::<Seq<char>>::empty(),
    {
        let map = StringMap { store: Store { index: StringHashMap::new(), pairs: Vec::new() } };
        assert(map@ =~= Map::<Seq<char>, V>::empty());
        assert(map.keys() =~= Seq::<Seq<char>>::empty());
        map
    }

    /// Puts `value` under `key`, in place of what stood there. A key that is
    /// new to the map comes last in its order; a key that the map has keeps
    /// its place.
    pub fn insert(&mut self, key: String, value: V)
        ensures
            final(self)@ == old(self)@.insert(key@, value),
            final(self).keys() == if old(self)@.contains_key(key@) {
                old(self).keys()
            } else {
                old(self).keys().push(key@)
            },
    {
        proof {
            use_type_invariant(&*self);
        }
        let mut store = Store { index: StringHashMap::new(), pairs: Vec::new() };
        std::mem::swap(&mut store, &mut self.store);
        insert_pair(&mut store.index, &mut store.pairs, key, value);
        self.store = store;
    }

    /// The value under `key`, if there is one.
    pub fn get(&self, key: &str) -> (value: Option<&V>)
        ensures
            match value {
                Some(v) => self@.contains_key(key@) && *v == self@[key@],
                None => !self@.contains_key(key@),
            },
    {
        proof {
            use_type_invariant(self);
        }
        match self.store.index.get(key) {
            Some(at) => Some(&self.store.pairs[*at].1),
            None => None,
        }
    }

    /// Whether a value stands under `key`.
    pub fn contains_key(&self, key: &str) -> (found: bool)
        ensures
            found == self@.contains_key(key@),
    {
        self.store.index.contains_key(key)
    }

    /// The number of keys.
    pub fn len(&self) -> (len: usize)
        ensures
            len == self@.len(),
    {
        assert(self@.dom() =~= self.store.index@.dom());
        self.store.index.len()
    }

    /// Whether the map has no key.
    pub fn is_empty(&self) -> (empty: bool)
        ensures
            empty == (self@.len() == 0),
    {
        self.len() == 0
    }

    /// The pairs of the map, in the order of its keys.
    pub fn pairs(&self) -> (pairs: &[(String, V)])
        ensures
            lists(pairs@, self@),
            keys_of(pairs@) == self.keys(),
    {
        proof {
            use_type_invariant(self);
        }
        self.store.pairs.as_slice()
    }
}

} // verus!
