//! A snapshot map keyed by relative path strings.
//!
//! The map is a pair of parallel vectors with unique keys; its mathematical
//! view is a `Map<Seq<char>, V>`. Lookups are linear, which is fine for the
//! library's verification-oriented core: the contracts, not the constant
//! factors, are what this type is for.

use vstd::prelude::*;

verus! {

/// The map described by the first `n` key/value pairs, later pairs winning.
pub open spec fn kv_map_rec<V>(keys: Seq<Seq<char>>, vals: Seq<V>, n: int) -> Map<Seq<char>, V>
    decreases n,
{
    if n <= 0 {
        Map::empty()
    } else {
        kv_map_rec(keys, vals, n - 1).insert(keys[n - 1], vals[n - 1])
    }
}

/// With distinct keys, the recursive map contains exactly the first `n`
/// pairs, and its domain has exactly `n` elements.
proof fn lemma_kv_rec_props<V>(keys: Seq<Seq<char>>, vals: Seq<V>, n: int)
    requires
        0 <= n <= keys.len(),
        keys.len() == vals.len(),
        forall|i: int, j: int| 0 <= i < j < keys.len() ==> keys[i] != keys[j],
    ensures
        forall|k: Seq<char>|
            #[trigger] kv_map_rec(keys, vals, n).contains_key(k) <==> exists|i: int|
                0 <= i < n && keys[i] == k,
        forall|i: int| 0 <= i < n ==> kv_map_rec(keys, vals, n)[#[trigger] keys[i]] == vals[i],
        kv_map_rec(keys, vals, n).dom().finite(),
        kv_map_rec(keys, vals, n).dom().len() == n,
    decreases n,
{
    if n > 0 {
        lemma_kv_rec_props(keys, vals, n - 1);
        let m0 = kv_map_rec(keys, vals, n - 1);
        assert(!m0.contains_key(keys[n - 1]));
        assert(kv_map_rec(keys, vals, n).dom() =~= m0.dom().insert(keys[n - 1]));
    }
}

/// The recursive map reads only the first `n` pairs: sequences that agree
/// there give the same map.
proof fn lemma_kv_rec_prefix<V>(
    keys1: Seq<Seq<char>>,
    vals1: Seq<V>,
    keys2: Seq<Seq<char>>,
    vals2: Seq<V>,
    n: int,
)
    requires
        0 <= n <= keys1.len(),
        n <= keys2.len(),
        n <= vals1.len(),
        n <= vals2.len(),
        forall|i: int| 0 <= i < n ==> keys1[i] == keys2[i] && vals1[i] == vals2[i],
    ensures
        kv_map_rec(keys1, vals1, n) == kv_map_rec(keys2, vals2, n),
    decreases n,
{
    if n > 0 {
        lemma_kv_rec_prefix(keys1, vals1, keys2, vals2, n - 1);
    }
}

/// Updating the value at position `i` is inserting over its key.
proof fn lemma_kv_rec_update<V>(keys: Seq<Seq<char>>, vals: Seq<V>, n: int, i: int, v: V)
    requires
        0 <= i < n <= keys.len(),
        keys.len() == vals.len(),
        forall|i: int, j: int| 0 <= i < j < keys.len() ==> keys[i] != keys[j],
    ensures
        kv_map_rec(keys, vals.update(i, v), n) == kv_map_rec(keys, vals, n).insert(keys[i], v),
    decreases n,
{
    let vals2 = vals.update(i, v);
    if i == n - 1 {
        lemma_kv_rec_prefix(keys, vals2, keys, vals, n - 1);
        assert(kv_map_rec(keys, vals2, n) =~= kv_map_rec(keys, vals, n).insert(keys[i], v));
    } else {
        lemma_kv_rec_update(keys, vals, n - 1, i, v);
        assert(keys[i] != keys[n - 1]);
        assert(kv_map_rec(keys, vals2, n) =~= kv_map_rec(keys, vals, n).insert(keys[i], v));
    }
}

/// A map from relative path strings to values of type `V`, with unique keys.
pub struct PathMap<V> {
    keys: Vec<String>,
    vals: Vec<V>,
}

impl<V> View for PathMap<V> {
    type V = Map<Seq<char>, V>;

    closed spec fn view(&self) -> Map<Seq<char>, V> {
        kv_map_rec(self.keys.deep_view(), self.vals@, self.keys.len() as int)
    }
}

impl<V> PathMap<V> {
    /// The keys in insertion order; one entry per key of the map's domain.
    pub closed spec fn spec_keys(&self) -> Seq<Seq<char>> {
        self.keys.deep_view()
    }

    #[verifier::type_invariant]
    spec fn wf(&self) -> bool {
        &&& self.keys.len() == self.vals.len()
        &&& forall|i: int, j: int|
            0 <= i < j < self.keys.len() ==> self.keys.deep_view()[i] != self.keys.deep_view()[j]
    }

    proof fn props(&self)
        requires
            self.wf(),
        ensures
            forall|k: Seq<char>|
                #[trigger] self@.contains_key(k) <==> exists|i: int|
                    0 <= i < self.spec_keys().len() && self.spec_keys()[i] == k,
            forall|i: int|
                0 <= i < self.spec_keys().len() ==> self@[#[trigger] self.spec_keys()[i]]
                    == self.vals@[i],
            self@.dom().finite(),
            self@.dom().len() == self.spec_keys().len(),
    {
        lemma_kv_rec_props(self.keys.deep_view(), self.vals@, self.keys.len() as int);
    }

    /// Establish that the keys listed by [`Self::spec_keys`] are distinct
    /// and are exactly the map's domain. The call does nothing at run time;
    /// its contract carries the facts to the caller.
    pub fn key_facts(&self)
        ensures
            self@.dom().finite(),
            self@.dom().len() == self.spec_keys().len(),
            forall|i: int, j: int|
                0 <= i < j < self.spec_keys().len() ==> self.spec_keys()[i] != self.spec_keys()[j],
            forall|i: int|
                0 <= i < self.spec_keys().len() ==> self@.contains_key(#[trigger] self.spec_keys()[i]),
            forall|k: Seq<char>|
                #[trigger] self@.contains_key(k) ==> exists|i: int|
                    0 <= i < self.spec_keys().len() && self.spec_keys()[i] == k,
    {
        proof {
            use_type_invariant(self);
            self.props();
        }
    }

    /// An empty map.
    pub fn new() -> (r: PathMap<V>)
        ensures
            r@ == Map::<Seq<char>, V>::empty(),
            r.spec_keys() == Seq::<Seq<char>>::empty(),
    {
        let r = PathMap { keys: Vec::new(), vals: Vec::new() };
        assert(r.keys.deep_view() =~= Seq::<Seq<char>>::empty());
        r
    }

    /// How many paths the map holds.
    pub fn len(&self) -> (r: usize)
        ensures
            r == self@.dom().len(),
            r == self.spec_keys().len(),
    {
        proof {
            use_type_invariant(self);
            self.props();
        }
        self.keys.len()
    }

    /// The position of `k` among the keys, if present.
    fn index_of(&self, k: &str) -> (r: Option<usize>)
        ensures
            match r {
                Some(i) => i < self.spec_keys().len() && self.spec_keys()[i as int] == k@,
                None => forall|i: int|
                    0 <= i < self.spec_keys().len() ==> self.spec_keys()[i] != k@,
            },
    {
        proof {
            use_type_invariant(self);
        }
        let mut i: usize = 0;
        while i < self.keys.len()
            invariant
                i <= self.spec_keys().len(),
                self.spec_keys().len() == self.keys.len(),
                forall|j: int| 0 <= j < i ==> self.spec_keys()[j] != k@,
            decreases self.keys.len() - i,
        {
            if crate::chars::chars_eq(&crate::chars::chars_of(self.keys[i].as_str()), &crate::chars::chars_of(k)) {
                return Some(i);
            }
            i = i + 1;
        }
        None
    }

    /// Whether the map holds a value for path `k`.
    pub fn contains_key(&self, k: &str) -> (r: bool)
        ensures
            r == self@.contains_key(k@),
    {
        proof {
            use_type_invariant(self);
            self.props();
        }
        match self.index_of(k) {
            Some(_) => true,
            None => false,
        }
    }

    /// The value stored for path `k`, if any.
    pub fn get(&self, k: &str) -> (r: Option<&V>)
        ensures
            match r {
                Some(v) => self@.contains_key(k@) && *v == self@[k@],
                None => !self@.contains_key(k@),
            },
    {
        proof {
            use_type_invariant(self);
            self.props();
        }
        match self.index_of(k) {
            Some(i) => Some(&self.vals[i]),
            None => None,
        }
    }

    /// Insert or replace the value for path `k`.
    pub fn insert(&mut self, k: String, v: V)
        ensures
            final(self)@ == old(self)@.insert(k@, v),
            old(self)@.contains_key(k@) ==> final(self).spec_keys() == old(self).spec_keys(),
            !old(self)@.contains_key(k@) ==> final(self).spec_keys() == old(self).spec_keys().push(
                k@,
            ),
    {
        proof {
            use_type_invariant(&*self);
            self.props();
        }
        let ghost keys0 = self.keys.deep_view();
        let ghost vals0 = self.vals@;
        let ghost n = self.keys.len() as int;
        let idx = self.index_of(k.as_str());
        let mut tmp = PathMap::new();
        core::mem::swap(self, &mut tmp);
        let PathMap { mut keys, mut vals } = tmp;
        match idx {
            Some(i) => {
                vals[i] = v;
                proof {
                    lemma_kv_rec_update(keys0, vals0, n, i as int, v);
                }
            },
            None => {
                keys.push(k);
                vals.push(v);
                proof {
                    assert(keys.deep_view() =~= keys0.push(k@));
                    assert(forall|i: int| 0 <= i < n ==> keys.deep_view()[i] == keys0[i]);
                    lemma_kv_rec_prefix(keys.deep_view(), vals@, keys0, vals0, n);
                }
            },
        }
        let mut replacement = PathMap { keys, vals };
        core::mem::swap(self, &mut replacement);
    }

    /// The key at position `i`, for iterating the map.
    pub fn key_at(&self, i: usize) -> (r: &String)
        requires
            i < self.spec_keys().len(),
        ensures
            r@ == self.spec_keys()[i as int],
            self@.contains_key(r@),
    {
        proof {
            use_type_invariant(self);
            self.props();
        }
        &self.keys[i]
    }

    /// The value at position `i`, paired with [`Self::key_at`].
    pub fn val_at(&self, i: usize) -> (r: &V)
        requires
            i < self.spec_keys().len(),
        ensures
            *r == self@[self.spec_keys()[i as int]],
    {
        proof {
            use_type_invariant(self);
            self.props();
        }
        &self.vals[i]
    }
}

} // verus!
