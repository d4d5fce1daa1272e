//! Small finite maps and sets keyed by view, with distinct keys.
use vstd::prelude::*;

verus! {

/// A key that can be compared and copied by its view.
pub trait MapKey: View + Sized {
    fn same_key(&self, other: &Self) -> (r: bool)
        ensures
            r == (self@ == other@),
    ;

    fn copy_key(&self) -> (r: Self)
        ensures
            r@ == self@,
    ;
}

impl MapKey for String {
    fn same_key(&self, other: &Self) -> (r: bool) {
        *self == *other
    }

    fn copy_key(&self) -> (r: Self) {
        self.clone()
    }
}

impl MapKey for u32 {
    fn same_key(&self, other: &Self) -> (r: bool) {
        *self == *other
    }

    fn copy_key(&self) -> (r: Self) {
        *self
    }
}

impl MapKey for usize {
    fn same_key(&self, other: &Self) -> (r: bool) {
        *self == *other
    }

    fn copy_key(&self) -> (r: Self) {
        *self
    }
}

/// Mapping the values of a map commutes with inserting into it.
pub proof fn lemma_map_values_insert<K, V, W>(m: Map<K, V>, k: K, v: V, f: spec_fn(V) -> W)
    ensures
        m.insert(k, v).map_values(f) == m.map_values(f).insert(k, f(v)),
{
    assert(m.insert(k, v).map_values(f) =~= m.map_values(f).insert(k, f(v)));
}

/// The `x` for which `p(i, x)` holds for some `i` in `0..j`.
pub open spec fn prefix_union(p: spec_fn(int, u32) -> bool, j: int) -> Set<u32> {
    Set::new(|x: u32| exists|i: int| 0 <= i < j && #[trigger] p(i, x))
}

/// Taking index `j` into a prefix union adds what `j` contributes.
pub proof fn lemma_prefix_union_step(base: Set<u32>, p: spec_fn(int, u32) -> bool, j: int, added: Set<u32>)
    requires
        0 <= j,
        forall|x: u32| #[trigger] added.contains(x) <==> p(j, x),
    ensures
        base.union(prefix_union(p, j)).union(added) == base.union(prefix_union(p, j + 1)),
{
    assert forall|x: u32| #[trigger] prefix_union(p, j + 1).contains(x) implies prefix_union(p, j).contains(x)
        || added.contains(x) by {
        let i = choose|i: int| 0 <= i < j + 1 && #[trigger] p(i, x);
        if i == j {
            assert(added.contains(x));
        }
    }
    assert forall|x: u32| #[trigger] added.contains(x) implies prefix_union(p, j + 1).contains(x) by {
        assert(p(j, x));
    }
    assert forall|x: u32| #[trigger] prefix_union(p, j).contains(x) implies prefix_union(p, j + 1).contains(x) by {
        let i = choose|i: int| 0 <= i < j && #[trigger] p(i, x);
        assert(p(i, x));
    }
    assert(base.union(prefix_union(p, j)).union(added) =~= base.union(prefix_union(p, j + 1)));
}

/// Taken over all positions of `m`, a prefix union is the union over `m`'s values.
pub proof fn lemma_prefix_union_all<K: MapKey, V>(m: AssocMap<K, V>, g: spec_fn(V, u32) -> bool)
    requires
        forall|i: int| 0 <= i < m.spec_len() ==> m@.contains_key(#[trigger] m.spec_key(i)),
        forall|k: K::V| #[trigger] m@.contains_key(k) ==> exists|i: int| 0 <= i < m.spec_len() && m.spec_key(i) == k,
    ensures
        prefix_union(|i: int, x: u32| g(m@[m.spec_key(i)], x), m.spec_len() as int)
            == Set::new(|x: u32| exists|k: K::V| #[trigger] m@.contains_key(k) && g(m@[k], x)),
{
    let p = |i: int, x: u32| g(m@[m.spec_key(i)], x);
    let n = m.spec_len() as int;
    let q = Set::new(|x: u32| exists|k: K::V| #[trigger] m@.contains_key(k) && g(m@[k], x));
    assert forall|x: u32| #[trigger] prefix_union(p, n).contains(x) implies q.contains(x) by {
        let i = choose|i: int| 0 <= i < n && #[trigger] p(i, x);
        assert(m@.contains_key(m.spec_key(i)));
    }
    assert forall|x: u32| #[trigger] q.contains(x) implies prefix_union(p, n).contains(x) by {
        let k = choose|k: K::V| #[trigger] m@.contains_key(k) && g(m@[k], x);
        let i = choose|i: int| 0 <= i < n && m.spec_key(i) == k;
        assert(p(i, x));
    }
    assert(prefix_union(p, n) =~= q);
}

/// A finite set of keys, stored without repetition.
pub struct KeySet<K: MapKey> {
    items: Vec<K>,
}

impl<K: MapKey> View for KeySet<K> {
    type V = Set<K::V>;

    closed spec fn view(&self) -> Set<K::V> {
        Set::new(|k: K::V| exists|i: int| 0 <= i < self.items@.len() && #[trigger] self.items@[i]@ == k)
    }
}

impl<K: MapKey> KeySet<K> {
    #[verifier::type_invariant]
    closed spec fn distinct(self) -> bool {
        forall|i: int, j: int|
            0 <= i < j < self.items@.len() ==> #[trigger] self.items@[i]@ != #[trigger] self.items@[j]@
    }

    /// Number of stored keys.
    pub closed spec fn spec_len(&self) -> nat {
        self.items@.len()
    }

    /// The view of the key stored at position `i`.
    pub closed spec fn spec_item(&self, i: int) -> K::V {
        self.items@[i]@
    }

    pub fn new() -> (r: Self)
        ensures
            r@ == Set::<K::V>::empty(),
            r.spec_len() == 0,
    {
        let r = KeySet { items: Vec::new() };
        assert(r@ =~= Set::<K::V>::empty());
        r
    }

    /// The number of keys; also relates positions to the set.
    pub fn len(&self) -> (r: usize)
        ensures
            r == self.spec_len(),
            forall|i: int| 0 <= i < r ==> self@.contains(#[trigger] self.spec_item(i)),
            forall|k: K::V| #[trigger] self@.contains(k) ==> exists|i: int| 0 <= i < r && self.spec_item(i) == k,
            forall|i: int, j: int| 0 <= i < j < r ==> #[trigger] self.spec_item(i) != #[trigger] self.spec_item(j),
            self@.finite(),
            self@.len() == r,
    {
        proof {
            use_type_invariant(self);
            self.lemma_finite_len();
            assert forall|k: K::V| #[trigger] self@.contains(k) implies exists|i: int| 0 <= i < self.items@.len() && self.spec_item(i) == k by {
                let i = choose|i: int| 0 <= i < self.items@.len() && #[trigger] self.items@[i]@ == k;
                assert(self.spec_item(i) == k);
            }
        }
        self.items.len()
    }

    proof fn lemma_finite_len(&self)
        requires
            self.distinct(),
        ensures
            self@.finite(),
            self@.len() == self.items@.len(),
        decreases self.items@.len(),
    {
        let s = self.items@;
        let mapped = s.map_values(|x: K| x@);
        assert(mapped.no_duplicates()) by {
            assert forall|i: int, j: int| 0 <= i < mapped.len() && 0 <= j < mapped.len() && i != j implies mapped[i] != mapped[j] by {
                if i < j {
                    assert(s[i]@ != s[j]@);
                } else {
                    assert(s[j]@ != s[i]@);
                }
            }
        }
        assert(self@ =~= mapped.to_set()) by {
            assert forall|k: K::V| self@.contains(k) implies mapped.to_set().contains(k) by {
                let i = choose|i: int| 0 <= i < s.len() && #[trigger] s[i]@ == k;
                assert(mapped[i] == k);
            }
            assert forall|k: K::V| mapped.to_set().contains(k) implies self@.contains(k) by {
                let i = choose|i: int| 0 <= i < mapped.len() && #[trigger] mapped[i] == k;
                assert(s[i]@ == k);
            }
        }
        mapped.unique_seq_to_set();
    }

    pub fn item_at(&self, i: usize) -> (r: &K)
        requires
            i < self.spec_len(),
        ensures
            r@ == self.spec_item(i as int),
            self@.contains(r@),
    {
        assert(self.items@[i as int]@ == self.spec_item(i as int));
        &self.items[i]
    }

    pub fn is_empty(&self) -> (r: bool)
        ensures
            r == (self@ == Set::<K::V>::empty()),
    {
        if self.items.len() == 0 {
            assert(self@ =~= Set::<K::V>::empty());
            true
        } else {
            assert(self@.contains(self.items@[0]@));
            false
        }
    }

    fn position(&self, k: &K) -> (r: Option<usize>)
        ensures
            match r {
                Some(i) => i < self.items@.len() && self.items@[i as int]@ == k@,
                None => !self@.contains(k@),
            },
    {
        let n = self.items.len();
        let mut i: usize = 0;
        while i < n
            invariant
                n == self.items@.len(),
                i <= n,
                forall|j: int| 0 <= j < i ==> self.items@[j]@ != k@,
            decreases n - i,
        {
            if self.items[i].same_key(k) {
                return Some(i);
            }
            i = i + 1;
        }
        None
    }

    pub fn contains(&self, k: &K) -> (r: bool)
        ensures
            r == self@.contains(k@),
    {
        match self.position(k) {
            Some(_) => true,
            None => false,
        }
    }

    /// Adds `k`; answers whether it was absent before.
    pub fn insert(&mut self, k: K) -> (r: bool)
        ensures
            final(self)@ == old(self)@.insert(k@),
            r == !old(self)@.contains(k@),
    {
        proof {
            use_type_invariant(&*self);
        }
        match self.position(&k) {
            Some(_) => {
                assert(old(self)@.insert(k@) =~= old(self)@);
                false
            },
            None => {
                let ghost kv = k@;
                let mut items: Vec<K> = Vec::new();
                std::mem::swap(&mut items, &mut self.items);
                items.push(k);
                self.items = items;
                assert(self@ =~= old(self)@.insert(kv)) by {
                    let n = old(self).items@.len();
                    assert(self.items@[n as int]@ == kv);
                    assert forall|x: K::V| old(self)@.contains(x) implies self@.contains(x) by {
                        let i = choose|i: int| 0 <= i < n && #[trigger] old(self).items@[i]@ == x;
                        assert(self.items@[i] == old(self).items@[i]);
                    }
                    assert forall|x: K::V| self@.contains(x) && x != kv implies old(self)@.contains(x) by {
                        let i = choose|i: int| 0 <= i < n + 1 && #[trigger] self.items@[i]@ == x;
                        assert(self.items@[i] == old(self).items@[i]);
                    }
                }
                true
            },
        }
    }

    /// Adds every key of `other`.
    pub fn extend_from(&mut self, other: &KeySet<K>)
        ensures
            final(self)@ == old(self)@.union(other@),
    {
        let n = other.len();
        let mut i: usize = 0;
        while i < n
            invariant
                n == other.spec_len(),
                i <= n,
                forall|j: int| 0 <= j < n ==> other@.contains(#[trigger] other.spec_item(j)),
                forall|k: K::V| #[trigger] other@.contains(k) ==> exists|j: int| 0 <= j < n && other.spec_item(j) == k,
                self@ == old(self)@.union(Set::new(|k: K::V| exists|j: int| 0 <= j < i && other.spec_item(j) == k)),
            decreases n - i,
        {
            let k = other.item_at(i).copy_key();
            self.insert(k);
            i = i + 1;
            assert(self@ =~= old(self)@.union(Set::new(|k: K::V| exists|j: int| 0 <= j < i && other.spec_item(j) == k))) by {
                assert(other.spec_item(i - 1) == k@);
            }
        }
        assert(self@ =~= old(self)@.union(other@));
    }
}

/// A finite map with distinct keys, kept in insertion order.
pub struct AssocMap<K: MapKey, V> {
    entries: Vec<(K, V)>,
}

impl<K: MapKey, V> View for AssocMap<K, V> {
    type V = Map<K::V, V>;

    closed spec fn view(&self) -> Map<K::V, V> {
        Map::new(
            |k: K::V| exists|i: int| 0 <= i < self.entries@.len() && #[trigger] self.entries@[i].0@ == k,
            |k: K::V| self.entries@[choose|i: int| 0 <= i < self.entries@.len() && #[trigger] self.entries@[i].0@ == k].1,
        )
    }
}

impl<K: MapKey, V> AssocMap<K, V> {
    #[verifier::type_invariant]
    closed spec fn distinct(self) -> bool {
        forall|i: int, j: int|
            0 <= i < j < self.entries@.len() ==> #[trigger] self.entries@[i].0@ != #[trigger] self.entries@[j].0@
    }

    /// Number of entries.
    pub closed spec fn spec_len(&self) -> nat {
        self.entries@.len()
    }

    /// The view of the key of the entry at position `i`.
    pub closed spec fn spec_key(&self, i: int) -> K::V {
        self.entries@[i].0@
    }

    /// The value of the entry at position `i`.
    pub closed spec fn spec_value(&self, i: int) -> V {
        self.entries@[i].1
    }

    proof fn lemma_entry(&self, i: int)
        requires
            self.distinct(),
            0 <= i < self.entries@.len(),
        ensures
            self@.contains_key(self.entries@[i].0@),
            self@[self.entries@[i].0@] == self.entries@[i].1,
    {
        let k = self.entries@[i].0@;
        assert(self@.contains_key(k));
        let j = choose|j: int| 0 <= j < self.entries@.len() && #[trigger] self.entries@[j].0@ == k;
        if j < i {
            assert(self.entries@[j].0@ != self.entries@[i].0@);
        } else if i < j {
            assert(self.entries@[i].0@ != self.entries@[j].0@);
        }
    }

    pub fn new() -> (r: Self)
        ensures
            r@ == Map::<K::V, V>::empty(),
            r.spec_len() == 0,
    {
        let r = AssocMap { entries: Vec::new() };
        assert(r@ =~= Map::<K::V, V>::empty());
        r
    }

    /// The number of entries; also relates positions to the map.
    pub fn len(&self) -> (r: usize)
        ensures
            r == self.spec_len(),
            forall|i: int| 0 <= i < r ==> self@.contains_key(#[trigger] self.spec_key(i)),
            forall|i: int| 0 <= i < r ==> self@[#[trigger] self.spec_key(i)] == self.spec_value(i),
            forall|k: K::V| #[trigger] self@.contains_key(k) ==> exists|i: int| 0 <= i < r && self.spec_key(i) == k,
            forall|i: int, j: int| 0 <= i < j < r ==> #[trigger] self.spec_key(i) != #[trigger] self.spec_key(j),
    {
        proof {
            use_type_invariant(self);
            assert forall|i: int| 0 <= i < self.entries@.len() implies self@.contains_key(#[trigger] self.spec_key(i))
                && self@[self.spec_key(i)] == self.spec_value(i) by {
                self.lemma_entry(i);
            }
            assert forall|k: K::V| #[trigger] self@.contains_key(k) implies exists|i: int| 0 <= i < self.entries@.len() && self.spec_key(i) == k by {
                let i = choose|i: int| 0 <= i < self.entries@.len() && #[trigger] self.entries@[i].0@ == k;
                assert(self.spec_key(i) == k);
            }
        }
        self.entries.len()
    }

    pub fn key_at(&self, i: usize) -> (r: &K)
        requires
            i < self.spec_len(),
        ensures
            r@ == self.spec_key(i as int),
    {
        &self.entries[i].0
    }

    pub fn value_at(&self, i: usize) -> (r: &V)
        requires
            i < self.spec_len(),
        ensures
            *r == self.spec_value(i as int),
            *r == self@[self.spec_key(i as int)],
    {
        proof {
            use_type_invariant(self);
            self.lemma_entry(i as int);
        }
        &self.entries[i].1
    }

    fn position(&self, k: &K) -> (r: Option<usize>)
        ensures
            match r {
                Some(i) => i < self.entries@.len() && self.entries@[i as int].0@ == k@,
                None => !self@.contains_key(k@),
            },
    {
        let n = self.entries.len();
        let mut i: usize = 0;
        while i < n
            invariant
                n == self.entries@.len(),
                i <= n,
                forall|j: int| 0 <= j < i ==> self.entries@[j].0@ != k@,
            decreases n - i,
        {
            if self.entries[i].0.same_key(k) {
                return Some(i);
            }
            i = i + 1;
        }
        None
    }

    /// The position of the entry with key `k`, if any.
    pub fn find(&self, k: &K) -> (r: Option<usize>)
        ensures
            match r {
                Some(i) => i < self.spec_len() && self.spec_key(i as int) == k@ && self@.contains_key(k@),
                None => !self@.contains_key(k@),
            },
    {
        proof {
            use_type_invariant(self);
        }
        let r = self.position(k);
        proof {
            if let Some(i) = r {
                self.lemma_entry(i as int);
            }
        }
        r
    }

    pub fn contains_key(&self, k: &K) -> (r: bool)
        ensures
            r == self@.contains_key(k@),
    {
        match self.find(k) {
            Some(_) => true,
            None => false,
        }
    }

    pub fn get(&self, k: &K) -> (r: Option<&V>)
        ensures
            match r {
                Some(v) => self@.contains_key(k@) && *v == self@[k@],
                None => !self@.contains_key(k@),
            },
    {
        match self.find(k) {
            Some(i) => Some(self.value_at(i)),
            None => None,
        }
    }

    /// Puts `v` in place of the value at position `i` and hands the old value back.
    pub fn replace_at(&mut self, i: usize, v: V) -> (r: V)
        requires
            i < old(self).spec_len(),
        ensures
            r == old(self).spec_value(i as int),
            r == old(self)@[old(self).spec_key(i as int)],
            final(self)@ == old(self)@.insert(old(self).spec_key(i as int), v),
            final(self).spec_len() == old(self).spec_len(),
            forall|j: int| 0 <= j < final(self).spec_len() ==> #[trigger] final(self).spec_key(j) == old(self).spec_key(j),
            final(self).spec_value(i as int) == v,
            forall|j: int| 0 <= j < final(self).spec_len() && j != i ==> #[trigger] final(self).spec_value(j) == old(self).spec_value(j),
    {
        proof {
            use_type_invariant(&*self);
            self.lemma_entry(i as int);
        }
        let k = self.entries[i].0.copy_key();
        let mut pair = (k, v);
        let mut entries: Vec<(K, V)> = Vec::new();
        std::mem::swap(&mut entries, &mut self.entries);
        entries.set_and_swap(i, &mut pair);
        self.entries = entries;
        let (_, old_v) = pair;
        proof {
            let o = old(self).entries@;
            let s = self.entries@;
            assert forall|j: int| 0 <= j < s.len() implies #[trigger] s[j].0@ == o[j].0@ by {}
            assert(self.distinct()) by {
                assert forall|a: int, b: int| 0 <= a < b < s.len() implies #[trigger] s[a].0@ != #[trigger] s[b].0@ by {
                    assert(o[a].0@ != o[b].0@);
                }
            }
            let key = o[i as int].0@;
            assert(self@ =~= old(self)@.insert(key, v)) by {
                assert forall|x: K::V| self@.contains_key(x) <==> old(self)@.insert(key, v).contains_key(x) by {
                    if self@.contains_key(x) {
                        let j = choose|j: int| 0 <= j < s.len() && #[trigger] s[j].0@ == x;
                        assert(o[j].0@ == x);
                    }
                    if old(self)@.contains_key(x) {
                        let j = choose|j: int| 0 <= j < o.len() && #[trigger] o[j].0@ == x;
                        assert(s[j].0@ == x);
                    }
                    if x == key {
                        assert(s[i as int].0@ == x);
                    }
                }
                assert forall|x: K::V| #[trigger] self@.contains_key(x) implies self@[x] == old(self)@.insert(key, v)[x] by {
                    let j = choose|j: int| 0 <= j < s.len() && #[trigger] s[j].0@ == x;
                    self.lemma_entry(j);
                    if j != i {
                        assert(o[j].0@ == x);
                        old(self).lemma_entry(j);
                        if x == key {
                            if j < i {
                                assert(o[j].0@ != o[i as int].0@);
                            } else {
                                assert(o[i as int].0@ != o[j].0@);
                            }
                        }
                    }
                }
            }
        }
        old_v
    }

    /// Maps `k` to `v`, replacing an earlier value of `k`.
    pub fn insert(&mut self, k: K, v: V)
        ensures
            final(self)@ == old(self)@.insert(k@, v),
    {
        proof {
            use_type_invariant(&*self);
        }
        match self.position(&k) {
            Some(i) => {
                proof {
                    old(self).lemma_entry(i as int);
                }
                let _ = self.replace_at(i, v);
            },
            None => {
                let ghost kv = k@;
                let mut entries: Vec<(K, V)> = Vec::new();
                std::mem::swap(&mut entries, &mut self.entries);
                entries.push((k, v));
                self.entries = entries;
                proof {
                    let o = old(self).entries@;
                    let s = self.entries@;
                    let n = o.len();
                    assert(s[n as int].0@ == kv);
                    assert(self.distinct()) by {
                        assert forall|a: int, b: int| 0 <= a < b < s.len() implies #[trigger] s[a].0@ != #[trigger] s[b].0@ by {
                            if b == n {
                                assert(s[a] == o[a]);
                                assert(o[a].0@ != kv);
                            } else {
                                assert(s[a] == o[a] && s[b] == o[b]);
                            }
                        }
                    }
                    assert(self@ =~= old(self)@.insert(kv, v)) by {
                        assert forall|x: K::V| self@.contains_key(x) <==> old(self)@.insert(kv, v).contains_key(x) by {
                            if self@.contains_key(x) && x != kv {
                                let j = choose|j: int| 0 <= j < s.len() && #[trigger] s[j].0@ == x;
                                assert(s[j] == o[j]);
                            }
                            if old(self)@.contains_key(x) {
                                let j = choose|j: int| 0 <= j < o.len() && #[trigger] o[j].0@ == x;
                                assert(s[j] == o[j]);
                            }
                        }
                        assert forall|x: K::V| #[trigger] self@.contains_key(x) implies self@[x] == old(self)@.insert(kv, v)[x] by {
                            let j = choose|j: int| 0 <= j < s.len() && #[trigger] s[j].0@ == x;
                            self.lemma_entry(j);
                            if j < n {
                                assert(s[j] == o[j]);
                                old(self).lemma_entry(j);
                            }
                        }
                    }
                }
            },
        }
    }
}

} // verus!
