//! A map keyed by names, kept as a list of `(name, value)` pairs in which no
//! name occurs twice. It stands for the `HashMap<String, _>` tables of the
//! router (parameters and query strings) and of the theme registry.
use vstd::prelude::*;

verus! {

/// No name occurs twice among `e`'s pairs.
pub open spec fn names_unique<V>(e: Seq<(String, V)>) -> bool {
    forall|i: int, j: int|
        0 <= i < e.len() && 0 <= j < e.len() && i != j ==> #[trigger] e[i].0@ != #[trigger] e[j].0@
}

/// Some pair of `e` has the name `k`.
pub open spec fn has_name<V>(e: Seq<(String, V)>, k: Seq<char>) -> bool {
    exists|i: int| 0 <= i < e.len() && #[trigger] e[i].0@ == k
}

/// The map that the pairs `e` describe.
pub open spec fn pairs_map<V>(e: Seq<(String, V)>) -> Map<Seq<char>, V> {
    Map::new(
        |k: Seq<char>| has_name(e, k),
        |k: Seq<char>| e[choose|i: int| 0 <= i < e.len() && #[trigger] e[i].0@ == k].1,
    )
}

/// A map from names to values.
#[derive(Debug)]
pub struct NameMap<V> {
    entries: Vec<(String, V)>,
}

impl<V> View for NameMap<V> {
    type V = Map<Seq<char>, V>;

    closed spec fn view(&self) -> Map<Seq<char>, V> {
        pairs_map(self.entries@)
    }
}

/// The value of the pair at `i` is what the map gives for its name.
pub proof fn lemma_pairs_map_at<V>(e: Seq<(String, V)>, i: int)
    requires
        names_unique(e),
        0 <= i < e.len(),
    ensures
        pairs_map(e).dom().contains(e[i].0@),
        pairs_map(e)[e[i].0@] == e[i].1,
{
    let k = e[i].0@;
    assert(has_name(e, k));
    let j = choose|j: int| 0 <= j < e.len() && #[trigger] e[j].0@ == k;
    assert(j == i);
}

/// Replacing the value of the pair at `i` updates the map at its name.
proof fn lemma_pairs_map_update<V>(e: Seq<(String, V)>, i: int, kv: (String, V))
    requires
        names_unique(e),
        0 <= i < e.len(),
        kv.0@ == e[i].0@,
    ensures
        names_unique(e.update(i, kv)),
        pairs_map(e.update(i, kv)) =~= pairs_map(e).insert(kv.0@, kv.1),
{
    let e2 = e.update(i, kv);
    assert forall|a: int, b: int|
        0 <= a < e2.len() && 0 <= b < e2.len() && a != b implies #[trigger] e2[a].0@
        != #[trigger] e2[b].0@ by {
        assert(e[a].0@ != e[b].0@);
    }
    let m1 = pairs_map(e2);
    let m2 = pairs_map(e).insert(kv.0@, kv.1);
    assert forall|q: Seq<char>| #[trigger] m1.dom().contains(q) <==> m2.dom().contains(q) by {
        if m1.dom().contains(q) {
            let j = choose|j: int| 0 <= j < e2.len() && #[trigger] e2[j].0@ == q;
            if j != i {
                assert(e[j].0@ == q);
            }
        }
        if m2.dom().contains(q) && q != kv.0@ {
            let j = choose|j: int| 0 <= j < e.len() && #[trigger] e[j].0@ == q;
            assert(e2[j].0@ == q);
        }
        lemma_pairs_map_at(e2, i);
    }
    assert forall|q: Seq<char>| #[trigger] m1.dom().contains(q) implies m1[q] == m2[q] by {
        let j = choose|j: int| 0 <= j < e2.len() && #[trigger] e2[j].0@ == q;
        lemma_pairs_map_at(e2, j);
        if j != i {
            assert(e[j] == e2[j]);
            lemma_pairs_map_at(e, j);
        }
    }
}

/// Appending a pair with a new name inserts it into the map.
pub proof fn lemma_pairs_map_push<V>(e: Seq<(String, V)>, kv: (String, V))
    requires
        names_unique(e),
        !has_name(e, kv.0@),
    ensures
        names_unique(e.push(kv)),
        pairs_map(e.push(kv)) =~= pairs_map(e).insert(kv.0@, kv.1),
{
    let e2 = e.push(kv);
    assert forall|a: int, b: int|
        0 <= a < e2.len() && 0 <= b < e2.len() && a != b implies #[trigger] e2[a].0@
        != #[trigger] e2[b].0@ by {
        if a < e.len() && b < e.len() {
            assert(e[a].0@ != e[b].0@);
        } else if a < e.len() {
            assert(e[a] == e2[a]);
        } else {
            assert(e[b] == e2[b]);
        }
    }
    let m1 = pairs_map(e2);
    let m2 = pairs_map(e).insert(kv.0@, kv.1);
    let n = e.len() as int;
    assert forall|q: Seq<char>| #[trigger] m1.dom().contains(q) <==> m2.dom().contains(q) by {
        if m1.dom().contains(q) {
            let j = choose|j: int| 0 <= j < e2.len() && #[trigger] e2[j].0@ == q;
            if j != n {
                assert(e[j].0@ == q);
            }
        }
        if m2.dom().contains(q) && q != kv.0@ {
            let j = choose|j: int| 0 <= j < e.len() && #[trigger] e[j].0@ == q;
            assert(e2[j].0@ == q);
        }
        lemma_pairs_map_at(e2, n);
    }
    assert forall|q: Seq<char>| #[trigger] m1.dom().contains(q) implies m1[q] == m2[q] by {
        let j = choose|j: int| 0 <= j < e2.len() && #[trigger] e2[j].0@ == q;
        lemma_pairs_map_at(e2, j);
        if j != n {
            assert(e[j] == e2[j]);
            lemma_pairs_map_at(e, j);
        }
    }
}

/// Removing the pair at `i` removes its name from the map.
proof fn lemma_pairs_map_remove<V>(e: Seq<(String, V)>, i: int)
    requires
        names_unique(e),
        0 <= i < e.len(),
    ensures
        names_unique(e.remove(i)),
        pairs_map(e.remove(i)) =~= pairs_map(e).remove(e[i].0@),
{
    let e2 = e.remove(i);
    let k = e[i].0@;
    assert forall|j: int| 0 <= j < e2.len() implies #[trigger] e2[j] == e[if j < i {
        j
    } else {
        j + 1
    }] by {}
    assert forall|a: int, b: int|
        0 <= a < e2.len() && 0 <= b < e2.len() && a != b implies #[trigger] e2[a].0@
        != #[trigger] e2[b].0@ by {
        let a1 = if a < i {
            a
        } else {
            a + 1
        };
        let b1 = if b < i {
            b
        } else {
            b + 1
        };
        assert(e2[a] == e[a1]);
        assert(e2[b] == e[b1]);
        assert(e[a1].0@ != e[b1].0@);
    }
    let m1 = pairs_map(e2);
    let m2 = pairs_map(e).remove(k);
    assert forall|q: Seq<char>| #[trigger] m1.dom().contains(q) <==> m2.dom().contains(q) by {
        if m1.dom().contains(q) {
            let j = choose|j: int| 0 <= j < e2.len() && #[trigger] e2[j].0@ == q;
            let j1 = if j < i {
                j
            } else {
                j + 1
            };
            assert(e2[j] == e[j1]);
            assert(e[j1].0@ == q);
            assert(j1 != i);
            assert(e[j1].0@ != e[i].0@);
        }
        if m2.dom().contains(q) {
            let j = choose|j: int| 0 <= j < e.len() && #[trigger] e[j].0@ == q;
            assert(j != i);
            let j2 = if j < i {
                j
            } else {
                j - 1
            };
            assert(e2[j2] == e[j]);
        }
    }
    assert forall|q: Seq<char>| #[trigger] m1.dom().contains(q) implies m1[q] == m2[q] by {
        let j = choose|j: int| 0 <= j < e2.len() && #[trigger] e2[j].0@ == q;
        lemma_pairs_map_at(e2, j);
        let j1 = if j < i {
            j
        } else {
            j + 1
        };
        assert(e2[j] == e[j1]);
        lemma_pairs_map_at(e, j1);
    }
}

impl<V> NameMap<V> {
    #[verifier::type_invariant]
    spec fn inv(self) -> bool {
        names_unique(self.entries@)
    }

    /// An empty map.
    pub fn new() -> (m: Self)
        ensures
            m@ == Map::<Seq<char>, V>::empty(),
    {
        let m = NameMap { entries: Vec::new() };
        assert(m@ =~= Map::<Seq<char>, V>::empty());
        m
    }

    /// The position of the pair named `k`, if any.
    fn position(&self, k: &str) -> (r: Option<usize>)
        ensures
            r matches Some(i) ==> i < self.entries.len() && self.entries@[i as int].0@ == k@,
            r is None ==> !has_name(self.entries@, k@),
    {
        let key = String::from_str(k);
        let mut i: usize = 0;
        while i < self.entries.len()
            invariant
                i <= self.entries.len(),
                key@ == k@,
                forall|j: int| 0 <= j < i ==> #[trigger] self.entries@[j].0@ != k@,
            decreases self.entries.len() - i,
        {
            if self.entries[i].0 == key {
                return Some(i);
            }
            i += 1;
        }
        None
    }

    /// The `(name, value)` pairs of the map; no name occurs twice among them.
    pub fn pairs(&self) -> (r: &Vec<(String, V)>)
        ensures
            names_unique(r@),
            pairs_map(r@) == self@,
    {
        proof {
            use_type_invariant(self);
        }
        &self.entries
    }

    /// The number of names in the map.
    pub fn len(&self) -> (n: usize)
        ensures
            n == self@.dom().len(),
    {
        proof {
            use_type_invariant(self);
            self.lemma_dom_len();
        }
        self.entries.len()
    }

    proof fn lemma_dom_len(&self)
        requires
            names_unique(self.entries@),
        ensures
            self@.dom().finite(),
            self@.dom().len() == self.entries@.len(),
    {
        let e = self.entries@;
        let keys = e.map_values(|p: (String, V)| p.0@);
        assert forall|i: int, j: int| 0 <= i < keys.len() && 0 <= j < keys.len() && i != j implies keys[i] != keys[j] by {
            assert(e[i].0@ != e[j].0@);
        }
        assert(keys.no_duplicates());
        keys.unique_seq_to_set();
        assert forall|q: Seq<char>| #[trigger] self@.dom().contains(q) <==> keys.to_set().contains(q) by {
            if self@.dom().contains(q) {
                let j = choose|j: int| 0 <= j < e.len() && #[trigger] e[j].0@ == q;
                assert(keys[j] == q);
            }
            if keys.to_set().contains(q) {
                let j = choose|j: int| 0 <= j < keys.len() && keys[j] == q;
                assert(e[j].0@ == q);
            }
        }
        assert(self@.dom() =~= keys.to_set());
    }

    /// Whether some value is stored under `k`.
    pub fn contains_key(&self, k: &str) -> (b: bool)
        ensures
            b == self@.dom().contains(k@),
    {
        proof {
            use_type_invariant(self);
        }
        match self.position(k) {
            Some(i) => {
                proof {
                    lemma_pairs_map_at(self.entries@, i as int);
                }
                true
            },
            None => false,
        }
    }

    /// The value stored under `k`, if any.
    pub fn get(&self, k: &str) -> (r: Option<&V>)
        ensures
            r is Some == self@.dom().contains(k@),
            r matches Some(v) ==> *v == self@[k@],
    {
        proof {
            use_type_invariant(self);
        }
        match self.position(k) {
            Some(i) => {
                proof {
                    lemma_pairs_map_at(self.entries@, i as int);
                }
                Some(&self.entries[i].1)
            },
            None => None,
        }
    }

    /// Stores `v` under `k`, replacing the value stored there before.
    pub fn insert(&mut self, k: String, v: V)
        ensures
            final(self)@ == old(self)@.insert(k@, v),
    {
        proof {
            use_type_invariant(&*self);
        }
        let pos = self.position(k.as_str());
        let mut e: Vec<(String, V)> = Vec::new();
        std::mem::swap(&mut e, &mut self.entries);
        let ghost old_e = e@;
        match pos {
            Some(i) => {
                proof {
                    lemma_pairs_map_update(old_e, i as int, (k, v));
                }
                e.set(i, (k, v));
            },
            None => {
                proof {
                    lemma_pairs_map_push(old_e, (k, v));
                }
                e.push((k, v));
            },
        }
        self.entries = e;
    }

    /// Removes the value stored under `k` and returns it.
    pub fn remove(&mut self, k: &str) -> (r: Option<V>)
        ensures
            final(self)@ == old(self)@.remove(k@),
            r is Some == old(self)@.dom().contains(k@),
            r matches Some(v) ==> v == old(self)@[k@],
    {
        proof {
            use_type_invariant(&*self);
        }
        match self.position(k) {
            Some(i) => {
                let mut e: Vec<(String, V)> = Vec::new();
                std::mem::swap(&mut e, &mut self.entries);
                let ghost old_e = e@;
                proof {
                    lemma_pairs_map_at(old_e, i as int);
                    lemma_pairs_map_remove(old_e, i as int);
                }
                let (_, v) = e.remove(i);
                self.entries = e;
                Some(v)
            },
            None => {
                proof {
                    assert(self@.remove(k@) =~= self@);
                }
                None
            },
        }
    }

    /// Removes every value.
    pub fn clear(&mut self)
        ensures
            final(self)@ == Map::<Seq<char>, V>::empty(),
    {
        self.entries = Vec::new();
        assert(self@ =~= Map::<Seq<char>, V>::empty());
    }

    /// Stores every value of `other` under its name, replacing the values
    /// stored there before.
    pub fn extend(&mut self, other: NameMap<V>)
        ensures
            final(self)@ == old(self)@.union_prefer_right(other@),
    {
        proof {
            use_type_invariant(&other);
        }
        let ghost start = self@;
        let ghost whole = other@;
        let mut rest = other.entries;
        while rest.len() > 0
            invariant
                names_unique(rest@),
                forall|q: Seq<char>| #[trigger] pairs_map(rest@).dom().contains(q) ==> whole.dom().contains(q)
                    && whole[q] == pairs_map(rest@)[q],
                self@ == start.union_prefer_right(whole.remove_keys(pairs_map(rest@).dom())),
            decreases rest.len(),
        {
            let ghost before = rest@;
            let last = rest.len() - 1;
            proof {
                lemma_pairs_map_at(before, last as int);
                lemma_pairs_map_remove(before, last as int);
                assert(before.remove(last as int) =~= before.drop_last());
            }
            let (k, v) = rest.pop().unwrap();
            let ghost kv = k@;
            self.insert(k, v);
            proof {
                let d_old = pairs_map(before).dom();
                let d_new = pairs_map(rest@).dom();
                assert(d_new =~= d_old.remove(kv));
                assert(self@ =~= start.union_prefer_right(whole.remove_keys(d_new)));
            }
        }
        proof {
            assert(pairs_map(rest@).dom() =~= Set::<Seq<char>>::empty());
            assert(self@ =~= start.union_prefer_right(whole));
        }
    }
}

} // verus!
