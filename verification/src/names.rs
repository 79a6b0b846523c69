use vstd::prelude::*;

verus! {

/// The keys of a sequence of named entries are pairwise distinct.
pub open spec fn keys_distinct<V>(s: Seq<(Seq<char>, V)>) -> bool {
    forall|i: int, j: int| 0 <= i < j < s.len() ==> #[trigger] s[i].0 != #[trigger] s[j].0
}

/// Some entry carries the key `k`.
pub open spec fn has_key<V>(s: Seq<(Seq<char>, V)>, k: Seq<char>) -> bool {
    exists|i: int| 0 <= i < s.len() && #[trigger] s[i].0 == k
}

/// The position of the entry that carries `k`.
pub open spec fn key_pos<V>(s: Seq<(Seq<char>, V)>, k: Seq<char>) -> int {
    choose|i: int| 0 <= i < s.len() && #[trigger] s[i].0 == k
}

/// The value stored under `k`, if any.
pub open spec fn lookup<V>(s: Seq<(Seq<char>, V)>, k: Seq<char>) -> Option<V> {
    if has_key(s, k) {
        Some(s[key_pos(s, k)].1)
    } else {
        None
    }
}

/// The entries after storing `v` under `k`: an entry with that key is
/// overwritten in place, otherwise the new entry goes last.
pub open spec fn store<V>(s: Seq<(Seq<char>, V)>, k: Seq<char>, v: V) -> Seq<(Seq<char>, V)> {
    if has_key(s, k) {
        s.update(key_pos(s, k), (k, v))
    } else {
        s.push((k, v))
    }
}

/// In a sequence with distinct keys, the entry at `i` is the one `lookup` finds.
pub proof fn lemma_lookup_at<V>(s: Seq<(Seq<char>, V)>, i: int)
    requires
        keys_distinct(s),
        0 <= i < s.len(),
    ensures
        has_key(s, s[i].0),
        key_pos(s, s[i].0) == i,
        lookup(s, s[i].0) == Some(s[i].1),
{
    let k = s[i].0;
    assert(has_key(s, k));
    let p = key_pos(s, k);
    if p != i {
        if p < i {
            assert(s[p].0 != s[i].0);
        } else {
            assert(s[i].0 != s[p].0);
        }
    }
}


/// In a sequence with distinct keys, a lookup finds the last entry when it
/// carries the key, and otherwise looks among the entries before it.
pub proof fn lemma_lookup_last<V>(s: Seq<(Seq<char>, V)>, k: Seq<char>)
    requires
        keys_distinct(s),
        s.len() > 0,
    ensures
        keys_distinct(s.drop_last()),
        lookup(s, k) == if s.last().0 == k {
            Some(s.last().1)
        } else {
            lookup(s.drop_last(), k)
        },
{
    let d = s.drop_last();
    assert(keys_distinct(d)) by {
        assert forall|i: int, j: int| 0 <= i < j < d.len() implies #[trigger] d[i].0
            != #[trigger] d[j].0 by {
            assert(s[i].0 != s[j].0);
        }
    }
    if s.last().0 == k {
        lemma_lookup_at(s, s.len() - 1);
    } else if has_key(d, k) {
        let i = key_pos(d, k);
        assert(s[i] == d[i]);
        lemma_lookup_at(s, i);
        lemma_lookup_at(d, i);
    } else {
        if has_key(s, k) {
            let i = key_pos(s, k);
            assert(i < s.len() - 1);
            assert(d[i].0 == k);
        }
    }
}
/// Storing keeps the keys distinct, and a later lookup of the stored key gives the stored value,
/// while every other key keeps its value.
pub proof fn lemma_store<V>(s: Seq<(Seq<char>, V)>, k: Seq<char>, v: V)
    requires
        keys_distinct(s),
    ensures
        keys_distinct(store(s, k, v)),
        lookup(store(s, k, v), k) == Some(v),
        forall|k2: Seq<char>| k2 != k ==> #[trigger] lookup(store(s, k, v), k2) == lookup(s, k2),
{
    let t = store(s, k, v);
    if has_key(s, k) {
        let p = key_pos(s, k);
        assert(keys_distinct(t)) by {
            assert forall|i: int, j: int| 0 <= i < j < t.len() implies #[trigger] t[i].0
                != #[trigger] t[j].0 by {
                assert(s[i].0 != s[j].0);
            }
        }
        lemma_lookup_at(t, p);
        assert forall|k2: Seq<char>| k2 != k implies #[trigger] lookup(t, k2) == lookup(s, k2) by {
            if has_key(s, k2) {
                let q = key_pos(s, k2);
                lemma_lookup_at(s, q);
                lemma_lookup_at(t, q);
            }
            if has_key(t, k2) {
                let q = key_pos(t, k2);
                lemma_lookup_at(t, q);
                assert(s[q].0 == k2);
                lemma_lookup_at(s, q);
            }
        }
    } else {
        assert(keys_distinct(t)) by {
            assert forall|i: int, j: int| 0 <= i < j < t.len() implies #[trigger] t[i].0
                != #[trigger] t[j].0 by {
                if j == s.len() {
                    assert(s[i].0 != k);
                } else {
                    assert(s[i].0 != s[j].0);
                }
            }
        }
        lemma_lookup_at(t, s.len() as int);
        assert forall|k2: Seq<char>| k2 != k implies #[trigger] lookup(t, k2) == lookup(s, k2) by {
            if has_key(s, k2) {
                let q = key_pos(s, k2);
                lemma_lookup_at(s, q);
                lemma_lookup_at(t, q);
            }
            if has_key(t, k2) {
                let q = key_pos(t, k2);
                lemma_lookup_at(t, q);
                assert(s[q].0 == k2);
                lemma_lookup_at(s, q);
            }
        }
    }
}

/// A collection of values found by name. Each name occurs at most once; the
/// entries keep the order in which their names were first stored.
#[derive(Debug)]
pub struct NameMap<V> {
    names: Vec<String>,
    values: Vec<V>,
}

impl<V> NameMap<V> {
    /// The entries as (name, value) pairs, in order.
    pub closed spec fn entries(&self) -> Seq<(Seq<char>, V)> {
        Seq::new(self.names@.len(), |i: int| (self.names@[i]@, self.values@[i]))
    }

    #[verifier::type_invariant]
    pub closed spec fn well_formed(&self) -> bool {
        &&& self.names@.len() == self.values@.len()
        &&& forall|i: int, j: int|
            0 <= i < j < self.names@.len() ==> #[trigger] self.names@[i]@ != #[trigger] self.names@[j]@
    }

    /// The value stored under `name`, if any.
    pub open spec fn get_spec(&self, name: Seq<char>) -> Option<V> {
        lookup(self.entries(), name)
    }

    proof fn lemma_entries(&self)
        requires
            self.well_formed(),
        ensures
            keys_distinct(self.entries()),
            self.entries().len() == self.names@.len(),
            forall|i: int| 0 <= i < self.names@.len() ==> #[trigger] self.entries()[i] == (self.names@[i]@, self.values@[i]),
    {
        let e = self.entries();
        assert forall|i: int, j: int| 0 <= i < j < e.len() implies #[trigger] e[i].0 != #[trigger] e[j].0 by {
            assert(self.names@[i]@ != self.names@[j]@);
        }
    }

    /// Every map keeps its names distinct.
    pub fn distinct_names(&self)
        ensures
            keys_distinct(self.entries()),
    {
        proof {
            use_type_invariant(self);
            self.lemma_entries();
        }
    }

    pub fn new() -> (m: Self)
        ensures
            m.entries() == Seq::<(Seq<char>, V)>::empty(),
    {
        let m = NameMap { names: Vec::new(), values: Vec::new() };
        assert(m.entries() =~= Seq::<(Seq<char>, V)>::empty());
        m
    }

    pub fn len(&self) -> (n: usize)
        ensures
            n == self.entries().len(),
    {
        proof {
            use_type_invariant(self);
        }
        self.names.len()
    }

    /// The name of the entry at `i`.
    pub fn name_at(&self, i: usize) -> (r: &String)
        requires
            i < self.entries().len(),
        ensures
            r@ == self.entries()[i as int].0,
    {
        proof {
            use_type_invariant(self);
        }
        &self.names[i]
    }

    /// The value of the entry at `i`.
    pub fn value_at(&self, i: usize) -> (r: &V)
        requires
            i < self.entries().len(),
        ensures
            *r == self.entries()[i as int].1,
    {
        proof {
            use_type_invariant(self);
        }
        &self.values[i]
    }

    /// Where the entry named `name` stands, if there is one.
    pub fn position(&self, name: &str) -> (r: Option<usize>)
        ensures
            match r {
                Some(i) => i < self.entries().len() && self.entries()[i as int].0 == name@
                    && key_pos(self.entries(), name@) == i,
                None => !has_key(self.entries(), name@),
            },
    {
        proof {
            use_type_invariant(self);
            self.lemma_entries();
        }
        let key = name.to_owned();
        let n = self.names.len();
        let mut i: usize = 0;
        while i < n
            invariant
                n == self.entries().len(),
                n == self.names@.len(),
                keys_distinct(self.entries()),
                forall|j: int| 0 <= j < n ==> #[trigger] self.entries()[j] == (self.names@[j]@, self.values@[j]),
                key@ == name@,
                i <= n,
                forall|j: int| 0 <= j < i ==> #[trigger] self.entries()[j].0 != name@,
            decreases n - i,
        {
            if self.names[i] == key {
                proof {
                    lemma_lookup_at(self.entries(), i as int);
                }
                return Some(i);
            }
            i += 1;
        }
        None
    }

    pub fn contains_key(&self, name: &str) -> (r: bool)
        ensures
            r == has_key(self.entries(), name@),
    {
        self.position(name).is_some()
    }

    pub fn get(&self, name: &str) -> (r: Option<&V>)
        ensures
            match r {
                Some(v) => self.get_spec(name@) == Some(*v),
                None => self.get_spec(name@) is None,
            },
    {
        proof {
            use_type_invariant(self);
            self.lemma_entries();
        }
        match self.position(name) {
            Some(i) => {
                proof {
                    lemma_lookup_at(self.entries(), i as int);
                }
                Some(&self.values[i])
            },
            None => None,
        }
    }

    pub fn get_mut(&mut self, name: &str) -> (r: Option<&mut V>)
        ensures
            match r {
                Some(v) => {
                    &&& has_key(old(self).entries(), name@)
                    &&& old(self).get_spec(name@) == Some(*v)
                    &&& final(self).entries() == old(self).entries().update(
                        key_pos(old(self).entries(), name@),
                        (name@, *final(v)),
                    )
                },
                None => {
                    &&& !has_key(old(self).entries(), name@)
                    &&& final(self).entries() == old(self).entries()
                },
            },
    {
        proof {
            use_type_invariant(&*self);
            self.lemma_entries();
        }
        match self.position(name) {
            Some(i) => {
                proof {
                    lemma_lookup_at(self.entries(), i as int);
                }
                Some(&mut self.values[i])
            },
            None => None,
        }
    }

    /// Stores `value` under `name`, replacing what was stored under it.
    pub fn insert(&mut self, name: String, value: V)
        ensures
            final(self).entries() == store(old(self).entries(), name@, value),
            final(self).get_spec(name@) == Some(value),
            forall|k: Seq<char>| k != name@ ==> #[trigger] final(self).get_spec(k) == old(self).get_spec(k),
    {
        proof {
            use_type_invariant(&*self);
            self.lemma_entries();
            lemma_store(self.entries(), name@, value);
        }
        let pos = self.position(name.as_str());
        let mut taken: NameMap<V> = NameMap::new();
        std::mem::swap(self, &mut taken);
        let NameMap { mut names, mut values } = taken;
        match pos {
            Some(i) => {
                values.set(i, value);
            },
            None => {
                names.push(name);
                values.push(value);
            },
        }
        let ghost t = store(old(self).entries(), name@, value);
        proof {
            let e = Seq::new(names@.len(), |i: int| (names@[i]@, values@[i]));
            assert(e =~= t);
            assert forall|i: int, j: int| 0 <= i < j < names@.len() implies #[trigger] names@[i]@
                != #[trigger] names@[j]@ by {
                assert(t[i].0 != t[j].0);
            }
        }
        *self = NameMap { names, values };
    }
}

impl<V: Clone> Clone for NameMap<V> {
    /// A copy with the same names in the same order; each value is cloned.
    fn clone(&self) -> (r: Self)
        ensures
            r.entries().len() == self.entries().len(),
            forall|i: int|
                0 <= i < self.entries().len() ==> #[trigger] r.entries()[i].0 == self.entries()[i].0
                    && cloned::<V>(self.entries()[i].1, r.entries()[i].1),
    {
        proof {
            use_type_invariant(self);
        }
        let names = self.names.clone();
        let values = self.values.clone();
        proof {
            assert forall|i: int| 0 <= i < names@.len() implies #[trigger] names@[i] == self.names@[i] by {
                assert(cloned::<String>(self.names[i], names[i]));
            }
        }
        NameMap { names, values }
    }
}

} // verus!
