use vstd::prelude::*;

verus! {

/// The map that a list of (key, value) entries stands for; a later entry
/// for a key overrides an earlier one.
pub open spec fn assoc_map<K, V>(s: Seq<(K, V)>) -> Map<K, V>
    decreases s.len(),
{
    if s.len() == 0 {
        Map::empty()
    } else {
        assoc_map(s.drop_last()).insert(s.last().0, s.last().1)
    }
}

/// No key occurs twice in the list.
pub open spec fn unique_keys<K, V>(s: Seq<(K, V)>) -> bool {
    forall|i: int, j: int| 0 <= i < s.len() && 0 <= j < s.len() && i != j ==> s[i].0 != s[j].0
}

/// A key is in the map exactly when some entry carries it.
pub proof fn lemma_assoc_contains<K, V>(s: Seq<(K, V)>, k: K)
    ensures
        assoc_map(s).contains_key(k) <==> exists|i: int| 0 <= i < s.len() && s[i].0 == k,
    decreases s.len(),
{
    if s.len() > 0 {
        lemma_assoc_contains(s.drop_last(), k);
        if exists|i: int| 0 <= i < s.len() - 1 && s.drop_last()[i].0 == k {
            let i = choose|i: int| 0 <= i < s.len() - 1 && s.drop_last()[i].0 == k;
            assert(s[i].0 == k);
        }
        if exists|i: int| 0 <= i < s.len() && s[i].0 == k {
            let i = choose|i: int| 0 <= i < s.len() && s[i].0 == k;
            if i < s.len() - 1 {
                assert(s.drop_last()[i].0 == k);
            }
        }
    }
}

/// With unique keys, the map gives each entry's value for its key.
pub proof fn lemma_assoc_lookup<K, V>(s: Seq<(K, V)>, i: int)
    requires
        unique_keys(s),
        0 <= i < s.len(),
    ensures
        assoc_map(s).contains_key(s[i].0),
        assoc_map(s)[s[i].0] == s[i].1,
    decreases s.len(),
{
    if i < s.len() - 1 {
        let t = s.drop_last();
        assert(unique_keys(t)) by {
            assert forall|a: int, b: int| 0 <= a < t.len() && 0 <= b < t.len() && a != b implies t[a].0 != t[b].0 by {
                assert(t[a] == s[a] && t[b] == s[b]);
            }
        }
        assert(t[i] == s[i]);
        lemma_assoc_lookup(t, i);
        assert(s.last().0 != s[i].0);
    }
}

/// Replacing the value of an entry changes the map at that key only.
pub proof fn lemma_assoc_update<K, V>(s: Seq<(K, V)>, i: int, v: V)
    requires
        0 <= i < s.len(),
    ensures
        unique_keys(s) ==> unique_keys(s.update(i, (s[i].0, v))),
        unique_keys(s) ==> assoc_map(s.update(i, (s[i].0, v))) == assoc_map(s).insert(s[i].0, v),
    decreases s.len(),
{
    let u = s.update(i, (s[i].0, v));
    if unique_keys(s) {
        assert(unique_keys(u)) by {
            assert forall|a: int, b: int| 0 <= a < u.len() && 0 <= b < u.len() && a != b implies u[a].0 != u[b].0 by {
                assert(u[a].0 == s[a].0 && u[b].0 == s[b].0);
            }
        }
        let t = s.drop_last();
        assert(unique_keys(t)) by {
            assert forall|a: int, b: int| 0 <= a < t.len() && 0 <= b < t.len() && a != b implies t[a].0 != t[b].0 by {
                assert(t[a] == s[a] && t[b] == s[b]);
            }
        }
        if i == s.len() - 1 {
            assert(u.drop_last() =~= t);
            assert(assoc_map(u) =~= assoc_map(s).insert(s[i].0, v));
        } else {
            lemma_assoc_update(t, i, v);
            assert(u.drop_last() =~= t.update(i, (t[i].0, v)));
            assert(s.last().0 != s[i].0);
            assert(assoc_map(u) =~= assoc_map(s).insert(s[i].0, v));
        }
    }
}

/// Appending an entry for a new key keeps the keys unique and adds the key.
pub proof fn lemma_assoc_push<K, V>(s: Seq<(K, V)>, k: K, v: V)
    requires
        forall|i: int| 0 <= i < s.len() ==> s[i].0 != k,
    ensures
        unique_keys(s) ==> unique_keys(s.push((k, v))),
        assoc_map(s.push((k, v))) == assoc_map(s).insert(k, v),
{
    assert(s.push((k, v)).drop_last() =~= s);
    let p = s.push((k, v));
    if unique_keys(s) {
        assert forall|a: int, b: int| 0 <= a < p.len() && 0 <= b < p.len() && a != b implies p[a].0 != p[b].0 by {
            if a < s.len() {
                assert(p[a] == s[a]);
            }
            if b < s.len() {
                assert(p[b] == s[b]);
            }
        }
    }
}

/// A map from texts to values, kept as a list of entries with no key twice.
pub struct AssocList<V> {
    entries: Vec<(String, V)>,
}

impl<V> AssocList<V> {
    /// The entries as (key text, value) pairs.
    pub closed spec fn pairs(&self) -> Seq<(Seq<char>, V)> {
        self.entries@.map_values(|e: (String, V)| (e.0@, e.1))
    }

    #[verifier::type_invariant]
    closed spec fn keys_unique(&self) -> bool {
        unique_keys(self.pairs())
    }
}

impl<V> View for AssocList<V> {
    type V = Map<Seq<char>, V>;

    closed spec fn view(&self) -> Map<Seq<char>, V> {
        assoc_map(self.pairs())
    }
}

impl<V> AssocList<V> {
    /// An empty map.
    pub fn new() -> (m: AssocList<V>)
        ensures
            m@ == Map::<Seq<char>, V>::empty(),
    {
        let m = AssocList { entries: Vec::new() };
        assert(m.pairs() =~= Seq::<(Seq<char>, V)>::empty());
        m
    }

    /// Index of the entry for key `k`, if any.
    fn position(&self, k: &str) -> (r: Option<usize>)
        ensures
            r matches Some(i) ==> i < self.pairs().len() && self.pairs()[i as int].0 == k@,
            r is None ==> forall|i: int| 0 <= i < self.pairs().len() ==> self.pairs()[i].0 != k@,
    {
        let wanted = k.to_owned();
        let n = self.entries.len();
        let mut i: usize = 0;
        while i < n
            invariant
                wanted@ == k@,
                n == self.entries@.len(),
                i <= n,
                forall|j: int| 0 <= j < i ==> self.pairs()[j].0 != k@,
            decreases n - i,
        {
            if self.entries[i].0 == wanted {
                return Some(i);
            }
            i = i + 1;
        }
        None
    }

    /// The value under key `k`, if any.
    pub fn get(&self, k: &str) -> (r: Option<&V>)
        ensures
            r is Some <==> self@.contains_key(k@),
            r matches Some(v) ==> *v == self@[k@],
    {
        proof {
            use_type_invariant(self);
            lemma_assoc_contains(self.pairs(), k@);
        }
        match self.position(k) {
            Some(i) => {
                proof {
                    lemma_assoc_lookup(self.pairs(), i as int);
                }
                Some(&self.entries[i].1)
            },
            None => None,
        }
    }

    /// Puts `v` under `k`, replacing what was there.
    pub fn insert(&mut self, k: &str, v: V)
        ensures
            final(self)@ == old(self)@.insert(k@, v),
    {
        proof {
            use_type_invariant(&*self);
        }
        let ghost old_pairs = self.pairs();
        let ghost vv = v;
        let pos = self.position(k);
        let mut entries: Vec<(String, V)> = Vec::new();
        std::mem::swap(&mut entries, &mut self.entries);
        match pos {
            Some(i) => {
                entries.set(i, (k.to_owned(), v));
                proof {
                    lemma_assoc_update(old_pairs, i as int, vv);
                    assert(entries@.map_values(|e: (String, V)| (e.0@, e.1))
                        =~= old_pairs.update(i as int, (old_pairs[i as int].0, vv)));
                }
            },
            None => {
                entries.push((k.to_owned(), v));
                proof {
                    lemma_assoc_push(old_pairs, k@, vv);
                    assert(entries@.map_values(|e: (String, V)| (e.0@, e.1)) =~= old_pairs.push((k@, vv)));
                }
            },
        }
        self.entries = entries;
    }
}

} // verus!
