use vstd::prelude::*;
use crate::assoc::AssocList;
use crate::key::Key;

verus! {

/// The in-memory store of shared texts: each key maps to the text loaded
/// under it. Storing under a key that is present replaces its text.
pub struct Dict {
    map: AssocList<String>,
}

impl View for Dict {
    type V = Map<Seq<char>, Seq<char>>;

    closed spec fn view(&self) -> Map<Seq<char>, Seq<char>> {
        self.map@.map_values(|t: String| t@)
    }
}

impl Dict {
    /// An empty store.
    pub fn new() -> (d: Dict)
        ensures
            d@ == Map::<Seq<char>, Seq<char>>::empty(),
    {
        let d = Dict { map: AssocList::new() };
        assert(d@ =~= Map::<Seq<char>, Seq<char>>::empty());
        d
    }

    /// The text stored under `k`, if any.
    pub fn get(&self, k: &Key) -> (r: Option<String>)
        ensures
            r is Some <==> self@.contains_key(k@),
            r matches Some(v) ==> v@ == self@[k@],
    {
        match self.map.get(k.as_str()) {
            Some(t) => Some(t.clone()),
            None => None,
        }
    }

    /// Stores `v` under `k`, replacing what was stored there.
    pub fn insert(&mut self, k: &Key, v: &str)
        ensures
            final(self)@ == old(self)@.insert(k@, v@),
    {
        self.map.insert(k.as_str(), v.to_owned());
        assert(self@ =~= old(self)@.insert(k@, v@));
    }
}

/// Stores the text `v` under the key `k` in the store.
pub fn put_dict(dict: &mut Dict, k: &Key, v: &str)
    ensures
        final(dict)@ == old(dict)@.insert(k@, v@),
{
    dict.insert(k, v);
}

/// Reading after writing: once `put_dict` has stored `v` under `k`, the
/// store gives `v` back for `k`, and for every other key it gives what it
/// gave before.
pub proof fn law_read_after_write(before: Dict, after: Dict, k: Key, v: Seq<char>, other: Seq<char>)
    requires
        after@ == before@.insert(k@, v),
    ensures
        after@.contains_key(k@),
        after@[k@] == v,
        other != k@ ==> (after@.contains_key(other) <==> before@.contains_key(other)),
        other != k@ && before@.contains_key(other) ==> after@[other] == before@[other],
{
}

/// The last write wins: storing `v1` and then `v2` under the same key
/// leaves the store as storing `v2` alone would.
pub proof fn law_last_write_wins(d0: Dict, d1: Dict, d2: Dict, k: Key, v1: Seq<char>, v2: Seq<char>)
    requires
        d1@ == d0@.insert(k@, v1),
        d2@ == d1@.insert(k@, v2),
    ensures
        d2@ == d0@.insert(k@, v2),
{
    assert(d2@ =~= d0@.insert(k@, v2));
}

} // verus!
