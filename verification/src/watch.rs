use vstd::prelude::*;
use crate::assoc::{assoc_map, unique_keys, lemma_assoc_contains, lemma_assoc_lookup, lemma_assoc_update, lemma_assoc_push};
use crate::order::lemma_comps_order;
use crate::paths::{components, path_compare};

verus! {

/// For each watched path, whether it changed since its page was last told.
/// Paths are told apart by their components, as `PathBuf` keys are: `a//b`
/// and `a/b` are one path.
pub struct ModifiedFlags {
    entries: Vec<(String, bool)>,
}

impl ModifiedFlags {
    /// The entries as (components of the path, flag) pairs.
    pub closed spec fn pairs(&self) -> Seq<(Seq<(int, Seq<char>)>, bool)> {
        self.entries@.map_values(|e: (String, bool)| (components(e.0@), e.1))
    }

    #[verifier::type_invariant]
    closed spec fn paths_unique(&self) -> bool {
        unique_keys(self.pairs())
    }
}

impl View for ModifiedFlags {
    type V = Map<Seq<(int, Seq<char>)>, bool>;

    closed spec fn view(&self) -> Map<Seq<(int, Seq<char>)>, bool> {
        assoc_map(self.pairs())
    }
}

impl ModifiedFlags {
    /// No path watched yet.
    pub fn new() -> (f: ModifiedFlags)
        ensures
            f@ == Map::<Seq<(int, Seq<char>)>, bool>::empty(),
    {
        let f = ModifiedFlags { entries: Vec::new() };
        assert(f.pairs() =~= Seq::<(Seq<(int, Seq<char>)>, bool)>::empty());
        f
    }

    /// Index of the entry whose path has the components of `path`, if any.
    fn position(&self, path: &str) -> (r: Option<usize>)
        ensures
            r matches Some(i) ==> i < self.pairs().len() && self.pairs()[i as int].0 == components(path@),
            r is None ==> forall|i: int| 0 <= i < self.pairs().len() ==> self.pairs()[i].0 != components(path@),
    {
        let n = self.entries.len();
        let mut i: usize = 0;
        while i < n
            invariant
                n == self.entries@.len(),
                i <= n,
                forall|j: int| 0 <= j < i ==> self.pairs()[j].0 != components(path@),
            decreases n - i,
        {
            let k = path_compare(self.entries[i].0.as_str(), path);
            proof {
                lemma_comps_order(components(self.entries@[i as int].0@), components(path@), components(path@));
            }
            if k == 0 {
                return Some(i);
            }
            i = i + 1;
        }
        None
    }

    /// Sets the flag of `path` to `flag`; a path that is already present
    /// keeps the text it was first given.
    fn set(&mut self, path: &str, flag: bool)
        ensures
            final(self)@ == old(self)@.insert(components(path@), flag),
    {
        proof {
            use_type_invariant(&*self);
        }
        let ghost old_pairs = self.pairs();
        let pos = self.position(path);
        let mut entries: Vec<(String, bool)> = Vec::new();
        std::mem::swap(&mut entries, &mut self.entries);
        match pos {
            Some(i) => {
                let kept = entries[i].0.clone();
                entries.set(i, (kept, flag));
                proof {
                    lemma_assoc_update(old_pairs, i as int, flag);
                    assert(entries@.map_values(|e: (String, bool)| (components(e.0@), e.1))
                        =~= old_pairs.update(i as int, (old_pairs[i as int].0, flag)));
                }
            },
            None => {
                entries.push((path.to_owned(), flag));
                proof {
                    lemma_assoc_push(old_pairs, components(path@), flag);
                    assert(entries@.map_values(|e: (String, bool)| (components(e.0@), e.1))
                        =~= old_pairs.push((components(path@), flag)));
                }
            },
        }
        self.entries = entries;
    }

    /// Whether `path` is flagged as changed.
    pub fn is_modified(&self, path: &str) -> (b: bool)
        ensures
            b == (self@.contains_key(components(path@)) && self@[components(path@)]),
    {
        proof {
            use_type_invariant(self);
            lemma_assoc_contains(self.pairs(), components(path@));
        }
        match self.position(path) {
            Some(i) => {
                proof {
                    lemma_assoc_lookup(self.pairs(), i as int);
                }
                self.entries[i].1
            },
            None => false,
        }
    }

    /// A watcher event for `path` arrived; an event that carries no error
    /// flags the path as changed, an error changes nothing.
    pub fn record_event(&mut self, path: &str, event_ok: bool)
        ensures
            event_ok ==> final(self)@ == old(self)@.insert(components(path@), true),
            !event_ok ==> final(self)@ == old(self)@,
    {
        if event_ok {
            self.set(path, true);
        }
    }

    /// Marks `path` as changed.
    pub fn mark_modified(&mut self, path: &str)
        ensures
            final(self)@ == old(self)@.insert(components(path@), true),
    {
        self.set(path, true);
    }

    /// Whether `path` changed since the last call; a change is reported
    /// once, and its flag is then cleared.
    pub fn take_modified(&mut self, path: &str) -> (changed: bool)
        ensures
            changed == (old(self)@.contains_key(components(path@)) && old(self)@[components(path@)]),
            changed ==> final(self)@ == old(self)@.insert(components(path@), false),
            !changed ==> final(self)@ == old(self)@,
    {
        if self.is_modified(path) {
            self.set(path, false);
            true
        } else {
            false
        }
    }
}

/// Whether a page may subscribe to change events: only when looking up its
/// key did not fail (a key that is merely absent is let through).
pub fn sse_admitted<T, E>(lookup: &Result<T, E>) -> (admitted: bool)
    ensures
        admitted == lookup is Ok,
{
    lookup.is_ok()
}

/// A change is reported once: after `mark_modified(p)`, `take_modified(p)`
/// answers `true`, and a second `take_modified(p)` right after it answers
/// `false`.
pub proof fn law_change_reported_once(
    f0: ModifiedFlags,
    f1: ModifiedFlags,
    f2: ModifiedFlags,
    f3: ModifiedFlags,
    p: Seq<(int, Seq<char>)>,
    first: bool,
    second: bool,
)
    requires
        f1@ == f0@.insert(p, true),
        first == (f1@.contains_key(p) && f1@[p]),
        first ==> f2@ == f1@.insert(p, false),
        !first ==> f2@ == f1@,
        second == (f2@.contains_key(p) && f2@[p]),
        second ==> f3@ == f2@.insert(p, false),
        !second ==> f3@ == f2@,
    ensures
        first,
        !second,
        f3@ == f0@.insert(p, false),
{
    assert(f3@ =~= f0@.insert(p, false));
}

} // verus!
