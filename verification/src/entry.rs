use vstd::prelude::*;
use crate::key::Key;
use crate::paths::{components, file_name, lemma_pieces, names_something, pieces, has_parent, path_compare, path_file_name, path_has_parent, path_order};
use crate::text::{push_char, push_str, replace, replace_all};
use crate::order::lemma_comps_order;

verus! {

/// One node of a shared directory tree: a directory with its entries, or a
/// file. Paths are relative to the shared directory; the shared directory
/// itself has the empty path.
pub enum Entry {
    Dir { path: String, children: EntrySet },
    File { path: String },
}

/// The entries of a directory, kept in order without duplicates: all
/// directories before all files, then by path component by component,
/// then (for directories of equal path) by their entries.
pub struct EntrySet {
    items: Vec<Entry>,
}

/// 0 for a directory, 1 for a file: directories sort first.
pub open spec fn kind_rank(e: Entry) -> int {
    match e {
        Entry::Dir { .. } => 0,
        Entry::File { .. } => 1,
    }
}

/// The path of an entry, as text.
pub open spec fn entry_path(e: Entry) -> Seq<char> {
    match e {
        Entry::Dir { path, .. } => path@,
        Entry::File { path } => path@,
    }
}

/// The three-way order of entries (-1, 0 or 1), that of the tree's derived
/// `Ord`: directories before files; then by path, component by component;
/// two directories whose paths compare equal then by their entries.
pub closed spec fn entry_order(a: Entry, b: Entry) -> int
    decreases a,
{
    match a {
        Entry::Dir { path: p, children: c } => match b {
            Entry::Dir { path: q, children: d } => {
                let k = path_order(p@, q@);
                if k != 0 {
                    k
                } else {
                    entries_order(c.items@, d.items@)
                }
            },
            Entry::File { .. } => -1,
        },
        Entry::File { path: p } => match b {
            Entry::Dir { .. } => 1,
            Entry::File { path: q } => path_order(p@, q@),
        },
    }
}

/// Lexicographic three-way order of entry sequences, a proper prefix first.
pub open spec fn entries_order(s: Seq<Entry>, t: Seq<Entry>) -> int
    decreases s,
{
    if s.len() == 0 {
        if t.len() == 0 {
            0
        } else {
            -1
        }
    } else if t.len() == 0 {
        1
    } else if entry_order(s[0], t[0]) != 0 {
        entry_order(s[0], t[0])
    } else {
        entries_order(s.drop_first(), t.drop_first())
    }
}

/// `entry_order` spelt out over the entries' views.
pub proof fn lemma_entry_order_unfold(a: Entry, b: Entry)
    ensures
        entry_order(a, b) == match a {
            Entry::Dir { path: p, children: c } => match b {
                Entry::Dir { path: q, children: d } => if path_order(p@, q@) != 0 {
                    path_order(p@, q@)
                } else {
                    entries_order(c@, d@)
                },
                Entry::File { .. } => -1,
            },
            Entry::File { path: p } => match b {
                Entry::Dir { .. } => 1,
                Entry::File { path: q } => path_order(p@, q@),
            },
        },
{
}

/// `entry_order` is antisymmetric.
pub proof fn lemma_entry_order_antisymmetric(a: Entry, b: Entry)
    ensures
        entry_order(a, b) == -entry_order(b, a),
    decreases a,
{
    match (a, b) {
        (Entry::Dir { path: p, children: ca }, Entry::Dir { path: q, children: cb }) => {
            lemma_comps_order(components(p@), components(q@), components(p@));
            lemma_entries_order_antisymmetric(ca.items@, cb.items@);
        },
        (Entry::File { path: p }, Entry::File { path: q }) => {
            lemma_comps_order(components(p@), components(q@), components(p@));
        },
        _ => {},
    }
}

/// `entries_order` is antisymmetric.
pub proof fn lemma_entries_order_antisymmetric(s: Seq<Entry>, t: Seq<Entry>)
    ensures
        entries_order(s, t) == -entries_order(t, s),
    decreases s,
{
    if s.len() > 0 && t.len() > 0 {
        lemma_entry_order_antisymmetric(s[0], t[0]);
        lemma_entries_order_antisymmetric(s.drop_first(), t.drop_first());
    }
}

/// The number of nodes of a tree.
pub closed spec fn entry_size(e: Entry) -> nat
    decreases e,
{
    match e {
        Entry::Dir { children, .. } => 1 + entries_size(children.items@),
        Entry::File { .. } => 1,
    }
}

/// One more than the number of nodes of the trees of a sequence.
pub open spec fn entries_size(s: Seq<Entry>) -> nat
    decreases s,
{
    if s.len() == 0 {
        1
    } else {
        entry_size(s[0]) + entries_size(s.drop_first())
    }
}

proof fn lemma_sizes_positive(e: Entry, s: Seq<Entry>)
    ensures
        entry_size(e) >= 1,
        entries_size(s) >= 1,
        s.len() > 0 ==> entry_size(s[0]) < entries_size(s) && entries_size(s.drop_first()) < entries_size(s),
{
    if s.len() > 0 {
        assert(entries_size(s.drop_first()) >= 1) by {
            if s.drop_first().len() > 0 {
                assert(entry_size(s.drop_first()[0]) >= 1) by {
                    match s.drop_first()[0] {
                        Entry::Dir { .. } => {},
                        Entry::File { .. } => {},
                    }
                }
            }
        }
        assert(entry_size(s[0]) >= 1) by {
            match s[0] {
                Entry::Dir { .. } => {},
                Entry::File { .. } => {},
            }
        }
    }
    match e {
        Entry::Dir { .. } => {},
        Entry::File { .. } => {},
    }
}

/// `entry_order` is transitive, both ways.
pub proof fn lemma_entry_order_transitive(a: Entry, b: Entry, c: Entry)
    ensures
        entry_order(a, b) <= 0 && entry_order(b, c) <= 0 ==> entry_order(a, c) <= 0,
        entry_order(a, b) >= 0 && entry_order(b, c) >= 0 ==> entry_order(a, c) >= 0,
    decreases entry_size(a) + entry_size(b) + entry_size(c),
{
    match (a, b, c) {
        (Entry::Dir { path: p, children: ca }, Entry::Dir { path: q, children: cb }, Entry::Dir { path: r, children: cc }) => {
            lemma_comps_order(components(p@), components(q@), components(r@));
            lemma_comps_order(components(r@), components(q@), components(p@));
            lemma_comps_order(components(q@), components(r@), components(p@));
            lemma_comps_order(components(p@), components(r@), components(q@));
            lemma_sizes_positive(a, ca.items@);
            lemma_sizes_positive(b, cb.items@);
            lemma_sizes_positive(c, cc.items@);
            lemma_entries_order_transitive(ca.items@, cb.items@, cc.items@);
        },
        (Entry::File { path: p }, Entry::File { path: q }, Entry::File { path: r }) => {
            lemma_comps_order(components(p@), components(q@), components(r@));
            lemma_comps_order(components(r@), components(q@), components(p@));
            lemma_comps_order(components(q@), components(r@), components(p@));
            lemma_comps_order(components(p@), components(r@), components(q@));
        },
        _ => {},
    }
}

/// `entries_order` is transitive, both ways.
pub proof fn lemma_entries_order_transitive(s: Seq<Entry>, t: Seq<Entry>, u: Seq<Entry>)
    ensures
        entries_order(s, t) <= 0 && entries_order(t, u) <= 0 ==> entries_order(s, u) <= 0,
        entries_order(s, t) >= 0 && entries_order(t, u) >= 0 ==> entries_order(s, u) >= 0,
    decreases entries_size(s) + entries_size(t) + entries_size(u),
{
    if s.len() > 0 && t.len() > 0 && u.len() > 0 {
        let (x, y, z) = (s[0], t[0], u[0]);
        lemma_sizes_positive(x, s);
        lemma_sizes_positive(y, t);
        lemma_sizes_positive(z, u);
        lemma_entry_order_antisymmetric(x, y);
        lemma_entry_order_antisymmetric(y, z);
        lemma_entry_order_antisymmetric(x, z);
        lemma_entry_order_transitive(x, y, z);
        lemma_entry_order_transitive(x, z, y);
        lemma_entry_order_transitive(y, x, z);
        lemma_entry_order_transitive(y, z, x);
        lemma_entry_order_transitive(z, x, y);
        lemma_entry_order_transitive(z, y, x);
        lemma_entries_order_transitive(s.drop_first(), t.drop_first(), u.drop_first());
    }
}

/// `entry_order` is antisymmetric and transitive.
pub proof fn lemma_entry_order(a: Entry, b: Entry, c: Entry)
    ensures
        entry_order(a, b) == -entry_order(b, a),
        entry_order(a, b) <= 0 && entry_order(b, c) <= 0 ==> entry_order(a, c) <= 0,
        entry_order(a, b) >= 0 && entry_order(b, c) >= 0 ==> entry_order(a, c) >= 0,
{
    lemma_entry_order_antisymmetric(a, b);
    lemma_entry_order_transitive(a, b, c);
}

/// `a` comes before `b`.
pub open spec fn entry_less(a: Entry, b: Entry) -> bool {
    entry_order(a, b) < 0
}

/// `a` and `b` compare equal: a set holds one of them.
pub open spec fn entry_equiv(a: Entry, b: Entry) -> bool {
    entry_order(a, b) == 0
}

/// Entries in strictly increasing order.
pub open spec fn entries_sorted(s: Seq<Entry>) -> bool {
    forall|i: int, j: int| 0 <= i < j < s.len() ==> entry_less(s[i], s[j])
}

proof fn lemma_entry_less_transitive(a: Entry, b: Entry, c: Entry)
    requires
        entry_less(a, b),
        entry_less(b, c),
    ensures
        entry_less(a, c),
{
    lemma_entry_order(a, b, c);
    lemma_entry_order(a, c, b);
    lemma_entry_order(c, a, b);
    lemma_entry_order(b, c, a);
}

proof fn lemma_entry_less_trichotomy(a: Entry, b: Entry)
    ensures
        !entry_less(a, b) && !entry_equiv(a, b) ==> entry_less(b, a),
        entry_less(a, b) ==> !entry_equiv(a, b) && !entry_less(b, a),
        entry_equiv(a, b) == entry_equiv(b, a),
        entry_equiv(a, a),
{
    lemma_entry_order(a, b, a);
    lemma_entry_order(a, a, a);
}

/// An entry's path as it stands in a URL: a directory's ends with `/`.
pub open spec fn entry_pathstr(e: Entry) -> Seq<char> {
    match e {
        Entry::Dir { path, .. } => path@.push('/'),
        Entry::File { path } => path@,
    }
}

/// Whether the entry's path ends in a name.
pub open spec fn is_named(e: Entry) -> bool {
    file_name(entry_path(e)) is Some
}

/// The name an entry is listed under: the last component of its path,
/// followed by `/` for a directory.
pub open spec fn entry_name(e: Entry) -> Seq<char> {
    match e {
        Entry::Dir { .. } => file_name(entry_path(e))->0.push('/'),
        Entry::File { .. } => file_name(entry_path(e))->0,
    }
}

/// The list line that leads to the parent directory.
pub open spec fn up_line() -> Seq<char> {
    "<li><a href=../>..</a></li>"@
}

/// The list line that links to an entry named `name`.
pub open spec fn item_line(name: Seq<char>) -> Seq<char> {
    "<li><a href="@ + name + ">"@ + name + "</a></li>"@
}

/// The lines of a directory's list: a link to the parent where the
/// directory has one, then a link to each entry, in order.
pub open spec fn list_lines(current: Seq<char>, children: Seq<Entry>) -> Seq<Seq<char>> {
    (if has_parent(current) {
        seq![up_line()]
    } else {
        Seq::<Seq<char>>::empty()
    }) + children.map_values(|e: Entry| item_line(entry_name(e)))
}

/// Lines joined with a newline between each two (`[String]::join("\n")`).
pub open spec fn join_lines(lines: Seq<Seq<char>>) -> Seq<char>
    decreases lines.len(),
{
    if lines.len() == 0 {
        Seq::empty()
    } else if lines.len() == 1 {
        lines[0]
    } else {
        join_lines(lines.drop_last()) + seq!['\n'] + lines.last()
    }
}

/// Every entry of the sequence is named.
pub open spec fn all_named(s: Seq<Entry>) -> bool {
    forall|i: int| 0 <= i < s.len() ==> is_named(#[trigger] s[i])
}

/// The route of a directory's page: `/`, the key, `/` and the directory's
/// path, with each `//` made `/`.
pub open spec fn route_of(k: Seq<char>, e: Entry) -> Seq<char> {
    replace_all(seq!['/'] + k + seq!['/'] + entry_pathstr(e), seq!['/', '/'], seq!['/'])
}

/// Each directory of the tree has only named entries.
pub closed spec fn tree_named(e: Entry) -> bool
    decreases e,
{
    match e {
        Entry::Dir { children, .. } => all_named(children.items@) && forall_tree_named(children.items@),
        Entry::File { .. } => true,
    }
}

/// `tree_named` of each entry of the sequence.
pub open spec fn forall_tree_named(s: Seq<Entry>) -> bool
    decreases s,
{
    if s.len() == 0 {
        true
    } else {
        forall_tree_named(s.drop_last()) && tree_named(s.last())
    }
}

/// The (route, list) pair of each directory of the tree, the directory
/// before its entries' pairs and the entries in order.
pub closed spec fn tree_routes(k: Seq<char>, e: Entry) -> Seq<(Seq<char>, Seq<char>)>
    decreases e,
{
    match e {
        Entry::Dir { path, children } => seq![(route_of(k, e), join_lines(list_lines(path@, children.items@)))]
            + seq_routes(k, children.items@),
        Entry::File { .. } => Seq::empty(),
    }
}

/// `tree_routes` of each entry of the sequence, one after the other.
pub open spec fn seq_routes(k: Seq<char>, s: Seq<Entry>) -> Seq<(Seq<char>, Seq<char>)>
    decreases s,
{
    if s.len() == 0 {
        Seq::empty()
    } else {
        seq_routes(k, s.drop_last()) + tree_routes(k, s.last())
    }
}

/// `tree_named` spelt out over the entries' views.
pub proof fn lemma_tree_named_unfold(e: Entry)
    ensures
        tree_named(e) == match e {
            Entry::Dir { children, .. } => all_named(children@) && forall_tree_named(children@),
            Entry::File { .. } => true,
        },
{
}

/// `tree_routes` spelt out over the entries' views.
pub proof fn lemma_tree_routes_unfold(k: Seq<char>, e: Entry)
    ensures
        tree_routes(k, e) == match e {
            Entry::Dir { path, children } => seq![(route_of(k, e), join_lines(list_lines(path@, children@)))]
                + seq_routes(k, children@),
            Entry::File { .. } => Seq::<(Seq<char>, Seq<char>)>::empty(),
        },
{
}

impl View for EntrySet {
    type V = Seq<Entry>;

    closed spec fn view(&self) -> Seq<Entry> {
        self.items@
    }
}

impl EntrySet {
    #[verifier::type_invariant]
    closed spec fn ordered(&self) -> bool {
        entries_sorted(self.items@)
    }

    /// An empty set.
    pub fn new() -> (s: EntrySet)
        ensures
            s@ == Seq::<Entry>::empty(),
    {
        EntrySet { items: Vec::new() }
    }

    /// The number of entries; the entries are in order.
    pub fn len(&self) -> (n: usize)
        ensures
            n == self@.len(),
            entries_sorted(self@),
    {
        proof {
            use_type_invariant(self);
        }
        self.items.len()
    }

    /// The entry at position `i`, in order.
    pub fn get(&self, i: usize) -> (e: &Entry)
        requires
            i < self@.len(),
        ensures
            *e == self@[i as int],
    {
        &self.items[i]
    }

    /// Adds `e` unless the set holds an entry that compares equal to it;
    /// says whether it added it (`BTreeSet::insert`).
    pub fn insert(&mut self, e: Entry) -> (added: bool)
        ensures
            added == !(exists|i: int| 0 <= i < old(self)@.len() && entry_equiv(old(self)@[i], e)),
            !added ==> final(self)@ == old(self)@,
            added ==> exists|pos: int| 0 <= pos <= old(self)@.len() && final(self)@ == old(self)@.insert(pos, e),
            entries_sorted(final(self)@),
    {
        proof {
            use_type_invariant(&*self);
        }
        let ghost old_items = self.items@;
        let n = self.items.len();
        let mut i: usize = 0;
        while i < n && entry_compare(&self.items[i], &e) < 0
            invariant
                n == self.items@.len(),
                self.items@ == old_items,
                entries_sorted(old_items),
                i <= n,
                forall|j: int| 0 <= j < i ==> entry_less(old_items[j], e),
            decreases n - i,
        {
            i = i + 1;
        }
        if i < n && entry_compare(&self.items[i], &e) == 0 {
            proof {
                assert(entry_equiv(old(self)@[i as int], e));
            }
            return false;
        }
        proof {
            assert forall|j: int| 0 <= j < old_items.len() implies !entry_equiv(old_items[j], e) by {
                if j < i {
                    lemma_entry_less_trichotomy(old_items[j], e);
                } else {
                    lemma_entry_less_trichotomy(e, old_items[j]);
                    lemma_entry_less_trichotomy(old_items[i as int], e);
                    if j > i {
                        lemma_entry_less_transitive(e, old_items[i as int], old_items[j]);
                        lemma_entry_less_trichotomy(e, old_items[j]);
                        assert(!entry_equiv(e, old_items[j]));
                    }
                }
            }
        }
        let mut items: Vec<Entry> = Vec::new();
        std::mem::swap(&mut items, &mut self.items);
        items.insert(i, e);
        proof {
            let s = items@;
            assert(s == old_items.insert(i as int, e));
            assert forall|a: int, b: int| 0 <= a < b < s.len() implies entry_less(s[a], s[b]) by {
                if i < n {
                    lemma_entry_less_trichotomy(old_items[i as int], e);
                }
                if b < i {
                    assert(s[a] == old_items[a] && s[b] == old_items[b]);
                } else if b == i {
                    assert(s[a] == old_items[a]);
                } else if a == i {
                    assert(s[b] == old_items[b - 1]);
                    if b - 1 > i {
                        lemma_entry_less_transitive(e, old_items[i as int], old_items[b - 1]);
                    }
                } else if a < i {
                    assert(s[a] == old_items[a] && s[b] == old_items[b - 1]);
                } else {
                    assert(s[a] == old_items[a - 1] && s[b] == old_items[b - 1]);
                }
            }
        }
        self.items = items;
        assert(old(self)@ == old_items);
        assert(self@ == old(self)@.insert(i as int, e));
        true
    }
}

/// The three-way order of two entries: -1, 0 or 1 (the tree's `Ord`).
pub fn entry_compare(a: &Entry, b: &Entry) -> (r: i8)
    ensures
        r == entry_order(*a, *b),
    decreases a,
{
    match a {
        Entry::Dir { path: p, children: c } => match b {
            Entry::Dir { path: q, children: d } => {
                let k = path_compare(p.as_str(), q.as_str());
                if k != 0 {
                    return k;
                }
                let n = c.items.len();
                let m = d.items.len();
                let mut i: usize = 0;
                assert(c.items@.skip(0) =~= c.items@ && d.items@.skip(0) =~= d.items@);
                while i < n && i < m
                    invariant
                        *a is Dir,
                        a->Dir_children == *c,
                        n == c.items@.len(),
                        m == d.items@.len(),
                        i <= n,
                        i <= m,
                        entry_order(*a, *b) == entries_order(c.items@, d.items@),
                        entries_order(c.items@, d.items@) == entries_order(c.items@.skip(i as int), d.items@.skip(i as int)),
                    decreases n - i,
                {
                    let k = entry_compare(&c.items[i], &d.items[i]);
                    let ghost s = c.items@.skip(i as int);
                    let ghost t = d.items@.skip(i as int);
                    assert(s[0] == c.items@[i as int] && t[0] == d.items@[i as int]);
                    if k != 0 {
                        return k;
                    }
                    assert(s.drop_first() =~= c.items@.skip(i + 1));
                    assert(t.drop_first() =~= d.items@.skip(i + 1));
                    i = i + 1;
                }
                if i == n && i == m {
                    0
                } else if i == n {
                    -1
                } else {
                    1
                }
            },
            Entry::File { .. } => -1,
        },
        Entry::File { path: p } => match b {
            Entry::Dir { .. } => 1,
            Entry::File { path: q } => path_compare(p.as_str(), q.as_str()),
        },
    }
}

impl Entry {
    /// The entry's path.
    pub fn path(&self) -> (p: &String)
        ensures
            p@ == entry_path(*self),
    {
        match self {
            Entry::File { path } => path,
            Entry::Dir { path, .. } => path,
        }
    }

    /// The entry's path as it stands in a URL: a directory's ends with `/`.
    pub fn pathstr(&self) -> (p: String)
        ensures
            p@ == entry_pathstr(*self),
    {
        match self {
            Entry::File { path } => path.clone(),
            Entry::Dir { path, .. } => {
                let mut p = path.clone();
                push_char(&mut p, '/');
                p
            },
        }
    }

    /// The name the entry is listed under: the last component of its path,
    /// with `/` after a directory's.
    pub fn name(&self) -> (n: String)
        requires
            is_named(*self),
        ensures
            n@ == entry_name(*self),
    {
        match self {
            Entry::File { path } => {
                match path_file_name(path.as_str()) {
                    Some(n) => n,
                    None => String::new(),
                }
            },
            Entry::Dir { path, .. } => {
                match path_file_name(path.as_str()) {
                    Some(n) => {
                        let mut n = n;
                        push_char(&mut n, '/');
                        n
                    },
                    None => String::new(),
                }
            },
        }
    }

    /// The entry written out: its path.
    pub fn to_string(&self) -> (s: String)
        ensures
            s@ == entry_path(*self),
    {
        self.path().clone()
    }

    /// Whether every directory of the tree has only named entries (what
    /// `index_dirs` needs).
    pub fn names_ok(&self) -> (b: bool)
        ensures
            b == tree_named(*self),
        decreases self,
    {
        match self {
            Entry::File { .. } => true,
            Entry::Dir { children, .. } => {
                let n = children.items.len();
                let mut i: usize = 0;
                while i < n
                    invariant
                        *self is Dir,
                        self->Dir_children == *children,
                        n == children.items@.len(),
                        i <= n,
                        all_named(children.items@.take(i as int)),
                        forall_tree_named(children.items@.take(i as int)),
                    decreases n - i,
                {
                    let c = &children.items[i];
                    let named = match c {
                        Entry::File { path } => path_file_name(path.as_str()).is_some(),
                        Entry::Dir { path, .. } => path_file_name(path.as_str()).is_some(),
                    };
                    assert(named == is_named(*c));
                    if !named || !c.names_ok() {
                        proof {
                            lemma_prefix_named(children.items@, i as int);
                        }
                        return false;
                    }
                    assert(children.items@.take(i + 1).drop_last() =~= children.items@.take(i as int));
                    assert(children.items@.take(i + 1).last() == *c);
                    i = i + 1;
                }
                assert(children.items@.take(n as int) =~= children.items@);
                true
            },
        }
    }
}

/// A failure at position `i` is a failure of the whole sequence.
proof fn lemma_prefix_named(s: Seq<Entry>, i: int)
    requires
        0 <= i < s.len(),
        !is_named(s[i]) || !tree_named(s[i]),
    ensures
        !(all_named(s) && forall_tree_named(s)),
    decreases s.len(),
{
    if i < s.len() - 1 {
        assert(s.drop_last()[i] == s[i]);
        lemma_prefix_named(s.drop_last(), i);
        if all_named(s) {
            assert(all_named(s.drop_last()));
        }
    }
}

/// The lines joined with a newline between each two.
fn join_with_newlines(lines: &Vec<String>) -> (r: String)
    ensures
        r@ == join_lines(lines@.map_values(|l: String| l@)),
{
    let ghost views = lines@.map_values(|l: String| l@);
    let mut r = String::new();
    let n = lines.len();
    let mut i: usize = 0;
    while i < n
        invariant
            n == lines@.len(),
            views == lines@.map_values(|l: String| l@),
            i <= n,
            r@ == join_lines(views.take(i as int)),
        decreases n - i,
    {
        assert(views.take(i + 1).drop_last() =~= views.take(i as int));
        if i > 0 {
            push_char(&mut r, '\n');
        } else {
            assert(r@ =~= Seq::<char>::empty());
        }
        push_str(&mut r, lines[i].as_str());
        i = i + 1;
        assert(r@ =~= join_lines(views.take(i as int)));
    }
    assert(views.take(n as int) =~= views);
    r
}

/// The HTML list of a directory page: a link to the parent directory when
/// `current` has one, then a link to each entry, one per line.
pub fn create_list_string(current: &str, children: &EntrySet) -> (list: String)
    requires
        all_named(children@),
    ensures
        list@ == join_lines(list_lines(current@, children@)),
{
    let mut lines: Vec<String> = Vec::new();
    let up = "<li><a href=../>..</a></li>";
    let has_up = path_has_parent(current);
    if has_up {
        lines.push(up.to_owned());
    }
    let ghost head: Seq<Seq<char>> = if has_up { seq![up_line()] } else { Seq::empty() };
    let n = children.items.len();
    let mut i: usize = 0;
    assert(lines@.map_values(|l: String| l@) =~= head);
    while i < n
        invariant
            n == children.items@.len(),
            children@ == children.items@,
            all_named(children@),
            i <= n,
            lines@.map_values(|l: String| l@) == head + children@.take(i as int).map_values(
                |e: Entry| item_line(entry_name(e)),
            ),
        decreases n - i,
    {
        let c = &children.items[i];
        assert(is_named(children@[i as int]));
        let name = c.name();
        let mut line = "<li><a href=".to_owned();
        push_str(&mut line, name.as_str());
        push_str(&mut line, ">");
        push_str(&mut line, name.as_str());
        push_str(&mut line, "</a></li>");
        let ghost before = lines@;
        lines.push(line);
        proof {
            assert(lines@.map_values(|l: String| l@) =~= before.map_values(|l: String| l@).push(item_line(entry_name(children@[i as int]))));
            assert(children@.take(i + 1).map_values(|e: Entry| item_line(entry_name(e)))
                =~= children@.take(i as int).map_values(|e: Entry| item_line(entry_name(e))).push(item_line(entry_name(children@[i as int]))));
        }
        i = i + 1;
        assert(lines@.map_values(|l: String| l@) =~= head + children@.take(i as int).map_values(
            |e: Entry| item_line(entry_name(e)),
        ));
    }
    assert(children@.take(n as int) =~= children@);
    join_with_newlines(&lines)
}

/// (route, list) pairs as texts.
pub open spec fn pair_views(v: Seq<(String, String)>) -> Seq<(Seq<char>, Seq<char>)> {
    v.map_values(|r: (String, String)| (r.0@, r.1@))
}

proof fn lemma_forall_tree_named(s: Seq<Entry>, i: int)
    requires
        forall_tree_named(s),
        0 <= i < s.len(),
    ensures
        tree_named(s[i]),
    decreases s.len(),
{
    if i < s.len() - 1 {
        assert(s.drop_last()[i] == s[i]);
        lemma_forall_tree_named(s.drop_last(), i);
    }
}

fn collect_routes(k: &Key, e: &Entry, out: &mut Vec<(String, String)>)
    requires
        tree_named(*e),
    ensures
        pair_views(final(out)@) == pair_views(old(out)@) + tree_routes(k@, *e),
    decreases e,
{
    match e {
        Entry::File { .. } => {
            assert(pair_views(out@) =~= pair_views(old(out)@) + tree_routes(k@, *e));
        },
        Entry::Dir { path, children } => {
            let list = create_list_string(path.as_str(), children);
            let mut raw = String::new();
            push_char(&mut raw, '/');
            push_str(&mut raw, k.as_str());
            push_char(&mut raw, '/');
            let ps = e.pathstr();
            push_str(&mut raw, ps.as_str());
            let double = "//";
            let single = "/";
            proof {
                reveal_strlit("//");
                reveal_strlit("/");
                assert(double@ =~= seq!['/', '/']);
                assert(single@ =~= seq!['/']);
                assert(raw@ =~= seq!['/'] + k@ + seq!['/'] + entry_pathstr(*e));
            }
            let route = replace(raw.as_str(), double, single);
            let ghost start = pair_views(out@);
            let ghost head = seq![(route_of(k@, *e), join_lines(list_lines(path@, children.items@)))];
            out.push((route, list));
            assert(pair_views(out@) =~= start + head);
            let n = children.items.len();
            let mut i: usize = 0;
            assert(seq_routes(k@, children.items@.take(0)) =~= Seq::<(Seq<char>, Seq<char>)>::empty()) by {
                assert(children.items@.take(0).len() == 0);
            }
            assert(pair_views(out@) =~= start + head + seq_routes(k@, children.items@.take(0)));
            while i < n
                invariant
                    *e is Dir,
                    e->Dir_children == *children,
                    n == children.items@.len(),
                    i <= n,
                    forall_tree_named(children.items@),
                    pair_views(out@) == start + head + seq_routes(k@, children.items@.take(i as int)),
                decreases n - i,
            {
                let c = &children.items[i];
                proof {
                    lemma_forall_tree_named(children.items@, i as int);
                }
                collect_routes(k, c, out);
                proof {
                    let t = children.items@.take(i + 1);
                    assert(t.drop_last() =~= children.items@.take(i as int));
                    assert(t.last() == *c);
                    assert(seq_routes(k@, t) == seq_routes(k@, t.drop_last()) + tree_routes(k@, t.last()));
                }
                i = i + 1;
                assert(pair_views(out@) =~= start + head + seq_routes(k@, children.items@.take(i as int)));
            }
            assert(children.items@.take(n as int) =~= children.items@);
            assert(pair_views(out@) =~= pair_views(old(out)@) + tree_routes(k@, *e));
        },
    }
}

/// The page of each directory of the tree under key `k`: its route (`/`,
/// the key, `/` and the directory's path, each `//` made `/`) and its HTML
/// list, the directory before those below it.
pub fn index_dirs(k: &Key, entry: &Entry) -> (routes: Vec<(String, String)>)
    requires
        tree_named(*entry),
    ensures
        pair_views(routes@) == tree_routes(k@, *entry),
{
    let mut out: Vec<(String, String)> = Vec::new();
    collect_routes(k, entry, &mut out);
    assert(pair_views(out@) =~= tree_routes(k@, *entry));
    out
}

/// A directory holds no two entries that compare equal: in an ordered
/// set no two entries compare equal.
pub proof fn law_sorted_entries_distinct(s: Seq<Entry>)
    requires
        entries_sorted(s),
    ensures
        forall|i: int, j: int| 0 <= i < s.len() && 0 <= j < s.len() && i != j ==> !entry_equiv(s[i], s[j]),
{
    assert forall|i: int, j: int| 0 <= i < s.len() && 0 <= j < s.len() && i != j implies !entry_equiv(s[i], s[j]) by {
        if i < j {
            lemma_entry_less_trichotomy(s[i], s[j]);
        } else {
            lemma_entry_less_trichotomy(s[j], s[i]);
            lemma_entry_less_trichotomy(s[i], s[j]);
        }
    }
}

/// Once inserted, an entry equal to it stays in the set: inserting
/// it a second time adds nothing.
pub proof fn law_insert_holds_entry(s0: Seq<Entry>, s1: Seq<Entry>, e: Entry, added: bool)
    requires
        added == !(exists|i: int| 0 <= i < s0.len() && entry_equiv(s0[i], e)),
        !added ==> s1 == s0,
        added ==> exists|pos: int| 0 <= pos <= s0.len() && s1 == s0.insert(pos, e),
    ensures
        exists|i: int| 0 <= i < s1.len() && entry_equiv(s1[i], e),
{
    if added {
        let pos = choose|pos: int| 0 <= pos <= s0.len() && s1 == s0.insert(pos, e);
        assert(s1[pos] == e);
        lemma_entry_less_trichotomy(e, e);
        assert(entry_equiv(s1[pos], e));
    } else {
        let i = choose|i: int| 0 <= i < s0.len() && entry_equiv(s0[i], e);
        assert(entry_equiv(s1[i], e));
    }
}

/// The name an entry is listed under ends its URL path, ends in `/`
/// exactly for a directory, and holds no other `/`; this is so for every
/// path that ends in a name (not in `/`, `/.` or `..`).
pub proof fn law_name_ends_pathstr(e: Entry)
    requires
        names_something(pieces(entry_path(e)).last()),
        pieces(entry_path(e)).last() != seq!['.', '.'],
    ensures
        is_named(e),
        file_name(entry_path(e))->0.len() > 0,
        forall|i: int| 0 <= i < file_name(entry_path(e))->0.len() ==> file_name(entry_path(e))->0[i] != '/',
        entry_name(e).len() <= entry_pathstr(e).len(),
        entry_pathstr(e).subrange(entry_pathstr(e).len() - entry_name(e).len(), entry_pathstr(e).len() as int)
            == entry_name(e),
        (entry_name(e).last() == '/') <==> e is Dir,
{
    let p = entry_path(e);
    lemma_pieces(p);
    let ps = pieces(p);
    let n = ps.last();
    assert(file_name(p) == Some(n));
    assert(forall|i: int| 0 <= i < n.len() ==> n[i] != '/') by {
        assert forall|i: int| 0 <= i < n.len() implies n[i] != '/' by {
            assert(ps[ps.len() - 1][i] != '/');
        }
    }
    match e {
        Entry::Dir { .. } => {
            assert(entry_pathstr(e).subrange(entry_pathstr(e).len() - entry_name(e).len(), entry_pathstr(e).len() as int)
                =~= p.subrange(p.len() - n.len(), p.len() as int).push('/'));
        },
        Entry::File { .. } => {
            assert(n[n.len() - 1] != '/');
        },
    }
}

/// The number of directories in a tree, the tree itself included.
pub closed spec fn dir_count(e: Entry) -> nat
    decreases e,
{
    match e {
        Entry::Dir { children, .. } => 1 + dirs_count(children.items@),
        Entry::File { .. } => 0,
    }
}

/// The number of directories in the trees of a sequence.
pub open spec fn dirs_count(s: Seq<Entry>) -> nat
    decreases s,
{
    if s.len() == 0 {
        0
    } else {
        dirs_count(s.drop_last()) + dir_count(s.last())
    }
}

/// `dir_count` spelt out over the entries' view.
pub proof fn lemma_dir_count_unfold(e: Entry)
    ensures
        dir_count(e) == match e {
            Entry::Dir { children, .. } => 1 + dirs_count(children@),
            Entry::File { .. } => 0,
        },
{
}

proof fn lemma_routes_count(k: Seq<char>, e: Entry)
    ensures
        tree_routes(k, e).len() == dir_count(e),
    decreases e,
{
    match e {
        Entry::Dir { children, .. } => {
            lemma_seq_routes_count(k, children.items@);
        },
        Entry::File { .. } => {},
    }
}

proof fn lemma_seq_routes_count(k: Seq<char>, s: Seq<Entry>)
    ensures
        seq_routes(k, s).len() == dirs_count(s),
    decreases s,
{
    if s.len() > 0 {
        lemma_seq_routes_count(k, s.drop_last());
        lemma_routes_count(k, s.last());
    }
}

/// Every page of an entry of the sequence is among the sequence's pages.
proof fn lemma_seq_routes_hold(k: Seq<char>, s: Seq<Entry>, i: int, j: int)
    requires
        0 <= i < s.len(),
        0 <= j < tree_routes(k, s[i]).len(),
    ensures
        seq_routes(k, s).contains(tree_routes(k, s[i])[j]),
    decreases s.len(),
{
    let a = seq_routes(k, s.drop_last());
    let b = tree_routes(k, s.last());
    assert(seq_routes(k, s) == a + b);
    if i == s.len() - 1 {
        assert((a + b)[a.len() + j] == b[j]);
    } else {
        assert(s.drop_last()[i] == s[i]);
        lemma_seq_routes_hold(k, s.drop_last(), i, j);
        let m = choose|m: int| 0 <= m < a.len() && a[m] == tree_routes(k, s[i])[j];
        assert((a + b)[m] == a[m]);
    }
}

/// Every directory of the tree gets a page: the tree's first page is its
/// own (its route and the list of its entries), every page of each of its
/// entries is among its pages (so, by induction, that of every directory
/// below it), and there are exactly as many pages as directories.
pub proof fn law_every_directory_indexed(k: Seq<char>, e: Entry)
    ensures
        tree_routes(k, e).len() == dir_count(e),
        e matches Entry::Dir { path, children } ==> tree_routes(k, e)[0] == (
            route_of(k, e),
            join_lines(list_lines(path@, children@)),
        ),
        e matches Entry::Dir { children, .. } ==> forall|i: int, j: int|
            0 <= i < children@.len() && 0 <= j < tree_routes(k, children@[i]).len() ==> tree_routes(
                k,
                e,
            ).contains(#[trigger] tree_routes(k, children@[i])[j]),
{
    lemma_routes_count(k, e);
    match e {
        Entry::Dir { path, children } => {
            let head = seq![(route_of(k, e), join_lines(list_lines(path@, children.items@)))];
            let rest = seq_routes(k, children.items@);
            assert(tree_routes(k, e) == head + rest);
            assert forall|i: int, j: int|
                0 <= i < children@.len() && 0 <= j < tree_routes(k, children@[i]).len() implies tree_routes(
                k,
                e,
            ).contains(#[trigger] tree_routes(k, children@[i])[j]) by {
                lemma_seq_routes_hold(k, children.items@, i, j);
                let m = choose|m: int| 0 <= m < rest.len() && rest[m] == tree_routes(k, children@[i])[j];
                assert((head + rest)[1 + m] == rest[m]);
            }
        },
        Entry::File { .. } => {},
    }
}

/// A directory's list has one line per entry, in order, each the link to
/// the entry under its name, after a link to the parent exactly when the
/// directory has one.
pub proof fn law_one_line_per_entry(current: Seq<char>, children: Seq<Entry>)
    ensures
        list_lines(current, children).len() == children.len() + (if has_parent(current) {
            1int
        } else {
            0int
        }),
        has_parent(current) ==> list_lines(current, children)[0] == up_line(),
        forall|j: int|
            0 <= j < children.len() ==> list_lines(current, children)[j + (if has_parent(current) {
                1int
            } else {
                0int
            })] == item_line(entry_name(#[trigger] children[j])),
{
}

/// The total length of some lines.
pub open spec fn total_len(lines: Seq<Seq<char>>) -> nat
    decreases lines.len(),
{
    if lines.len() == 0 {
        0
    } else {
        total_len(lines.drop_last()) + lines.last().len()
    }
}

proof fn lemma_total_len_first(lines: Seq<Seq<char>>)
    requires
        lines.len() > 0,
    ensures
        total_len(lines) >= lines[0].len(),
    decreases lines.len(),
{
    if lines.len() > 1 {
        lemma_total_len_first(lines.drop_last());
        assert(lines.drop_last()[0] == lines[0]);
    }
}

/// Joining keeps every line whole, in order, and adds one newline between
/// each two: the joined text starts with the first line and ends with the
/// last, and its length is that of the lines plus one per gap.
pub proof fn law_join_keeps_lines(lines: Seq<Seq<char>>)
    ensures
        lines.len() > 0 ==> join_lines(lines).len() == total_len(lines) + lines.len() - 1,
        lines.len() > 0 ==> join_lines(lines).subrange(0, lines[0].len() as int) == lines[0],
        lines.len() > 0 ==> join_lines(lines).subrange(
            join_lines(lines).len() - lines.last().len(),
            join_lines(lines).len() as int,
        ) == lines.last(),
        lines.len() == 0 ==> join_lines(lines).len() == 0,
    decreases lines.len(),
{
    if lines.len() > 1 {
        let init = lines.drop_last();
        law_join_keeps_lines(init);
        lemma_total_len_first(init);
        let j = join_lines(init);
        let whole = j + seq!['\n'] + lines.last();
        assert(join_lines(lines) == whole);
        assert(init[0] == lines[0]);
        assert(whole.subrange(0, lines[0].len() as int) =~= j.subrange(0, lines[0].len() as int));
        assert(whole.subrange(whole.len() - lines.last().len(), whole.len() as int) =~= lines.last());
    } else if lines.len() == 1 {
        assert(lines.drop_last().len() == 0);
        assert(total_len(lines) == total_len(lines.drop_last()) + lines.last().len());
        assert(lines[0].subrange(0, lines[0].len() as int) =~= lines[0]);
        assert(lines.last() == lines[0]);
        assert(lines[0].subrange(0, lines[0].len() as int) =~= lines[0]);
    }
}

} // verus!
