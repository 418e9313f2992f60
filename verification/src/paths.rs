use vstd::prelude::*;
use crate::order::{comp_order, comps_order, text_compare};
use crate::text::{chars_of, push_char, push_str};

verus! {

/// The text of `p` cut at each `/`; empty pieces stand where separators
/// meet or where `p` begins or ends with one.
pub open spec fn pieces(p: Seq<char>) -> Seq<Seq<char>>
    decreases p.len(),
{
    if p.len() == 0 {
        seq![Seq::<char>::empty()]
    } else {
        let r = pieces(p.drop_last());
        if p.last() == '/' {
            r.push(Seq::<char>::empty())
        } else {
            r.update(r.len() - 1, r.last().push(p.last()))
        }
    }
}

/// A piece that names something: neither empty nor the current-directory
/// mark `.`.
pub open spec fn names_something(c: Seq<char>) -> bool {
    c.len() > 0 && c != seq!['.']
}

/// The last piece that names something, if there is one.
pub open spec fn last_named(ps: Seq<Seq<char>>) -> Option<Seq<char>>
    decreases ps.len(),
{
    if ps.len() == 0 {
        None
    } else if names_something(ps.last()) {
        Some(ps.last())
    } else {
        last_named(ps.drop_last())
    }
}

/// The final component of path `p`, unless that is `..` or there is none
/// (`Path::file_name`).
pub open spec fn file_name(p: Seq<char>) -> Option<Seq<char>> {
    match last_named(pieces(p)) {
        Some(c) => if c == seq!['.', '.'] {
            None
        } else {
            Some(c)
        },
        None => None,
    }
}

/// A named piece as a path component: (2, empty) for `..`, (3, the name)
/// for any other.
pub open spec fn piece_comp(c: Seq<char>) -> (int, Seq<char>) {
    if c == seq!['.', '.'] {
        (2, Seq::<char>::empty())
    } else {
        (3, c)
    }
}

/// The components of the pieces that name something, in order.
pub open spec fn named_comps(ps: Seq<Seq<char>>) -> Seq<(int, Seq<char>)>
    decreases ps.len(),
{
    if ps.len() == 0 {
        Seq::empty()
    } else {
        named_comps(ps.drop_last()) + (if names_something(ps.last()) {
            seq![piece_comp(ps.last())]
        } else {
            Seq::<(int, Seq<char>)>::empty()
        })
    }
}

/// The path starts at the root: with `/`.
pub open spec fn starts_at_root(p: Seq<char>) -> bool {
    p.len() > 0 && p[0] == '/'
}

/// The relative path starts with the current-directory mark: it is `.` or
/// begins with `./`.
pub open spec fn starts_at_current(p: Seq<char>) -> bool {
    p.len() > 0 && p[0] == '.' && (p.len() == 1 || p[1] == '/')
}

/// The components of path `p` (`Path::components` on Unix), each as
/// (kind, text) in the sense of `comp_order`: the root if `p` starts with
/// `/`, else the current directory if it starts with `./` or is `.`; then
/// each piece that names something, `..` as the parent directory.
pub open spec fn components(p: Seq<char>) -> Seq<(int, Seq<char>)> {
    (if starts_at_root(p) {
        seq![(0, Seq::<char>::empty())]
    } else if starts_at_current(p) {
        seq![(1, Seq::<char>::empty())]
    } else {
        Seq::<(int, Seq<char>)>::empty()
    }) + named_comps(pieces(p))
}

/// The order of paths (`Path`'s `Ord`): component by component.
pub open spec fn path_order(p: Seq<char>, q: Seq<char>) -> int {
    comps_order(components(p), components(q))
}

/// Whether `p` has a parent (`Path::parent` is `Some`): whether its last
/// component is something other than the root.
pub open spec fn has_parent(p: Seq<char>) -> bool {
    components(p).len() > 0 && components(p).last().0 != 0
}

/// `p` extended by the relative component `c` (`PathBuf::push`): a `/` goes
/// between them unless `p` is empty or already ends with one.
pub open spec fn join(p: Seq<char>, c: Seq<char>) -> Seq<char> {
    if p.len() == 0 || p.last() == '/' {
        p + c
    } else {
        p.push('/') + c
    }
}

fn is_dot(c: &Vec<char>) -> (b: bool)
    ensures
        b == (c@ == seq!['.']),
{
    if c.len() == 1 && c[0] == '.' {
        assert(c@ =~= seq!['.']);
        true
    } else {
        false
    }
}

fn is_dot_dot(c: &Vec<char>) -> (b: bool)
    ensures
        b == (c@ == seq!['.', '.']),
{
    if c.len() == 2 && c[0] == '.' && c[1] == '.' {
        assert(c@ =~= seq!['.', '.']);
        true
    } else {
        false
    }
}

fn string_of(v: &Vec<char>) -> (s: String)
    ensures
        s@ == v@,
{
    let mut s = String::new();
    let mut i: usize = 0;
    while i < v.len()
        invariant
            i <= v@.len(),
            s@ == v@.take(i as int),
        decreases v@.len() - i,
    {
        push_char(&mut s, v[i]);
        i = i + 1;
        assert(s@ =~= v@.take(i as int));
    }
    assert(v@.take(v@.len() as int) =~= v@);
    s
}

/// The final component of the path, if it has one (`Path::file_name`).
pub fn path_file_name(p: &str) -> (r: Option<String>)
    ensures
        r is Some <==> file_name(p@) is Some,
        r matches Some(name) ==> name@ == file_name(p@)->0,
{
    let cs = chars_of(p);
    let n = cs.len();
    let mut cur: Vec<char> = Vec::new();
    let mut last: Option<Vec<char>> = None;
    let mut i: usize = 0;
    assert(cs@.take(0) =~= Seq::<char>::empty());
    while i < n
        invariant
            cs@ == p@,
            n == cs@.len(),
            i <= n,
            pieces(cs@.take(i as int)).len() > 0,
            pieces(cs@.take(i as int)).last() == cur@,
            last_named(pieces(cs@.take(i as int)).drop_last()) == (match last {
                Some(v) => Some(v@),
                None => None::<Seq<char>>,
            }),
        decreases n - i,
    {
        let c = cs[i];
        let ghost before = pieces(cs@.take(i as int));
        assert(cs@.take(i + 1).drop_last() =~= cs@.take(i as int));
        if c == '/' {
            if cur.len() > 0 && !is_dot(&cur) {
                last = Some(cur);
            }
            cur = Vec::new();
            assert(pieces(cs@.take(i + 1)) == before.push(Seq::<char>::empty()));
            assert(pieces(cs@.take(i + 1)).drop_last() =~= before);
        } else {
            cur.push(c);
            assert(pieces(cs@.take(i + 1)) == before.update(before.len() - 1, before.last().push(c)));
            assert(pieces(cs@.take(i + 1)).drop_last() =~= before.drop_last());
        }
        i = i + 1;
    }
    assert(cs@.take(n as int) =~= p@);
    if cur.len() > 0 && !is_dot(&cur) {
        last = Some(cur);
    }
    match last {
        Some(v) => {
            if is_dot_dot(&v) {
                None
            } else {
                Some(string_of(&v))
            }
        },
        None => None,
    }
}

/// Components as (kind, text).
pub open spec fn comps_view(v: Seq<(u8, Vec<char>)>) -> Seq<(int, Seq<char>)> {
    v.map_values(|c: (u8, Vec<char>)| (c.0 as int, c.1@))
}

fn piece_component(c: Vec<char>) -> (r: (u8, Vec<char>))
    ensures
        (r.0 as int, r.1@) == piece_comp(c@),
{
    if is_dot_dot(&c) {
        (2, Vec::new())
    } else {
        (3, c)
    }
}

/// The components of the path (`Path::components`).
pub fn path_components(p: &str) -> (r: Vec<(u8, Vec<char>)>)
    ensures
        comps_view(r@) == components(p@),
{
    let cs = chars_of(p);
    let n = cs.len();
    let mut out: Vec<(u8, Vec<char>)> = Vec::new();
    if n > 0 && cs[0] == '/' {
        out.push((0, Vec::new()));
    } else if n > 0 && cs[0] == '.' && (n == 1 || cs[1] == '/') {
        out.push((1, Vec::new()));
    }
    let ghost head = comps_view(out@);
    assert(head =~= components(p@).take(head.len() as int)) by {
        assert(comps_view(out@) =~= if starts_at_root(p@) {
            seq![(0, Seq::<char>::empty())]
        } else if starts_at_current(p@) {
            seq![(1, Seq::<char>::empty())]
        } else {
            Seq::<(int, Seq<char>)>::empty()
        });
    }
    let mut cur: Vec<char> = Vec::new();
    let mut i: usize = 0;
    assert(cs@.take(0) =~= Seq::<char>::empty());
    assert(comps_view(out@) =~= head + named_comps(pieces(cs@.take(0)).drop_last()));
    while i < n
        invariant
            cs@ == p@,
            n == cs@.len(),
            i <= n,
            head == (if starts_at_root(p@) {
                seq![(0, Seq::<char>::empty())]
            } else if starts_at_current(p@) {
                seq![(1, Seq::<char>::empty())]
            } else {
                Seq::<(int, Seq<char>)>::empty()
            }),
            pieces(cs@.take(i as int)).len() > 0,
            pieces(cs@.take(i as int)).last() == cur@,
            comps_view(out@) == head + named_comps(pieces(cs@.take(i as int)).drop_last()),
        decreases n - i,
    {
        let c = cs[i];
        let ghost before = pieces(cs@.take(i as int));
        let ghost out_before = comps_view(out@);
        assert(cs@.take(i + 1).drop_last() =~= cs@.take(i as int));
        if c == '/' {
            assert(pieces(cs@.take(i + 1)) == before.push(Seq::<char>::empty()));
            assert(pieces(cs@.take(i + 1)).drop_last() =~= before);
            assert(before.drop_last().push(before.last()) =~= before);
            if cur.len() > 0 && !is_dot(&cur) {
                let mut piece: Vec<char> = Vec::new();
                std::mem::swap(&mut piece, &mut cur);
                let comp = piece_component(piece);
                out.push(comp);
                assert(comps_view(out@) =~= out_before.push((comp.0 as int, comp.1@)));
            } else {
                cur = Vec::new();
            }
            assert(comps_view(out@) =~= head + named_comps(pieces(cs@.take(i + 1)).drop_last()));
        } else {
            cur.push(c);
            assert(pieces(cs@.take(i + 1)) == before.update(before.len() - 1, before.last().push(c)));
            assert(pieces(cs@.take(i + 1)).drop_last() =~= before.drop_last());
        }
        i = i + 1;
    }
    assert(cs@.take(n as int) =~= p@);
    let ghost ps = pieces(p@);
    assert(ps.drop_last().push(ps.last()) =~= ps);
    let ghost out_before = comps_view(out@);
    if cur.len() > 0 && !is_dot(&cur) {
        let comp = piece_component(cur);
        out.push(comp);
        assert(comps_view(out@) =~= out_before.push((comp.0 as int, comp.1@)));
    }
    assert(comps_view(out@) =~= components(p@));
    out
}

/// The order of two paths: -1, 0 or 1 (`Path`'s `Ord`).
pub fn path_compare(p: &str, q: &str) -> (r: i8)
    ensures
        r == path_order(p@, q@),
{
    let a = path_components(p);
    let b = path_components(q);
    let ghost x = comps_view(a@);
    let ghost y = comps_view(b@);
    let n = a.len();
    let m = b.len();
    let mut i: usize = 0;
    assert(x.skip(0) =~= x && y.skip(0) =~= y);
    while i < n && i < m
        invariant
            x == comps_view(a@),
            y == comps_view(b@),
            x == components(p@),
            y == components(q@),
            n == a@.len(),
            m == b@.len(),
            i <= n,
            i <= m,
            comps_order(x, y) == comps_order(x.skip(i as int), y.skip(i as int)),
        decreases n - i,
    {
        let ghost xs = x.skip(i as int);
        let ghost ys = y.skip(i as int);
        assert(xs[0] == (a@[i as int].0 as int, a@[i as int].1@));
        assert(ys[0] == (b@[i as int].0 as int, b@[i as int].1@));
        let k = if a[i].0 < b[i].0 {
            -1
        } else if a[i].0 > b[i].0 {
            1
        } else {
            text_compare(&a[i].1, &b[i].1)
        };
        assert(k == comp_order(xs[0], ys[0]));
        assert(xs.len() > 0 && ys.len() > 0);
        if k != 0 {
            assert(comps_order(xs, ys) == k);
            return k;
        }
        assert(xs.drop_first() =~= x.skip(i + 1));
        assert(ys.drop_first() =~= y.skip(i + 1));
        i = i + 1;
    }
    if i == n && i == m {
        0
    } else if i == n {
        -1
    } else {
        1
    }
}

/// Whether the path has a parent (`Path::parent(p).is_some()`).
pub fn path_has_parent(p: &str) -> (b: bool)
    ensures
        b == has_parent(p@),
{
    let cs = path_components(p);
    if cs.len() == 0 {
        false
    } else {
        assert(comps_view(cs@).last() == (cs@.last().0 as int, cs@.last().1@));
        cs[cs.len() - 1].0 != 0
    }
}

/// `p` with the relative component `c` pushed onto it (`PathBuf::push`).
pub fn path_join(p: &str, c: &str) -> (r: String)
    ensures
        r@ == join(p@, c@),
{
    let cs = chars_of(p);
    let mut r = string_of(&cs);
    if cs.len() > 0 && cs[cs.len() - 1] != '/' {
        push_char(&mut r, '/');
    }
    push_str(&mut r, c);
    r
}

/// No piece holds a `/`, and the path ends with its last piece.
pub proof fn lemma_pieces(p: Seq<char>)
    ensures
        pieces(p).len() > 0,
        forall|j: int, i: int| 0 <= j < pieces(p).len() && 0 <= i < pieces(p)[j].len() ==> pieces(p)[j][i] != '/',
        pieces(p).last().len() <= p.len(),
        p.subrange(p.len() - pieces(p).last().len(), p.len() as int) == pieces(p).last(),
    decreases p.len(),
{
    if p.len() == 0 {
        assert(p.subrange(0, 0) =~= Seq::<char>::empty());
    } else {
        let q = p.drop_last();
        lemma_pieces(q);
        let r = pieces(q);
        let c = p.last();
        if c == '/' {
            assert(p.subrange(p.len() as int, p.len() as int) =~= Seq::<char>::empty());
            assert forall|j: int, i: int| 0 <= j < pieces(p).len() && 0 <= i < pieces(p)[j].len() implies pieces(p)[j][i] != '/' by {
                if j < r.len() {
                    assert(pieces(p)[j] == r[j]);
                }
            }
        } else {
            let last = r.last().push(c);
            assert(pieces(p) == r.update(r.len() - 1, last));
            assert forall|j: int, i: int| 0 <= j < pieces(p).len() && 0 <= i < pieces(p)[j].len() implies pieces(p)[j][i] != '/' by {
                if j < r.len() - 1 {
                    assert(pieces(p)[j] == r[j]);
                } else {
                    assert(pieces(p)[j] == last);
                    if i < r.last().len() {
                        assert(last[i] == r[r.len() - 1][i]);
                    }
                }
            }
            assert(p.subrange(p.len() - last.len(), p.len() as int) =~= q.subrange(q.len() - r.last().len(), q.len() as int).push(c));
        }
    }
}

/// Appending text without `/` extends the last piece and leaves the others.
proof fn lemma_pieces_append(p: Seq<char>, q: Seq<char>)
    requires
        forall|i: int| 0 <= i < q.len() ==> q[i] != '/',
    ensures
        pieces(p + q) == pieces(p).update(pieces(p).len() - 1, pieces(p).last() + q),
    decreases q.len(),
{
    lemma_pieces(p);
    if q.len() == 0 {
        assert(p + q =~= p);
        assert(pieces(p).last() + q =~= pieces(p).last());
        assert(pieces(p).update(pieces(p).len() - 1, pieces(p).last()) =~= pieces(p));
    } else {
        let q0 = q.drop_last();
        lemma_pieces_append(p, q0);
        assert((p + q).drop_last() =~= p + q0);
        assert((p + q).last() == q.last());
        let r = pieces(p + q0);
        assert(r.last() == pieces(p).last() + q0);
        assert(r.last().push(q.last()) =~= pieces(p).last() + q);
        assert(pieces(p + q) =~= pieces(p).update(pieces(p).len() - 1, pieces(p).last() + q));
    }
}

/// Only `/` separates components: a name `n` (not empty, no `/`, not `.`
/// or `..`) standing alone or after any path and a `/` is that path's file
/// name, whatever characters it holds.
pub proof fn law_file_name_is_last_component(d: Seq<char>, n: Seq<char>)
    requires
        n.len() > 0,
        forall|i: int| 0 <= i < n.len() ==> n[i] != '/',
        n != seq!['.'],
        n != seq!['.', '.'],
    ensures
        file_name(d + seq!['/'] + n) == Some(n),
        file_name(n) == Some(n),
{
    let ds = d + seq!['/'];
    assert(ds.drop_last() =~= d);
    assert(pieces(ds) == pieces(d).push(Seq::<char>::empty()));
    lemma_pieces_append(ds, n);
    assert(pieces(ds + n).last() =~= n);
    assert(d + seq!['/'] + n =~= ds + n);
    let e = Seq::<char>::empty();
    lemma_pieces_append(e, n);
    assert(e + n =~= n);
    assert(pieces(n).last() =~= n);
}

} // verus!
