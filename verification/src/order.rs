use vstd::prelude::*;
use crate::text::chars_of;

verus! {

/// Lexicographic order of texts by character code, a proper prefix coming
/// first (the order of `str`, and of UTF-8 bytes).
pub open spec fn text_less(a: Seq<char>, b: Seq<char>) -> bool
    decreases a.len(),
{
    if a.len() == 0 {
        b.len() > 0
    } else if b.len() == 0 {
        false
    } else if a[0] != b[0] {
        a[0] < b[0]
    } else {
        text_less(a.drop_first(), b.drop_first())
    }
}

pub proof fn lemma_text_less_irreflexive(a: Seq<char>)
    ensures
        !text_less(a, a),
    decreases a.len(),
{
    if a.len() > 0 {
        lemma_text_less_irreflexive(a.drop_first());
    }
}

pub proof fn lemma_text_less_asymmetric(a: Seq<char>, b: Seq<char>)
    ensures
        text_less(a, b) ==> !text_less(b, a),
    decreases a.len(),
{
    if a.len() > 0 && b.len() > 0 && a[0] == b[0] {
        lemma_text_less_asymmetric(a.drop_first(), b.drop_first());
    }
}

pub proof fn lemma_text_less_total(a: Seq<char>, b: Seq<char>)
    ensures
        a != b ==> text_less(a, b) || text_less(b, a),
    decreases a.len(),
{
    if a.len() > 0 && b.len() > 0 && a[0] == b[0] {
        lemma_text_less_total(a.drop_first(), b.drop_first());
        if a.drop_first() == b.drop_first() {
            assert(a =~= seq![a[0]] + a.drop_first());
            assert(b =~= seq![b[0]] + b.drop_first());
        }
    } else if a.len() > 0 && b.len() > 0 {
    } else if a.len() == 0 && b.len() == 0 {
        assert(a =~= b);
    }
}

pub proof fn lemma_text_less_transitive(a: Seq<char>, b: Seq<char>, c: Seq<char>)
    requires
        text_less(a, b),
        text_less(b, c),
    ensures
        text_less(a, c),
    decreases a.len(),
{
    if a.len() > 0 && b.len() > 0 && c.len() > 0 && a[0] == b[0] && b[0] == c[0] {
        lemma_text_less_transitive(a.drop_first(), b.drop_first(), c.drop_first());
    }
}

/// Whether text `a` comes before text `b`.
pub fn text_before(a: &str, b: &str) -> (r: bool)
    ensures
        r == text_less(a@, b@),
{
    let av = chars_of(a);
    let bv = chars_of(b);
    let mut i: usize = 0;
    assert(a@.skip(0) =~= a@ && b@.skip(0) =~= b@);
    while i < av.len() && i < bv.len() && av[i] == bv[i]
        invariant
            av@ == a@,
            bv@ == b@,
            i <= av@.len(),
            i <= bv@.len(),
            text_less(a@, b@) == text_less(a@.skip(i as int), b@.skip(i as int)),
        decreases av@.len() - i,
    {
        proof {
            let x = a@.skip(i as int);
            let y = b@.skip(i as int);
            assert(x.drop_first() =~= a@.skip(i + 1));
            assert(y.drop_first() =~= b@.skip(i + 1));
        }
        i = i + 1;
    }
    let x = Ghost(a@.skip(i as int));
    let y = Ghost(b@.skip(i as int));
    if i == av.len() {
        assert(x@.len() == 0);
        i < bv.len()
    } else if i == bv.len() {
        false
    } else {
        assert(x@[0] == av@[i as int] && y@[0] == bv@[i as int]);
        assert(x@[0] != y@[0]);
        av[i] < bv[i]
    }
}

/// Three-way comparison of texts: -1, 0 or 1.
pub open spec fn text_order(a: Seq<char>, b: Seq<char>) -> int {
    if text_less(a, b) {
        -1
    } else if a == b {
        0
    } else {
        1
    }
}

pub proof fn lemma_text_order(a: Seq<char>, b: Seq<char>, c: Seq<char>)
    ensures
        text_order(a, b) == -text_order(b, a),
        text_order(a, b) == 0 <==> a == b,
        text_order(a, b) <= 0 && text_order(b, c) <= 0 ==> text_order(a, c) <= 0,
{
    lemma_text_less_total(a, b);
    lemma_text_less_asymmetric(a, b);
    lemma_text_less_irreflexive(a);
    lemma_text_less_total(a, c);
    lemma_text_less_total(b, c);
    lemma_text_less_asymmetric(a, c);
    lemma_text_less_asymmetric(b, c);
    lemma_text_less_irreflexive(b);
    if text_less(a, b) && text_less(b, c) {
        lemma_text_less_transitive(a, b, c);
    }
}

/// A path component as (kind, text): 0 the root, 1 the current directory
/// at the start of a relative path, 2 the parent directory `..`, 3 a name
/// (its text). Components order by kind, names by text
/// (`std::path::Component`'s order).
pub open spec fn comp_order(x: (int, Seq<char>), y: (int, Seq<char>)) -> int {
    if x.0 < y.0 {
        -1
    } else if x.0 > y.0 {
        1
    } else {
        text_order(x.1, y.1)
    }
}

/// Lexicographic three-way comparison of component sequences, a proper
/// prefix coming first (the order of `Path`).
pub open spec fn comps_order(a: Seq<(int, Seq<char>)>, b: Seq<(int, Seq<char>)>) -> int
    decreases a.len(),
{
    if a.len() == 0 {
        if b.len() == 0 {
            0
        } else {
            -1
        }
    } else if b.len() == 0 {
        1
    } else if comp_order(a[0], b[0]) != 0 {
        comp_order(a[0], b[0])
    } else {
        comps_order(a.drop_first(), b.drop_first())
    }
}

pub proof fn lemma_comp_order(x: (int, Seq<char>), y: (int, Seq<char>), z: (int, Seq<char>))
    ensures
        comp_order(x, y) == -comp_order(y, x),
        comp_order(x, y) == 0 <==> x == y,
        comp_order(x, y) <= 0 && comp_order(y, z) <= 0 ==> comp_order(x, z) <= 0,
{
    lemma_text_order(x.1, y.1, z.1);
    lemma_text_order(y.1, x.1, z.1);
    lemma_text_order(x.1, z.1, y.1);
}

/// `comps_order` is antisymmetric, is 0 exactly on equal sequences, and is
/// transitive.
pub proof fn lemma_comps_order(a: Seq<(int, Seq<char>)>, b: Seq<(int, Seq<char>)>, c: Seq<(int, Seq<char>)>)
    ensures
        comps_order(a, b) == -comps_order(b, a),
        comps_order(a, b) == 0 <==> a == b,
        comps_order(a, b) <= 0 && comps_order(b, c) <= 0 ==> comps_order(a, c) <= 0,
    decreases a.len(),
{
    if a.len() > 0 && b.len() > 0 {
        lemma_comp_order(a[0], b[0], a[0]);
        if c.len() > 0 {
            lemma_comp_order(a[0], b[0], c[0]);
            lemma_comp_order(b[0], c[0], a[0]);
            lemma_comp_order(a[0], c[0], b[0]);
            lemma_comp_order(b[0], a[0], c[0]);
            lemma_comp_order(c[0], a[0], b[0]);
        }
        lemma_comps_order(a.drop_first(), b.drop_first(), c.drop_first());
        if a.drop_first() == b.drop_first() && a[0] == b[0] {
            assert(a =~= b) by {
                assert(a =~= seq![a[0]] + a.drop_first());
                assert(b =~= seq![b[0]] + b.drop_first());
            }
        }
        if a == b {
            assert(a.drop_first() == b.drop_first());
        }
    } else if a.len() == 0 && b.len() == 0 {
        assert(a =~= b);
    }
}

/// Three-way comparison of two characters' texts.
pub fn text_compare(a: &Vec<char>, b: &Vec<char>) -> (r: i8)
    ensures
        r == text_order(a@, b@),
{
    let n = a.len();
    let m = b.len();
    let mut i: usize = 0;
    assert(a@.skip(0) =~= a@ && b@.skip(0) =~= b@);
    while i < n && i < m && a[i] == b[i]
        invariant
            n == a@.len(),
            m == b@.len(),
            i <= n,
            i <= m,
            a@.take(i as int) == b@.take(i as int),
            text_less(a@, b@) == text_less(a@.skip(i as int), b@.skip(i as int)),
        decreases n - i,
    {
        proof {
            assert(a@.skip(i as int).drop_first() =~= a@.skip(i + 1));
            assert(b@.skip(i as int).drop_first() =~= b@.skip(i + 1));
            assert(a@.take(i + 1) =~= a@.take(i as int).push(a@[i as int]));
            assert(b@.take(i + 1) =~= b@.take(i as int).push(b@[i as int]));
        }
        i = i + 1;
    }
    let ghost x = a@.skip(i as int);
    let ghost y = b@.skip(i as int);
    if i == n && i == m {
        assert(a@ =~= a@.take(i as int));
        assert(b@ =~= b@.take(i as int));
        assert(x.len() == 0 && y.len() == 0);
        0
    } else if i == n {
        assert(x.len() == 0);
        -1
    } else if i == m {
        assert(y.len() == 0);
        assert(a@ != b@) by {
            assert(a@.len() > b@.len());
        }
        1
    } else {
        assert(x[0] == a@[i as int] && y[0] == b@[i as int]);
        assert(a@[i as int] != b@[i as int]);
        assert(a@ != b@) by {
            assert(a@[i as int] != b@[i as int]);
        }
        if a[i] < b[i] {
            -1
        } else {
            1
        }
    }
}

} // verus!
