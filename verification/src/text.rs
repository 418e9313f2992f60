use vstd::prelude::*;

verus! {

/// `s` with every leftmost, non-overlapping occurrence of `pat` replaced by
/// `rep`, scanning from the left (the meaning of `str::replace`). The empty
/// pattern occurs before each character and at the end.
pub open spec fn replace_all(s: Seq<char>, pat: Seq<char>, rep: Seq<char>) -> Seq<char>
    decreases s.len(),
{
    if pat.len() == 0 {
        if s.len() == 0 {
            rep
        } else {
            rep + seq![s[0]] + replace_all(s.subrange(1, s.len() as int), pat, rep)
        }
    } else if s.len() < pat.len() {
        s
    } else if s.subrange(0, pat.len() as int) == pat {
        rep + replace_all(s.subrange(pat.len() as int, s.len() as int), pat, rep)
    } else {
        seq![s[0]] + replace_all(s.subrange(1, s.len() as int), pat, rep)
    }
}

/// Appends one character to a string (`String::push`).
#[verifier::external_body]
pub(crate) fn push_char(s: &mut String, c: char)
    ensures
        final(s)@ == old(s)@.push(c),
{
    s.push(c)
}

/// Appends a string slice to a string (`String::push_str`).
#[verifier::external_body]
pub(crate) fn push_str(s: &mut String, t: &str)
    ensures
        final(s)@ == old(s)@ + t@,
{
    s.push_str(t)
}

/// The characters of a string slice, in order.
pub fn chars_of(s: &str) -> (v: Vec<char>)
    ensures
        v@ == s@,
{
    let mut v: Vec<char> = Vec::new();
    for c in it: s.chars()
        invariant
            v@ == it.seq().take(it.index() as int),
    {
        v.push(c);
    }
    v
}

/// Whether `pat` occurs in `s` at position `i`.
fn occurs_at(s: &Vec<char>, i: usize, pat: &Vec<char>) -> (b: bool)
    requires
        i + pat@.len() <= s@.len(),
    ensures
        b == (s@.subrange(i as int, i + pat@.len()) == pat@),
{
    let mut j: usize = 0;
    while j < pat.len()
        invariant
            j <= pat@.len(),
            i + pat.len() <= s.len(),
            forall|k: int| 0 <= k < j ==> s@[i + k] == pat@[k],
        decreases pat@.len() - j,
    {
        if s[i + j] != pat[j] {
            assert(s@.subrange(i as int, i + pat@.len())[j as int] != pat@[j as int]);
            return false;
        }
        j = j + 1;
    }
    assert(s@.subrange(i as int, i + pat@.len()) =~= pat@);
    true
}

/// Unfolds `replace_all` on a suffix that starts with an occurrence.
proof fn lemma_replace_step(s: Seq<char>, i: int, pat: Seq<char>, rep: Seq<char>)
    requires
        0 <= i,
        i + pat.len() <= s.len(),
        pat.len() > 0,
    ensures
        s.subrange(i, i + pat.len()) == pat ==> replace_all(s.subrange(i, s.len() as int), pat, rep)
            == rep + replace_all(s.subrange(i + pat.len(), s.len() as int), pat, rep),
        s.subrange(i, i + pat.len()) != pat ==> replace_all(s.subrange(i, s.len() as int), pat, rep)
            == seq![s[i]] + replace_all(s.subrange(i + 1, s.len() as int), pat, rep),
{
    let t = s.subrange(i, s.len() as int);
    assert(t.subrange(0, pat.len() as int) =~= s.subrange(i, i + pat.len()));
    assert(t.subrange(pat.len() as int, t.len() as int) =~= s.subrange(i + pat.len(), s.len() as int));
    assert(t.subrange(1, t.len() as int) =~= s.subrange(i + 1, s.len() as int));
}

/// `s` with `rep` put before each character and at the end: replacing the
/// empty pattern.
fn replace_empty(s: &str, rep: &str) -> (r: String)
    ensures
        r@ == replace_all(s@, Seq::empty(), rep@),
{
    let sv = chars_of(s);
    let n = sv.len();
    let mut out = String::new();
    let mut i: usize = 0;
    assert(sv@.subrange(0, n as int) =~= sv@);
    assert(out@ + sv@ =~= sv@);
    while i < n
        invariant
            sv@ == s@,
            n == sv@.len(),
            i <= n,
            out@ + replace_all(sv@.subrange(i as int, n as int), Seq::empty(), rep@) == replace_all(s@, Seq::empty(), rep@),
        decreases n - i,
    {
        let ghost t = sv@.subrange(i as int, n as int);
        assert(t.subrange(1, t.len() as int) =~= sv@.subrange(i + 1, n as int));
        assert(t[0] == sv@[i as int]);
        let ghost rest = replace_all(sv@.subrange(i + 1, n as int), Seq::empty(), rep@);
        assert(out@ + rep@ + seq![sv@[i as int]] + rest =~= out@ + (rep@ + seq![t[0]] + rest));
        push_str(&mut out, rep);
        push_char(&mut out, sv[i]);
        i = i + 1;
    }
    assert(sv@.subrange(n as int, n as int) =~= Seq::<char>::empty());
    push_str(&mut out, rep);
    out
}

/// `s` with every occurrence of `pat` replaced by `rep` (`str::replace`).
pub fn replace(s: &str, pat: &str, rep: &str) -> (r: String)
    ensures
        r@ == replace_all(s@, pat@, rep@),
{
    let pv = chars_of(pat);
    if pv.len() == 0 {
        assert(pat@ =~= Seq::<char>::empty());
        return replace_empty(s, rep);
    }
    let sv = chars_of(s);
    let n = sv.len();
    let m = pv.len();
    let mut out = String::new();
    let mut i: usize = 0;
    assert(sv@.subrange(0, n as int) =~= sv@);
    assert(out@ + sv@ =~= sv@);
    while i < n
        invariant
            sv@ == s@,
            pv@ == pat@,
            n == sv@.len(),
            m == pv@.len(),
            m > 0,
            i <= n,
            out@ + replace_all(sv@.subrange(i as int, n as int), pv@, rep@) == replace_all(s@, pat@, rep@),
        decreases n - i,
    {
        if m <= n - i {
            proof {
                lemma_replace_step(sv@, i as int, pv@, rep@);
            }
            if occurs_at(&sv, i, &pv) {
                proof {
                    assert(out@ + rep@ + replace_all(sv@.subrange(i + m, n as int), pv@, rep@)
                        =~= out@ + (rep@ + replace_all(sv@.subrange(i + m, n as int), pv@, rep@)));
                }
                push_str(&mut out, rep);
                i = i + m;
            } else {
                proof {
                    assert(out@.push(sv@[i as int]) + replace_all(sv@.subrange(i + 1, n as int), pv@, rep@)
                        =~= out@ + (seq![sv@[i as int]] + replace_all(sv@.subrange(i + 1, n as int), pv@, rep@)));
                }
                push_char(&mut out, sv[i]);
                i = i + 1;
            }
        } else {
            // The rest is shorter than the pattern and is kept as it is.
            let ghost before = out@;
            let mut j: usize = i;
            while j < n
                invariant
                    sv@ == s@,
                    n == sv@.len(),
                    i <= j <= n,
                    out@ == before + sv@.subrange(i as int, j as int),
                decreases n - j,
            {
                push_char(&mut out, sv[j]);
                j = j + 1;
                assert(out@ =~= before + sv@.subrange(i as int, j as int));
            }
            assert(replace_all(sv@.subrange(i as int, n as int), pv@, rep@) == sv@.subrange(i as int, n as int));
            assert(sv@.subrange(n as int, n as int) =~= Seq::<char>::empty());
            i = n;
            assert(out@ + replace_all(sv@.subrange(i as int, n as int), pv@, rep@) =~= out@);
            return out;
        }
    }
    assert(sv@.subrange(n as int, n as int) =~= Seq::<char>::empty());
    out
}

/// The decimal digit character for `d < 10`.
pub open spec fn digit_char(d: int) -> char {
    seq!['0', '1', '2', '3', '4', '5', '6', '7', '8', '9'][d]
}

/// Decimal notation of `n`, without sign or leading zeros.
pub open spec fn decimal(n: nat) -> Seq<char>
    decreases n,
{
    if n < 10 {
        seq![digit_char(n as int)]
    } else {
        decimal(n / 10).push(digit_char((n % 10) as int))
    }
}

fn digit(d: u32) -> (c: char)
    requires
        d < 10,
    ensures
        c == digit_char(d as int),
{
    let digits = ['0', '1', '2', '3', '4', '5', '6', '7', '8', '9'];
    assert(digits@ =~= seq!['0', '1', '2', '3', '4', '5', '6', '7', '8', '9']);
    digits[d as usize]
}

/// Appends the decimal notation of `n` (what `n.to_string()` gives).
pub fn push_decimal(out: &mut String, n: u32)
    ensures
        final(out)@ == old(out)@ + decimal(n as nat),
    decreases n,
{
    if n >= 10 {
        push_decimal(out, n / 10);
    }
    push_char(out, digit(n % 10));
    assert(old(out)@ + decimal(n as nat) =~= out@) by {
        if n >= 10 {
            assert(decimal(n as nat) == decimal((n / 10) as nat).push(digit_char((n % 10) as int)));
        }
    }
}

/// Replacing a pattern by itself changes nothing.
pub proof fn law_replace_by_itself(s: Seq<char>, pat: Seq<char>)
    ensures
        replace_all(s, pat, pat) == s,
    decreases s.len(),
{
    if pat.len() == 0 {
        if s.len() > 0 {
            law_replace_by_itself(s.subrange(1, s.len() as int), pat);
            assert(pat + seq![s[0]] + s.subrange(1, s.len() as int) =~= s);
        }
    } else if s.len() < pat.len() {
    } else if s.subrange(0, pat.len() as int) == pat {
        law_replace_by_itself(s.subrange(pat.len() as int, s.len() as int), pat);
        assert(pat + s.subrange(pat.len() as int, s.len() as int) =~= s);
    } else {
        law_replace_by_itself(s.subrange(1, s.len() as int), pat);
        assert(seq![s[0]] + s.subrange(1, s.len() as int) =~= s);
    }
}

/// `pat` occurs in `s` at position `i`.
pub open spec fn occurrence(s: Seq<char>, pat: Seq<char>, i: int) -> bool {
    0 <= i && i + pat.len() <= s.len() && s.subrange(i, i + pat.len()) == pat
}

/// A text in which the pattern does not occur is left as it is.
pub proof fn law_replace_absent(s: Seq<char>, pat: Seq<char>, rep: Seq<char>)
    requires
        forall|i: int| !#[trigger] occurrence(s, pat, i),
    ensures
        replace_all(s, pat, rep) == s,
    decreases s.len(),
{
    if pat.len() == 0 {
        assert(s.subrange(0, 0) =~= pat);
        assert(occurrence(s, pat, 0));
    } else if s.len() < pat.len() {
    } else {
        assert(!occurrence(s, pat, 0));
        let t = s.subrange(1, s.len() as int);
        assert forall|i: int| !#[trigger] occurrence(t, pat, i) by {
            if 0 <= i && i + pat.len() <= t.len() {
                assert(t.subrange(i, i + pat.len()) =~= s.subrange(i + 1, i + 1 + pat.len()));
                assert(!occurrence(s, pat, i + 1));
            }
        }
        law_replace_absent(t, pat, rep);
        assert(seq![s[0]] + t =~= s);
    }
}

/// A text that is exactly the (non-empty) pattern becomes the replacement.
pub proof fn law_replace_whole(pat: Seq<char>, rep: Seq<char>)
    requires
        pat.len() > 0,
    ensures
        replace_all(pat, pat, rep) == rep,
{
    assert(pat.subrange(0, pat.len() as int) =~= pat);
    assert(pat.subrange(pat.len() as int, pat.len() as int) =~= Seq::<char>::empty());
    assert(replace_all(Seq::<char>::empty(), pat, rep) == Seq::<char>::empty());
    assert(rep + Seq::<char>::empty() =~= rep);
}

} // verus!
