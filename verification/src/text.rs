//! Small verified text helpers: decimal rendering of integers, substring
//! search, and pattern replacement over character sequences.

use vstd::prelude::*;

verus! {

broadcast use vstd::string::group_string_axioms;

/// The ASCII digit for `d` (0..=9).
pub open spec fn digit_char(d: nat) -> char {
    (d + 48) as char
}

/// The decimal rendering of `n`, most significant digit first, without
/// leading zeros (`"0"` for zero).
pub open spec fn decimal(n: nat) -> Seq<char>
    decreases n,
{
    if n < 10 {
        seq![digit_char(n)]
    } else {
        decimal(n / 10).push(digit_char(n % 10))
    }
}

/// `s` with every non-overlapping occurrence of the non-empty pattern `pat`,
/// found left to right, replaced by `rep`.
pub open spec fn replaced(s: Seq<char>, pat: Seq<char>, rep: Seq<char>) -> Seq<char>
    recommends
        pat.len() > 0,
    decreases s.len(),
{
    if pat.len() == 0 || s.len() < pat.len() {
        s
    } else if s.take(pat.len() as int) == pat {
        rep + replaced(s.skip(pat.len() as int), pat, rep)
    } else {
        seq![s[0]] + replaced(s.skip(1), pat, rep)
    }
}

/// Whether `pat` occurs in `s` at position `i`.
pub open spec fn occurs_at(s: Seq<char>, pat: Seq<char>, i: int) -> bool {
    0 <= i && i + pat.len() <= s.len() && s.subrange(i, i + pat.len()) == pat
}

/// Whether `pat` occurs anywhere in `s`.
pub open spec fn contains_seq(s: Seq<char>, pat: Seq<char>) -> bool {
    exists|i: int| occurs_at(s, pat, i)
}

/// Append one character to a string (`String::push`).
#[verifier::external_body]
pub(crate) fn push_char(s: &mut String, c: char)
    ensures
        final(s)@ == old(s)@.push(c),
{
    s.push(c);
}

/// The characters of `s`, in order.
pub fn chars_of(s: &str) -> (v: Vec<char>)
    ensures
        v@ == s@,
{
    let mut v: Vec<char> = Vec::new();
    for c in it: s.chars()
        invariant
            v@ == it.seq().take(it.index() as int),
    {
        v.push(c);
        assert(it.seq().take(it.index() as int + 1) =~= v@);
    }
    assert(v@ =~= s@);
    v
}

/// The ASCII digit for `d`.
fn digit(d: usize) -> (c: char)
    requires
        d < 10,
    ensures
        c == digit_char(d as nat),
{
    match d {
        0 => '0',
        1 => '1',
        2 => '2',
        3 => '3',
        4 => '4',
        5 => '5',
        6 => '6',
        7 => '7',
        8 => '8',
        _ => '9',
    }
}

/// Append the decimal rendering of `n` to `out`.
pub fn push_decimal(out: &mut String, n: usize)
    ensures
        final(out)@ == old(out)@ + decimal(n as nat),
    decreases n,
{
    if n < 10 {
        push_char(out, digit(n));
        assert(decimal(n as nat) == seq![digit_char(n as nat)]);
    } else {
        push_decimal(out, n / 10);
        push_char(out, digit(n % 10));
        assert(decimal(n as nat) == decimal((n / 10) as nat).push(digit_char((n % 10) as nat)));
    }
}

/// The decimal rendering of `n`.
pub fn usize_to_decimal(n: usize) -> (r: String)
    ensures
        r@ == decimal(n as nat),
{
    let mut out = String::new();
    push_decimal(&mut out, n);
    assert(out@ =~= decimal(n as nat));
    out
}

/// Whether `pat` occurs in `s` at position `i`.
pub fn occurs_at_exec(s: &Vec<char>, pat: &Vec<char>, i: usize) -> (r: bool)
    ensures
        r == occurs_at(s@, pat@, i as int),
{
    let n = s.len();
    let m = pat.len();
    if i > n || m > n - i {
        return false;
    }
    let mut j: usize = 0;
    while j < m
        invariant
            n == s@.len(),
            m == pat@.len(),
            i + m <= n,
            0 <= j <= m,
            forall|k: int| 0 <= k < j ==> s@[i + k] == pat@[k],
        decreases m - j,
    {
        if s[i + j] != pat[j] {
            assert(s@.subrange(i as int, i + m)[j as int] != pat@[j as int]);
            return false;
        }
        j += 1;
    }
    assert(s@.subrange(i as int, i + m) =~= pat@);
    true
}

proof fn lemma_replaced_step(s: Seq<char>, pat: Seq<char>, rep: Seq<char>, i: int)
    requires
        pat.len() > 0,
        0 <= i < s.len(),
    ensures
        occurs_at(s, pat, i) ==> replaced(s.skip(i), pat, rep) == rep + replaced(
            s.skip(i + pat.len()),
            pat,
            rep,
        ),
        !occurs_at(s, pat, i) ==> replaced(s.skip(i), pat, rep) == seq![s[i]] + replaced(
            s.skip(i + 1),
            pat,
            rep,
        ),
{
    let t = s.skip(i);
    if t.len() >= pat.len() {
        assert(t.take(pat.len() as int) =~= s.subrange(i, i + pat.len()));
        assert(t.skip(pat.len() as int) =~= s.skip(i + pat.len()));
    }
    assert(t.skip(1) =~= s.skip(i + 1));
    assert(t[0] == s[i]);
}

/// `s` with every non-overlapping occurrence of `pat`, left to right,
/// replaced by `rep` (`str::replace` for a non-empty pattern).
pub fn replace_all(s: &str, pat: &str, rep: &str) -> (r: String)
    requires
        pat@.len() > 0,
    ensures
        r@ == replaced(s@, pat@, rep@),
{
    let cs = chars_of(s);
    let ps = chars_of(pat);
    let n = cs.len();
    let m = ps.len();
    let mut out = String::new();
    let mut i: usize = 0;
    assert(s@.skip(0) =~= s@);
    while i < n
        invariant
            cs@ == s@,
            ps@ == pat@,
            n == s@.len(),
            m == pat@.len(),
            m > 0,
            0 <= i <= n,
            out@ + replaced(s@.skip(i as int), pat@, rep@) == replaced(s@, pat@, rep@),
        decreases n - i,
    {
        proof {
            lemma_replaced_step(s@, pat@, rep@, i as int);
        }
        if occurs_at_exec(&cs, &ps, i) {
            let ghost before = out@;
            out.append(rep);
            assert(out@ + replaced(s@.skip(i + m), pat@, rep@) =~= before + (rep@ + replaced(
                s@.skip(i + m),
                pat@,
                rep@,
            )));
            i += m;
        } else {
            let ghost before = out@;
            push_char(&mut out, cs[i]);
            assert(out@ + replaced(s@.skip(i + 1), pat@, rep@) =~= before + (seq![s@[i as int]]
                + replaced(s@.skip(i + 1), pat@, rep@)));
            i += 1;
        }
    }
    assert(s@.skip(n as int) =~= Seq::<char>::empty());
    assert(replaced(s@.skip(n as int), pat@, rep@) == Seq::<char>::empty());
    assert(out@ =~= replaced(s@, pat@, rep@));
    out
}

/// No character of `q` is a character of `pat`.
pub open spec fn disjoint_chars(q: Seq<char>, pat: Seq<char>) -> bool {
    forall|i: int, j: int| 0 <= i < q.len() && 0 <= j < pat.len() ==> q[i] != pat[j]
}

/// While the output shows no character of `rep`, replacement has copied the
/// input unchanged.
proof fn lemma_replaced_copies_prefix(s: Seq<char>, pat: Seq<char>, rep: Seq<char>, k: int)
    requires
        pat.len() > 0,
        rep.len() > 0,
        0 <= k <= replaced(s, pat, rep).len(),
        forall|j: int, m: int|
            0 <= j < k && 0 <= m < rep.len() ==> replaced(s, pat, rep)[j] != rep[m],
    ensures
        k <= s.len(),
        replaced(s, pat, rep).take(k) == s.take(k),
    decreases s.len(),
{
    let out = replaced(s, pat, rep);
    if s.len() < pat.len() {
    } else if s.take(pat.len() as int) == pat {
        if k > 0 {
            assert(out[0] == rep[0]);
        }
    } else if k > 0 {
        let r = replaced(s.skip(1), pat, rep);
        assert(out == seq![s[0]] + r);
        assert forall|j: int, m: int| 0 <= j < k - 1 && 0 <= m < rep.len() implies r[j]
            != rep[m] by {
            assert(out[j + 1] == r[j]);
        }
        lemma_replaced_copies_prefix(s.skip(1), pat, rep, k - 1);
        assert(out.take(k) =~= seq![s[0]] + r.take(k - 1));
        assert(s.take(k) =~= seq![s[0]] + s.skip(1).take(k - 1));
    }
}

/// When the replacement shares no character with the pattern, no
/// occurrence of the pattern is left.
pub proof fn lemma_replaced_leaves_no_pattern(s: Seq<char>, pat: Seq<char>, rep: Seq<char>)
    requires
        pat.len() > 0,
        rep.len() > 0,
        disjoint_chars(rep, pat),
    ensures
        !contains_seq(replaced(s, pat, rep), pat),
    decreases s.len(),
{
    let p = pat.len() as int;
    let out = replaced(s, pat, rep);
    if s.len() < p {
    } else if s.take(p) == pat {
        let r = replaced(s.skip(p), pat, rep);
        lemma_replaced_leaves_no_pattern(s.skip(p), pat, rep);
        assert forall|i: int| !occurs_at(out, pat, i) by {
            if occurs_at(out, pat, i) {
                if i < rep.len() {
                    assert(out.subrange(i, i + p)[0] == out[i]);
                    assert(out[i] == rep[i]);
                } else {
                    assert(out.subrange(i, i + p) =~= r.subrange(i - rep.len(), i - rep.len() + p));
                    assert(occurs_at(r, pat, i - rep.len()));
                }
            }
        }
    } else {
        let r = replaced(s.skip(1), pat, rep);
        lemma_replaced_leaves_no_pattern(s.skip(1), pat, rep);
        assert forall|i: int| !occurs_at(out, pat, i) by {
            if occurs_at(out, pat, i) {
                if i == 0 {
                    assert forall|j: int, m: int| 0 <= j < p && 0 <= m < rep.len() implies out[j]
                        != rep[m] by {
                        assert(out.subrange(0, p)[j] == out[j]);
                    }
                    lemma_replaced_copies_prefix(s, pat, rep, p);
                    assert(out.take(p) =~= out.subrange(0, p));
                } else {
                    assert(out.subrange(i, i + p) =~= r.subrange(i - 1, i - 1 + p));
                    assert(occurs_at(r, pat, i - 1));
                }
            }
        }
    }
}

/// Replacement never reaches across a character that is not in the
/// pattern: the text before it and the text from it on are replaced apart.
proof fn lemma_replaced_split(a: Seq<char>, c: Seq<char>, pat: Seq<char>, rep: Seq<char>)
    requires
        pat.len() > 0,
        c.len() > 0,
        forall|j: int| 0 <= j < pat.len() ==> c[0] != pat[j],
    ensures
        replaced(a + c, pat, rep) == replaced(a, pat, rep) + replaced(c, pat, rep),
    decreases a.len(),
{
    let p = pat.len() as int;
    let s = a + c;
    if a.len() == 0 {
        assert(s =~= c);
        assert(replaced(a, pat, rep) =~= a);
        assert(replaced(a, pat, rep) + replaced(c, pat, rep) =~= replaced(c, pat, rep));
    } else if s.len() < p {
        assert(replaced(s, pat, rep) == s);
        assert(replaced(a, pat, rep) == a);
        assert(replaced(c, pat, rep) == c);
    } else if s.take(p) == pat {
        if a.len() < p {
            assert(s.take(p)[a.len() as int] == c[0]);
        }
        assert(a.take(p) =~= s.take(p));
        assert(s.skip(p) =~= a.skip(p) + c);
        lemma_replaced_split(a.skip(p), c, pat, rep);
        assert(replaced(s, pat, rep) =~= replaced(a, pat, rep) + replaced(c, pat, rep));
    } else {
        assert(s.skip(1) =~= a.skip(1) + c);
        assert(s[0] == a[0]);
        lemma_replaced_split(a.skip(1), c, pat, rep);
        if a.len() < p {
            assert(replaced(a, pat, rep) == a);
            assert(replaced(a.skip(1), pat, rep) == a.skip(1));
            assert(a =~= seq![a[0]] + a.skip(1));
        } else {
            assert(a.take(p) =~= s.take(p));
        }
        assert(replaced(s, pat, rep) =~= replaced(a, pat, rep) + replaced(c, pat, rep));
    }
}

/// Text holding no first character of the pattern passes through
/// replacement unchanged.
proof fn lemma_replaced_keeps(q: Seq<char>, b: Seq<char>, pat: Seq<char>, rep: Seq<char>)
    requires
        pat.len() > 0,
        forall|i: int| 0 <= i < q.len() ==> q[i] != pat[0],
    ensures
        replaced(q + b, pat, rep) == q + replaced(b, pat, rep),
    decreases q.len(),
{
    let p = pat.len() as int;
    let s = q + b;
    if q.len() == 0 {
        assert(s =~= b);
        assert(q + replaced(b, pat, rep) =~= replaced(b, pat, rep));
    } else if s.len() < p {
        assert(replaced(b, pat, rep) == b);
    } else {
        assert(s.take(p)[0] == q[0]);
        assert(s.skip(1) =~= q.skip(1) + b);
        lemma_replaced_keeps(q.skip(1), b, pat, rep);
        assert(replaced(s, pat, rep) =~= q + replaced(b, pat, rep));
    }
}

/// Replacement keeps every stretch of text that shares no character with
/// the pattern: if `q` occurs in `s` at `k`, it occurs in the result.
pub proof fn lemma_replaced_keeps_text(
    s: Seq<char>,
    pat: Seq<char>,
    rep: Seq<char>,
    q: Seq<char>,
    k: int,
)
    requires
        pat.len() > 0,
        q.len() > 0,
        disjoint_chars(q, pat),
        occurs_at(s, q, k),
    ensures
        contains_seq(replaced(s, pat, rep), q),
{
    let a = s.take(k);
    let b = s.skip(k + q.len());
    assert(s =~= a + (q + b));
    assert((q + b)[0] == q[0]);
    lemma_replaced_split(a, q + b, pat, rep);
    lemma_replaced_keeps(q, b, pat, rep);
    let out = replaced(s, pat, rep);
    let ra = replaced(a, pat, rep);
    assert(out =~= ra + q + replaced(b, pat, rep));
    assert(out.subrange(ra.len() as int, (ra.len() + q.len()) as int) =~= q);
    assert(occurs_at(out, q, ra.len() as int));
}

} // verus!
