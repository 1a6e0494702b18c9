//! Character-level operations on paths: byte-wise ordering and the
//! substring / suffix tests that exclusion patterns rely on.
//!
//! Ordering characters by their scalar value orders their UTF-8 encodings
//! byte-wise, so `path_lt` is the byte-wise lexicographic order of paths.
use vstd::prelude::*;
use vstd::string::*;

verus! {

/// `a` sorts before `b` when, from index `i` on, the first differing
/// character of `a` is smaller, or `a` runs out first.
pub open spec fn lt_from(a: Seq<char>, b: Seq<char>, i: int) -> bool
    decreases a.len() - i,
{
    if i < 0 || i >= a.len() {
        0 <= i < b.len()
    } else if i >= b.len() {
        false
    } else if a[i] != b[i] {
        a[i] < b[i]
    } else {
        lt_from(a, b, i + 1)
    }
}

/// Byte-wise lexicographic order on paths.
pub open spec fn path_lt(a: Seq<char>, b: Seq<char>) -> bool {
    lt_from(a, b, 0)
}

/// `s` ends with `suffix`.
pub open spec fn ends_with(s: Seq<char>, suffix: Seq<char>) -> bool {
    suffix.len() <= s.len() && s.subrange(s.len() - suffix.len(), s.len() as int) == suffix
}

/// `pat` occurs somewhere in `s` as a contiguous run.
pub open spec fn contains_run(s: Seq<char>, pat: Seq<char>) -> bool {
    exists|i: int|
        0 <= i && i + pat.len() <= s.len() && #[trigger] s.subrange(i, i + pat.len()) == pat
}

proof fn lemma_lt_from_irreflexive(a: Seq<char>, i: int)
    requires
        0 <= i,
    ensures
        !lt_from(a, a, i),
    decreases a.len() - i,
{
    if i < a.len() {
        lemma_lt_from_irreflexive(a, i + 1);
    }
}

proof fn lemma_lt_from_asymmetric(a: Seq<char>, b: Seq<char>, i: int)
    requires
        0 <= i,
        lt_from(a, b, i),
    ensures
        !lt_from(b, a, i),
    decreases a.len() - i,
{
    if i < a.len() && i < b.len() && a[i] == b[i] {
        lemma_lt_from_asymmetric(a, b, i + 1);
    }
}

proof fn lemma_lt_from_transitive(a: Seq<char>, b: Seq<char>, c: Seq<char>, i: int)
    requires
        0 <= i,
        lt_from(a, b, i),
        lt_from(b, c, i),
    ensures
        lt_from(a, c, i),
    decreases a.len() - i,
{
    if i < a.len() && i < b.len() && i < c.len() && a[i] == b[i] && b[i] == c[i] {
        lemma_lt_from_transitive(a, b, c, i + 1);
    }
}

/// No path sorts before itself.
pub proof fn lemma_path_lt_irreflexive(a: Seq<char>)
    ensures
        !path_lt(a, a),
{
    lemma_lt_from_irreflexive(a, 0);
}

/// Two paths never sort before each other.
pub proof fn lemma_path_lt_asymmetric(a: Seq<char>, b: Seq<char>)
    requires
        path_lt(a, b),
    ensures
        !path_lt(b, a),
        a != b,
{
    lemma_lt_from_asymmetric(a, b, 0);
    lemma_lt_from_irreflexive(a, 0);
}

/// The order on paths is transitive.
pub proof fn lemma_path_lt_transitive(a: Seq<char>, b: Seq<char>, c: Seq<char>)
    requires
        path_lt(a, b),
        path_lt(b, c),
    ensures
        path_lt(a, c),
{
    lemma_lt_from_transitive(a, b, c, 0);
}

/// The characters of `s`, one per element.
pub fn chars_of(s: &str) -> (r: Vec<char>)
    ensures
        r@ == s@,
{
    broadcast use vstd::string::axiom_spec_iter;

    let mut r: Vec<char> = Vec::new();
    for c in it: s.chars()
        invariant
            r@ == it.seq().take(it.index() as int),
    {
        r.push(c);
    }
    assert(r@ =~= s@);
    r
}

/// Compares two paths byte-wise: negative, zero or positive as `a` sorts
/// before, equal to, or after `b`.
pub fn compare_paths(a: &str, b: &str) -> (r: i8)
    ensures
        (r < 0) == path_lt(a@, b@),
        (r == 0) == (a@ == b@),
        (r > 0) == path_lt(b@, a@),
{
    let x = chars_of(a);
    let y = chars_of(b);
    let mut i: usize = 0;
    while i < x.len() && i < y.len() && x[i] == y[i]
        invariant
            x@ == a@,
            y@ == b@,
            i <= x.len(),
            i <= y.len(),
            forall|k: int| 0 <= k < i ==> x@[k] == y@[k],
            lt_from(a@, b@, 0) == lt_from(a@, b@, i as int),
            lt_from(b@, a@, 0) == lt_from(b@, a@, i as int),
        decreases x.len() - i,
    {
        i = i + 1;
    }
    proof {
        lemma_path_lt_irreflexive(a@);
    }
    if i == x.len() && i == y.len() {
        assert(a@ =~= b@);
        0
    } else if i == x.len() {
        proof {
            lemma_path_lt_asymmetric(a@, b@);
        }
        -1
    } else if i == y.len() {
        proof {
            lemma_path_lt_asymmetric(b@, a@);
        }
        1
    } else if x[i] < y[i] {
        proof {
            lemma_path_lt_asymmetric(a@, b@);
        }
        -1
    } else {
        proof {
            lemma_path_lt_asymmetric(b@, a@);
        }
        1
    }
}

/// Whether `p[from..]` equals `s[at..at + p.len() - from]`.
fn run_matches(s: &Vec<char>, at: usize, p: &Vec<char>, from: usize) -> (r: bool)
    requires
        from <= p.len(),
        at + (p.len() - from) <= s.len(),
    ensures
        r == (s@.subrange(at as int, at + (p.len() - from)) == p@.subrange(
            from as int,
            p.len() as int,
        )),
{
    let n = p.len() - from;
    let mut k: usize = 0;
    while k < n
        invariant
            n == p.len() - from,
            from <= p.len(),
            at + n <= s.len(),
            k <= n,
            s@.subrange(at as int, at + k) == p@.subrange(from as int, from + k),
        decreases n - k,
    {
        if s[at + k] != p[from + k] {
            assert(s@.subrange(at as int, at + n)[k as int] != p@.subrange(
                from as int,
                p.len() as int,
            )[k as int]);
            return false;
        }
        assert(s@.subrange(at as int, at + k + 1) =~= s@.subrange(at as int, at + k).push(
            s@[at + k],
        ));
        assert(p@.subrange(from as int, from + k + 1) =~= p@.subrange(from as int, from + k).push(
            p@[from + k],
        ));
        k = k + 1;
    }
    true
}

/// Whether `s` ends with `p[from..]`.
pub fn ends_with_from(s: &Vec<char>, p: &Vec<char>, from: usize) -> (r: bool)
    requires
        from <= p.len(),
    ensures
        r == ends_with(s@, p@.subrange(from as int, p.len() as int)),
{
    let n = p.len() - from;
    if n > s.len() {
        false
    } else {
        run_matches(s, s.len() - n, p, from)
    }
}

/// Whether `p` occurs in `s`.
pub fn contains_chars(s: &Vec<char>, p: &Vec<char>) -> (r: bool)
    ensures
        r == contains_run(s@, p@),
{
    if p.len() == 0 {
        assert(s@.subrange(0, 0 + p@.len() as int) =~= p@);
        return true;
    }
    if p.len() > s.len() {
        return false;
    }
    let mut i: usize = 0;
    while i <= s.len() - p.len()
        invariant
            0 < p.len() <= s.len(),
            i <= s.len() - p.len() + 1,
            forall|j: int| 0 <= j < i ==> #[trigger] s@.subrange(j, j + p.len()) != p@,
        decreases s.len() - i,
    {
        let hit = run_matches(s, i, p, 0);
        assert(p@.subrange(0, p.len() as int) =~= p@);
        if hit {
            assert(s@.subrange(i as int, i + p@.len()) == p@);
            return true;
        }
        i = i + 1;
    }
    false
}

} // verus!
