//! Byte-sequence search and replacement: the primitives behind template
//! substitution and path resolution. Text is modeled as `Seq<u8>`.

use vstd::prelude::*;

verus! {

/// The pattern `pat` occurs in `s` starting at position `i`.
pub open spec fn match_at(s: Seq<u8>, pat: Seq<u8>, i: int) -> bool {
    0 <= i && i + pat.len() <= s.len() && s.subrange(i, i + pat.len() as int) == pat
}

/// The pattern `pat` occurs somewhere in `s`.
pub open spec fn contains_seq(s: Seq<u8>, pat: Seq<u8>) -> bool {
    exists|i: int| match_at(s, pat, i)
}

/// Leftmost, non-overlapping replacement of every occurrence of `pat` in `s`
/// by `rep` (the semantics of `str::replace`). An empty pattern replaces
/// nothing.
pub open spec fn replace_seq(s: Seq<u8>, pat: Seq<u8>, rep: Seq<u8>) -> Seq<u8>
    decreases s.len(),
{
    if pat.len() == 0 || s.len() < pat.len() {
        s
    } else if s.subrange(0, pat.len() as int) == pat {
        rep + replace_seq(s.skip(pat.len() as int), pat, rep)
    } else {
        seq![s[0]] + replace_seq(s.skip(1), pat, rep)
    }
}

/// Does `pat` occur in `s` at position `i`?
pub fn is_match_at(s: &Vec<u8>, pat: &Vec<u8>, i: usize) -> (r: bool)
    requires
        i + pat@.len() <= s@.len(),
    ensures
        r == match_at(s@, pat@, i as int),
{
    let n = s.len();
    let m = pat.len();
    let mut j: usize = 0;
    while j < m
        invariant
            n == s@.len(),
            i + m <= n,
            m == pat@.len(),
            0 <= j <= m,
            forall|k: int| 0 <= k < j ==> s@[i + k] == pat@[k],
        decreases m - j,
    {
        if s[i + j] != pat[j] {
            proof {
                assert(s@.subrange(i as int, i + m as int)[j as int] == s@[i + j]);
            }
            return false;
        }
        j += 1;
    }
    proof {
        assert(s@.subrange(i as int, i + m as int) =~= pat@);
    }
    true
}

/// Position of the leftmost occurrence of `pat` in `s`, if any.
pub fn find_first(s: &Vec<u8>, pat: &Vec<u8>) -> (r: Option<usize>)
    requires
        pat@.len() >= 1,
    ensures
        match r {
            Some(i) => match_at(s@, pat@, i as int) && (forall|k: int|
                0 <= k < i ==> !match_at(s@, pat@, k)),
            None => !contains_seq(s@, pat@),
        },
{
    let n = s.len();
    let m = pat.len();
    if m > n {
        return None;
    }
    let mut i: usize = 0;
    while i <= n - m
        invariant
            n == s@.len(),
            m == pat@.len(),
            1 <= m <= n,
            0 <= i <= n - m + 1,
            forall|k: int| 0 <= k < i ==> !match_at(s@, pat@, k),
        decreases n - i,
    {
        if is_match_at(s, pat, i) {
            return Some(i);
        }
        i += 1;
    }
    None
}

/// Does `pat` occur anywhere in `s`?
pub fn contains_sub(s: &Vec<u8>, pat: &Vec<u8>) -> (r: bool)
    requires
        pat@.len() >= 1,
    ensures
        r == contains_seq(s@, pat@),
{
    match find_first(s, pat) {
        Some(_) => true,
        None => false,
    }
}

proof fn lemma_skip_parts(s: Seq<u8>, i: int, m: int)
    requires
        0 <= i,
        0 <= m,
        i + m <= s.len(),
    ensures
        s.skip(i).subrange(0, m) == s.subrange(i, i + m),
        s.skip(i).skip(m) == s.skip(i + m),
{
    assert(s.skip(i).subrange(0, m) =~= s.subrange(i, i + m));
    assert(s.skip(i).skip(m) =~= s.skip(i + m));
}

/// Replace every occurrence of `pat` in `s` by `rep`, leftmost first,
/// without rescanning replaced text.
pub fn replace_all(s: &Vec<u8>, pat: &Vec<u8>, rep: &Vec<u8>) -> (r: Vec<u8>)
    requires
        pat@.len() >= 1,
    ensures
        r@ == replace_seq(s@, pat@, rep@),
{
    let n = s.len();
    let m = pat.len();
    let mut out: Vec<u8> = Vec::new();
    let mut i: usize = 0;
    proof {
        assert(s@.skip(0) =~= s@);
        assert(Seq::<u8>::empty() + replace_seq(s@, pat@, rep@) =~= replace_seq(s@, pat@, rep@));
    }
    while i < n
        invariant
            n == s@.len(),
            m == pat@.len(),
            1 <= m,
            0 <= i <= n,
            replace_seq(s@, pat@, rep@) == out@ + replace_seq(
                s@.skip(i as int),
                pat@,
                rep@,
            ),
        decreases n - i,
    {
        let ghost tail = s@.skip(i as int);
        if m <= n - i && is_match_at(s, pat, i) {
            proof {
                lemma_skip_parts(s@, i as int, m as int);
                assert(tail.subrange(0, m as int) == pat@);
                assert(replace_seq(tail, pat@, rep@) == rep@ + replace_seq(
                    s@.skip(i + m as int),
                    pat@,
                    rep@,
                ));
            }
            out.extend_from_slice(rep.as_slice());
            i += m;
            proof {
                assert(out@ + replace_seq(s@.skip(i as int), pat@, rep@) =~= replace_seq(
                    s@,
                    pat@,
                    rep@,
                ));
            }
        } else {
            proof {
                if i + m <= n {
                    lemma_skip_parts(s@, i as int, m as int);
                    assert(tail.subrange(0, m as int) != pat@);
                    assert(tail.len() >= m);
                } else {
                    assert(tail.len() < m);
                }
                lemma_skip_parts(s@, i as int, 1);
                if tail.len() < m {
                    assert(replace_seq(tail, pat@, rep@) == tail);
                    assert(replace_seq(s@.skip(i + 1), pat@, rep@) == s@.skip(i + 1)) by {
                        assert(s@.skip(i + 1).len() < m);
                    }
                    assert(tail =~= seq![s@[i as int]] + s@.skip(i + 1));
                } else {
                    assert(replace_seq(tail, pat@, rep@) == seq![tail[0]] + replace_seq(
                        tail.skip(1),
                        pat@,
                        rep@,
                    ));
                    assert(tail[0] == s@[i as int]);
                    assert(tail.skip(1) == s@.skip(i + 1));
                }
            }
            let b = s[i];
            out.push(b);
            i += 1;
            proof {
                assert(out@ + replace_seq(s@.skip(i as int), pat@, rep@) =~= replace_seq(
                    s@,
                    pat@,
                    rep@,
                ));
            }
        }
    }
    proof {
        assert(s@.skip(n as int) =~= Seq::<u8>::empty());
        assert(replace_seq(Seq::<u8>::empty(), pat@, rep@) == Seq::<u8>::empty());
        assert(out@ + Seq::<u8>::empty() =~= out@);
    }
    out
}

/// Are two byte strings equal?
pub fn bytes_eq(a: &Vec<u8>, b: &Vec<u8>) -> (r: bool)
    ensures
        r == (a@ == b@),
{
    if a.len() != b.len() {
        proof {
            assert(a@.len() != b@.len());
        }
        return false;
    }
    let n = a.len();
    let mut i: usize = 0;
    while i < n
        invariant
            n == a@.len() == b@.len(),
            0 <= i <= n,
            forall|k: int| 0 <= k < i ==> a@[k] == b@[k],
        decreases n - i,
    {
        if a[i] != b[i] {
            return false;
        }
        i += 1;
    }
    proof {
        assert(a@ =~= b@);
    }
    true
}

/// `a` followed by `b`.
pub fn concat(a: &Vec<u8>, b: &Vec<u8>) -> (r: Vec<u8>)
    ensures
        r@ == a@ + b@,
{
    let mut out: Vec<u8> = Vec::new();
    out.extend_from_slice(a.as_slice());
    out.extend_from_slice(b.as_slice());
    proof {
        assert(out@ =~= a@ + b@);
    }
    out
}

/// Does `s` start with `pre`?
pub fn starts_with(s: &Vec<u8>, pre: &Vec<u8>) -> (r: bool)
    ensures
        r == match_at(s@, pre@, 0),
{
    if pre.len() > s.len() {
        return false;
    }
    is_match_at(s, pre, 0)
}

/// A fresh copy of `v`.
pub fn copy_bytes(v: &Vec<u8>) -> (r: Vec<u8>)
    ensures
        r@ == v@,
{
    let mut out: Vec<u8> = Vec::new();
    out.extend_from_slice(v.as_slice());
    proof {
        assert(out@ =~= v@);
    }
    out
}

/// The byte `c` occurs in `s`.
pub open spec fn contains_byte_seq(s: Seq<u8>, c: u8) -> bool {
    exists|i: int| 0 <= i < s.len() && s[i] == c
}

/// Does the byte `c` occur in `v`?
pub fn contains_byte(v: &Vec<u8>, c: u8) -> (r: bool)
    ensures
        r == contains_byte_seq(v@, c),
{
    let n = v.len();
    let mut i: usize = 0;
    while i < n
        invariant
            n == v@.len(),
            0 <= i <= n,
            forall|k: int| 0 <= k < i ==> v@[k] != c,
        decreases n - i,
    {
        if v[i] == c {
            return true;
        }
        i += 1;
    }
    false
}

/// The tail of `v` from position `j` on.
pub fn tail_from(v: &Vec<u8>, j: usize) -> (r: Vec<u8>)
    requires
        j <= v@.len(),
    ensures
        r@ == v@.skip(j as int),
{
    let n = v.len();
    let mut out: Vec<u8> = Vec::new();
    let mut i: usize = j;
    while i < n
        invariant
            n == v@.len(),
            j <= i <= n,
            out@ =~= v@.subrange(j as int, i as int),
        decreases n - i,
    {
        let b = v[i];
        out.push(b);
        i += 1;
        proof {
            assert(out@ =~= v@.subrange(j as int, i as int));
        }
    }
    proof {
        assert(v@.subrange(j as int, n as int) =~= v@.skip(j as int));
    }
    out
}

/// Position `i` starts a path segment (it is at the front or right after a
/// `/`) and that segment begins with a dot.
pub open spec fn dot_at_segment_start(p: Seq<u8>, i: int) -> bool {
    0 <= i < p.len() && p[i] == 46 && (i == 0 || p[i - 1] == 47)
}

/// Some `/`-separated segment of `p` begins with a dot.
pub open spec fn has_dot_segment(p: Seq<u8>) -> bool {
    exists|i: int| dot_at_segment_start(p, i)
}

/// Does some `/`-separated segment of `p` begin with a dot?
pub fn contains_dot_segment(p: &Vec<u8>) -> (r: bool)
    ensures
        r == has_dot_segment(p@),
{
    let n = p.len();
    let mut i: usize = 0;
    while i < n
        invariant
            n == p@.len(),
            0 <= i <= n,
            forall|k: int| 0 <= k < i ==> !dot_at_segment_start(p@, k),
        decreases n - i,
    {
        if p[i] == 46 && (i == 0 || p[i - 1] == 47) {
            proof {
                assert(dot_at_segment_start(p@, i as int));
            }
            return true;
        }
        i += 1;
    }
    false
}

/// ASCII lowercase of one byte.
pub open spec fn lower_byte(b: u8) -> u8 {
    if 65 <= b <= 90 {
        (b + 32) as u8
    } else {
        b
    }
}

/// ASCII lowercase of a byte string.
pub open spec fn lower_seq(s: Seq<u8>) -> Seq<u8> {
    Seq::new(s.len(), |i: int| lower_byte(s[i]))
}

/// ASCII-lowercase every byte of `s`.
pub fn to_lower(s: &Vec<u8>) -> (r: Vec<u8>)
    ensures
        r@ == lower_seq(s@),
{
    let n = s.len();
    let mut out: Vec<u8> = Vec::new();
    let mut i: usize = 0;
    while i < n
        invariant
            n == s@.len(),
            0 <= i <= n,
            out@.len() == i,
            forall|k: int| 0 <= k < i ==> out@[k] == lower_byte(s@[k]),
        decreases n - i,
    {
        let b = s[i];
        if 65 <= b && b <= 90 {
            out.push(b + 32);
        } else {
            out.push(b);
        }
        i += 1;
    }
    proof {
        assert(out@ =~= lower_seq(s@));
    }
    out
}

/// What follows the last occurrence of the byte `c` in `s`; all of `s` when
/// `c` does not occur (the last piece of a split at `c`).
pub open spec fn suffix_after_last(s: Seq<u8>, c: u8) -> Seq<u8>
    decreases s.len(),
{
    if s.len() == 0 {
        s
    } else if s[s.len() - 1] == c {
        Seq::empty()
    } else {
        suffix_after_last(s.take(s.len() - 1), c).push(s[s.len() - 1])
    }
}

proof fn lemma_suffix_absent(s: Seq<u8>, c: u8)
    requires
        forall|l: int| 0 <= l < s.len() ==> s[l] != c,
    ensures
        suffix_after_last(s, c) == s,
    decreases s.len(),
{
    if s.len() > 0 {
        lemma_suffix_absent(s.take(s.len() - 1), c);
        assert(suffix_after_last(s, c) =~= s);
    }
}

proof fn lemma_suffix_found(s: Seq<u8>, c: u8, j: int)
    requires
        0 <= j < s.len(),
        s[j] == c,
        forall|l: int| j < l < s.len() ==> s[l] != c,
    ensures
        suffix_after_last(s, c) == s.skip(j + 1),
    decreases s.len(),
{
    if j == s.len() - 1 {
        assert(suffix_after_last(s, c) =~= s.skip(j + 1));
    } else {
        lemma_suffix_found(s.take(s.len() - 1), c, j);
        assert(s.take(s.len() - 1).skip(j + 1) =~= s.skip(j + 1).take(s.len() - 1 - (j + 1)));
        assert(suffix_after_last(s, c) =~= s.skip(j + 1));
    }
}

/// The piece of `s` after its last byte `c` (all of `s` if `c` is absent).
pub fn last_piece(s: &Vec<u8>, c: u8) -> (r: Vec<u8>)
    ensures
        r@ == suffix_after_last(s@, c),
{
    let n = s.len();
    let mut j: usize = n;
    while j > 0
        invariant
            n == s@.len(),
            0 <= j <= n,
            forall|l: int| j <= l < n ==> s@[l] != c,
        decreases j,
    {
        if s[j - 1] == c {
            let mut out: Vec<u8> = Vec::new();
            let mut i: usize = j;
            while i < n
                invariant
                    n == s@.len(),
                    j <= i <= n,
                    out@ =~= s@.subrange(j as int, i as int),
                decreases n - i,
            {
                let b = s[i];
                out.push(b);
                i += 1;
                proof {
                    assert(out@ =~= s@.subrange(j as int, i as int));
                }
            }
            proof {
                lemma_suffix_found(s@, c, j - 1);
                assert(s@.subrange(j as int, n as int) =~= s@.skip(j as int));
            }
            return out;
        }
        j -= 1;
    }
    proof {
        lemma_suffix_absent(s@, c);
    }
    let mut out: Vec<u8> = Vec::new();
    out.extend_from_slice(s.as_slice());
    out
}

} // verus!
