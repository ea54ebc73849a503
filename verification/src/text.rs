//! Character-level helpers shared by the string-processing modules.

use vstd::prelude::*;

verus! {

/// Appends one character to a string (`String::push`).
#[verifier::external_body]
pub(crate) fn push_char(s: &mut String, c: char)
    ensures
        final(s)@ == old(s)@.push(c),
{
    s.push(c);
}

/// The characters of a string slice, in order.
pub fn chars_of(s: &str) -> (out: Vec<char>)
    ensures
        out@ == s@,
{
    let mut out: Vec<char> = Vec::new();
    for c in it: s.chars()
        invariant
            out@ == it.seq().take(it.index() as int),
    {
        out.push(c);
    }
    out
}

/// A string holding exactly the given characters.
pub fn string_from_chars(v: &[char]) -> (out: String)
    ensures
        out@ == v@,
{
    let mut out = String::new();
    let mut i: usize = 0;
    while i < v.len()
        invariant
            i <= v@.len(),
            out@ == v@.take(i as int),
        decreases v@.len() - i,
    {
        push_char(&mut out, v[i]);
        assert(v@.take(i as int + 1) == v@.take(i as int).push(v@[i as int]));
        i = i + 1;
    }
    assert(v@.take(v@.len() as int) == v@);
    out
}

/// A string holding the characters `v[start..end]`.
pub fn string_from_range(v: &[char], start: usize, end: usize) -> (out: String)
    requires
        start <= end <= v@.len(),
    ensures
        out@ == v@.subrange(start as int, end as int),
{
    let mut out = String::new();
    let mut i: usize = start;
    while i < end
        invariant
            start <= i <= end <= v@.len(),
            out@ == v@.subrange(start as int, i as int),
        decreases end - i,
    {
        push_char(&mut out, v[i]);
        assert(v@.subrange(start as int, i as int + 1) == v@.subrange(start as int, i as int).push(
            v@[i as int],
        ));
        i = i + 1;
    }
    out
}

/// Appends `v[start..end]` to `out`.
pub fn extend_from_range(out: &mut Vec<char>, v: &[char], start: usize, end: usize)
    requires
        start <= end <= v@.len(),
    ensures
        final(out)@ == old(out)@ + v@.subrange(start as int, end as int),
{
    let ghost init = out@;
    let mut i: usize = start;
    while i < end
        invariant
            start <= i <= end <= v@.len(),
            out@ == init + v@.subrange(start as int, i as int),
        decreases end - i,
    {
        out.push(v[i]);
        assert(v@.subrange(start as int, i as int + 1) == v@.subrange(start as int, i as int).push(
            v@[i as int],
        ));
        i = i + 1;
    }
}

/// Appends all of `s` to `out`.
pub fn extend_from_str(out: &mut Vec<char>, s: &str)
    ensures
        final(out)@ == old(out)@ + s@,
{
    let cs = chars_of(s);
    extend_from_range(out, cs.as_slice(), 0, cs.len());
    assert(cs@.subrange(0, cs@.len() as int) == cs@);
}

/// Whether two character sequences are equal.
pub fn chars_eq(a: &[char], b: &[char]) -> (res: bool)
    ensures
        res == (a@ == b@),
{
    if a.len() != b.len() {
        return false;
    }
    let mut i: usize = 0;
    while i < a.len()
        invariant
            a@.len() == b@.len(),
            i <= a@.len(),
            forall|k: int| 0 <= k < i ==> a@[k] == b@[k],
        decreases a@.len() - i,
    {
        if a[i] != b[i] {
            return false;
        }
        i = i + 1;
    }
    assert(a@ =~= b@);
    true
}

/// Whether `v[start..end]` equals the characters of `s`.
pub fn range_eq_str(v: &[char], start: usize, end: usize, s: &str) -> (res: bool)
    requires
        start <= end <= v@.len(),
    ensures
        res == (v@.subrange(start as int, end as int) == s@),
{
    let cs = chars_of(s);
    if end - start != cs.len() {
        return false;
    }
    let mut i: usize = 0;
    while i < cs.len()
        invariant
            start <= end <= v@.len(),
            end - start == cs@.len(),
            cs@ == s@,
            i <= cs@.len(),
            forall|k: int| 0 <= k < i ==> v@[start + k] == cs@[k],
        decreases cs@.len() - i,
    {
        if v[start + i] != cs[i] {
            assert(v@.subrange(start as int, end as int)[i as int] != s@[i as int]);
            return false;
        }
        i = i + 1;
    }
    assert(v@.subrange(start as int, end as int) =~= s@);
    true
}

/// Whether `v[at..]` starts with the characters of `s`.
pub fn has_str_at(v: &[char], at: usize, s: &str) -> (res: bool)
    requires
        at <= v@.len(),
    ensures
        res == (s@.len() <= v@.len() - at && v@.subrange(at as int, at + s@.len()) == s@),
{
    let cs = chars_of(s);
    if cs.len() > v.len() - at {
        return false;
    }
    range_eq_str(v, at, at + cs.len(), s)
}

} // verus!

verus! {

/// Whether `pat` occurs in `s` at `i`.
pub open spec fn matches_at(s: Seq<char>, pat: Seq<char>, i: int) -> bool {
    0 <= i && i + pat.len() <= s.len() && s.subrange(i, i + pat.len()) == pat
}

/// The first position at or after `i` where `pat` occurs in `s`.
pub open spec fn find_from(s: Seq<char>, pat: Seq<char>, i: int) -> Option<int>
    decreases s.len() + 1 - i,
{
    if i < 0 || i + pat.len() > s.len() {
        None
    } else if matches_at(s, pat, i) {
        Some(i)
    } else {
        find_from(s, pat, i + 1)
    }
}

/// `str::find`: the first position where `pat` occurs in `s`.
pub open spec fn find(s: Seq<char>, pat: Seq<char>) -> Option<int> {
    find_from(s, pat, 0)
}

pub proof fn lemma_find_from(s: Seq<char>, pat: Seq<char>, i: int)
    requires
        0 <= i,
    ensures
        match find_from(s, pat, i) {
            Some(k) => i <= k && k + pat.len() <= s.len() && matches_at(s, pat, k),
            None => true,
        },
    decreases s.len() + 1 - i,
{
    if i + pat.len() <= s.len() && !matches_at(s, pat, i) {
        lemma_find_from(s, pat, i + 1);
    }
}

/// The first position of `pat` in `v[start..end]`, relative to `start`.
pub fn find_in(v: &[char], start: usize, end: usize, pat: &[char]) -> (res: Option<usize>)
    requires
        start <= end <= v@.len(),
    ensures
        match res {
            Some(k) => find(v@.subrange(start as int, end as int), pat@) == Some(k as int) && k
                + pat@.len() <= end - start,
            None => find(v@.subrange(start as int, end as int), pat@) is None,
        },
{
    let ghost s = v@.subrange(start as int, end as int);
    let m = pat.len();
    let n = end - start;
    if m > n {
        return None;
    }
    if m == 0 {
        proof {
            assert(s.subrange(0, 0) =~= pat@);
        }
        return Some(0);
    }
    let mut i: usize = 0;
    while i <= n - m
        invariant
            start <= end <= v@.len(),
            n == end - start,
            1 <= m <= n,
            m == pat@.len(),
            i <= n - m + 1,
            s == v@.subrange(start as int, end as int),
            find(s, pat@) == find_from(s, pat@, i as int),
        decreases n - m + 1 - i,
    {
        if chars_eq(&v[start + i..start + i + m], pat) {
            proof {
                assert(v@.subrange(start + i, start + i + m) =~= s.subrange(i as int, i + m));
            }
            return Some(i);
        }
        proof {
            assert(v@.subrange(start + i, start + i + m) =~= s.subrange(i as int, i + m));
        }
        i = i + 1;
    }
    None
}

} // verus!
