//! `/`-separated paths, taken lexically as Unix does: resolving a path
//! against a directory, and one path relative to another.

use vstd::prelude::*;

use crate::icons::{split_on, split_ranges};
use crate::text::{chars_eq, chars_of, extend_from_range, string_from_chars};

verus! {

/// One step of `path_clean::clean` over the components kept so far: a
/// `.` is dropped; a `..` drops the name before it, is dropped right
/// after the root, and is kept otherwise; anything else is kept.
pub open spec fn clean_step(out: Seq<Seq<char>>, c: Seq<char>) -> Seq<Seq<char>> {
    if c == seq!['.'] {
        out
    } else if c == seq!['.', '.'] {
        if out.len() > 0 && out.last() == seq!['/'] {
            out
        } else if out.len() > 0 && out.last() != seq!['.', '.'] && out.last() != seq!['.'] {
            out.drop_last()
        } else {
            out.push(c)
        }
    } else {
        out.push(c)
    }
}

/// The components `path_clean::clean` keeps, left to right.
pub open spec fn clean_stack(cs: Seq<Seq<char>>) -> Seq<Seq<char>>
    decreases cs.len(),
{
    if cs.len() == 0 {
        Seq::empty()
    } else {
        clean_step(clean_stack(cs.drop_last()), cs.last())
    }
}

/// `path_clean::clean`: the kept components joined again, `.` when none
/// is left.
pub open spec fn cleaned_path(path: Seq<char>) -> Seq<char> {
    let out = clean_stack(path_components(path));
    if out.len() == 0 {
        seq!['.']
    } else {
        collected(out)
    }
}

/// `path_clean::clean`: lexical clean-up of `.`, `..` and repeated
/// separators over the path's components, as its source does it.
#[verifier::external_body]
fn clean_path(path: &str) -> (res: String)
    ensures
        res@ == cleaned_path(path@),
{
    path_clean::clean(path).to_string_lossy().into_owned()
}

/// `PathBuf::push` of `x` onto `buf`: an absolute `x` replaces `buf`,
/// else it is appended after a separator if `buf` needs one.
pub open spec fn pushed(buf: Seq<char>, x: Seq<char>) -> Seq<char> {
    if x.len() > 0 && x[0] == '/' {
        x
    } else if buf.len() > 0 && buf.last() != '/' {
        buf + seq!['/'] + x
    } else {
        buf + x
    }
}

/// `base.join(path)`.
pub open spec fn joined_path(base: Seq<char>, path: Seq<char>) -> Seq<char> {
    pushed(base, path)
}

/// `path` against `base`: an absolute `path` as it is, a relative one
/// inside `base`; cleaned either way.
pub open spec fn resolved(base: Seq<char>, path: Seq<char>) -> Seq<char> {
    if path.len() > 0 && path[0] == '/' {
        cleaned_path(path)
    } else {
        cleaned_path(joined_path(base, path))
    }
}

pub(crate) fn push_path(buf: &mut Vec<char>, x: &[char])
    ensures
        final(buf)@ == pushed(old(buf)@, x@),
{
    if x.len() > 0 && x[0] == '/' {
        buf.clear();
    } else if buf.len() > 0 && buf[buf.len() - 1] != '/' {
        buf.push('/');
    }
    extend_from_range(buf, x, 0, x.len());
    proof {
        assert(x@.subrange(0, x@.len() as int) =~= x@);
        if x@.len() > 0 && x@[0] == '/' {
            assert(final(buf)@ =~= x@);
        }
    }
}

/// `path` resolved against `base` without touching the filesystem.
pub fn resolve(base: &str, path: &str) -> (res: String)
    ensures
        res@ == resolved(base@, path@),
{
    let p = chars_of(path);
    if p.len() > 0 && p[0] == '/' {
        clean_path(path)
    } else {
        let mut joined = chars_of(base);
        push_path(&mut joined, p.as_slice());
        clean_path(string_from_chars(joined.as_slice()).as_str())
    }
}

/// `Path::components` on Unix, each as its text: `/` for the root, `.`
/// for a leading current-directory mark, `..` and names as written;
/// empty and `.` segments dropped.
pub open spec fn path_components(p: Seq<char>) -> Seq<Seq<char>> {
    let root = p.len() > 0 && p[0] == '/';
    let cur = !root && (p == seq!['.'] || (p.len() >= 2 && p[0] == '.' && p[1] == '/'));
    let segs = split_on(p, seq!['/']).filter(|s: Seq<char>| s.len() > 0 && s != seq!['.']);
    (if root {
        seq![seq!['/']]
    } else if cur {
        seq![seq!['.']]
    } else {
        Seq::empty()
    }) + segs
}

/// How many leading items `a` and `b` share.
pub open spec fn common_prefix_len(a: Seq<Seq<char>>, b: Seq<Seq<char>>) -> nat
    decreases a.len(),
{
    if a.len() == 0 || b.len() == 0 || a[0] != b[0] {
        0
    } else {
        1 + common_prefix_len(a.drop_first(), b.drop_first())
    }
}

/// The components pushed one after another onto an empty path.
pub open spec fn collected(items: Seq<Seq<char>>) -> Seq<char>
    decreases items.len(),
{
    if items.len() == 0 {
        Seq::empty()
    } else {
        pushed(collected(items.drop_last()), items.last())
    }
}

/// `path` relative to `base`, `/`-separated, `.` for the same place:
/// up out of what `base` does not share, then down into `path`.
pub open spec fn relative_between(path: Seq<char>, base: Seq<char>) -> Seq<char> {
    let pc = path_components(path);
    let bc = path_components(base);
    let common = common_prefix_len(pc, bc);
    let items = Seq::new((bc.len() - common) as nat, |i: int| seq!['.', '.']) + pc.skip(common as int);
    let rel = collected(items).map_values(|c: char| if c == '\\' { '/' } else { c });
    if rel.len() == 0 {
        seq!['.']
    } else {
        rel
    }
}

/// The components of `p`, as character vectors.
fn components_of(p: &str) -> (res: Vec<Vec<char>>)
    ensures
        res@.map_values(|c: Vec<char>| c@) == path_components(p@),
{
    let v = chars_of(p);
    let ghost pred = |s: Seq<char>| s.len() > 0 && s != seq!['.'];
    let mut out: Vec<Vec<char>> = Vec::new();
    let root = v.len() > 0 && v[0] == '/';
    let cur = !root && ((v.len() == 1 && v[0] == '.') || (v.len() >= 2 && v[0] == '.' && v[1] == '/'));
    proof {
        assert(cur == (!root && (v@ == seq!['.'] || (v@.len() >= 2 && v@[0] == '.' && v@[1] == '/'))))
            by {
            if v@.len() == 1 && v@[0] == '.' {
                assert(v@ =~= seq!['.']);
            }
        }
    }
    if root {
        let mut r: Vec<char> = Vec::new();
        r.push('/');
        out.push(r);
    } else if cur {
        let mut r: Vec<char> = Vec::new();
        r.push('.');
        out.push(r);
    }
    let ghost head = out@.map_values(|c: Vec<char>| c@);
    proof {
        if root {
            assert(head =~= seq![seq!['/']]);
        } else if cur {
            assert(head =~= seq![seq!['.']]);
        } else {
            assert(head =~= Seq::<Seq<char>>::empty());
        }
    }
    let mut slash: Vec<char> = Vec::new();
    slash.push('/');
    proof {
        assert(slash@ =~= seq!['/']);
    }
    let ranges = split_ranges(v.as_slice(), slash.as_slice());
    let ghost pieces = split_on(v@, seq!['/']);
    let mut k: usize = 0;
    while k < ranges.len()
        invariant
            k <= ranges@.len(),
            pieces == split_on(v@, seq!['/']),
            ranges@.len() == pieces.len(),
            pred == (|s: Seq<char>| s.len() > 0 && s != seq!['.']),
            forall|j: int|
                0 <= j < ranges@.len() ==> {
                    let (a, b) = #[trigger] ranges@[j];
                    a <= b <= v@.len() && v@.subrange(a as int, b as int) == pieces[j]
                },
            out@.map_values(|c: Vec<char>| c@) == head + pieces.take(k as int).filter(pred),
        decreases ranges@.len() - k,
    {
        let (a, b) = ranges[k];
        let ghost prev = out@.map_values(|c: Vec<char>| c@);
        proof {
            assert(pieces.take(k + 1) =~= pieces.take(k as int).push(pieces[k as int]));
            pieces.take(k as int).lemma_filter_push(pieces[k as int], pred);
        }
        let is_dot = b - a == 1 && v[a] == '.';
        proof {
            if b - a == 1 {
                assert(pieces[k as int][0] == v@[a as int]);
                if v@[a as int] == '.' {
                    assert(pieces[k as int] =~= seq!['.']);
                }
            }
        }
        if b > a && !is_dot {
            let mut seg: Vec<char> = Vec::new();
            extend_from_range(&mut seg, v.as_slice(), a, b);
            out.push(seg);
            proof {
                assert(out@.map_values(|c: Vec<char>| c@) =~= prev.push(pieces[k as int]));
            }
        } else {
            proof {
                if b == a {
                    assert(pieces[k as int].len() == 0);
                }
            }
        }
        k = k + 1;
    }
    proof {
        assert(pieces.take(ranges@.len() as int) =~= pieces);
    }
    out
}

proof fn lemma_common_prefix(a: Seq<Seq<char>>, b: Seq<Seq<char>>, k: int)
    requires
        0 <= k <= a.len(),
        k <= b.len(),
        forall|j: int| 0 <= j < k ==> a[j] == b[j],
        k < a.len() && k < b.len() ==> a[k] != b[k],
    ensures
        common_prefix_len(a, b) == k,
    decreases k,
{
    if k > 0 {
        assert(a[0] == b[0]);
        assert forall|j: int| 0 <= j < k - 1 implies a.drop_first()[j] == b.drop_first()[j] by {
            assert(a.drop_first()[j] == a[j + 1]);
            assert(b.drop_first()[j] == b[j + 1]);
        }
        if k - 1 < a.drop_first().len() && k - 1 < b.drop_first().len() {
            assert(a.drop_first()[k - 1] == a[k]);
            assert(b.drop_first()[k - 1] == b[k]);
        }
        lemma_common_prefix(a.drop_first(), b.drop_first(), k - 1);
    }
}

/// `path` relative to `base`, both taken as they are (neither is made
/// absolute first).
pub fn relative_path_between(path: &str, base: &str) -> (res: String)
    ensures
        res@ == relative_between(path@, base@),
{
    let pc = components_of(path);
    let bc = components_of(base);
    let ghost pcs = path_components(path@);
    let ghost bcs = path_components(base@);
    let mut common: usize = 0;
    while common < pc.len() && common < bc.len() && chars_eq(
        pc[common].as_slice(),
        bc[common].as_slice(),
    )
        invariant
            common <= pc@.len(),
            common <= bc@.len(),
            pc@.map_values(|c: Vec<char>| c@) == pcs,
            bc@.map_values(|c: Vec<char>| c@) == bcs,
            forall|j: int| 0 <= j < common ==> pcs[j] == bcs[j],
        decreases pc@.len() - common,
    {
        proof {
            assert(pcs[common as int] == pc@[common as int]@);
            assert(bcs[common as int] == bc@[common as int]@);
        }
        common = common + 1;
    }
    proof {
        if common < pc@.len() && common < bc@.len() {
            assert(pcs[common as int] == pc@[common as int]@);
            assert(bcs[common as int] == bc@[common as int]@);
        }
        lemma_common_prefix(pcs, bcs, common as int);
    }
    let ghost items = Seq::new((bcs.len() - common) as nat, |i: int| seq!['.', '.']) + pcs.skip(
        common as int,
    );
    let mut out: Vec<char> = Vec::new();
    let ups = bc.len() - common;
    let mut u: usize = 0;
    let mut dots: Vec<char> = Vec::new();
    dots.push('.');
    dots.push('.');
    proof {
        assert(dots@ =~= seq!['.', '.']);
    }
    while u < ups
        invariant
            u <= ups == bcs.len() - common,
            dots@ == seq!['.', '.'],
            items == Seq::new((bcs.len() - common) as nat, |i: int| seq!['.', '.']) + pcs.skip(
                common as int,
            ),
            out@ == collected(items.take(u as int)),
        decreases ups - u,
    {
        push_path(&mut out, dots.as_slice());
        proof {
            assert(items.take(u + 1).drop_last() =~= items.take(u as int));
            assert(items.take(u + 1).last() == seq!['.', '.']);
        }
        u = u + 1;
    }
    let mut d: usize = common;
    while d < pc.len()
        invariant
            common <= d <= pc@.len(),
            ups == bcs.len() - common,
            pc@.map_values(|c: Vec<char>| c@) == pcs,
            items == Seq::new((bcs.len() - common) as nat, |i: int| seq!['.', '.']) + pcs.skip(
                common as int,
            ),
            out@ == collected(items.take(ups + d - common)),
        decreases pc@.len() - d,
    {
        push_path(&mut out, pc[d].as_slice());
        proof {
            assert(items.take(ups + d - common + 1).drop_last() =~= items.take(ups + d - common));
            assert(items.take(ups + d - common + 1).last() == pcs[d as int]);
            assert(pcs[d as int] == pc@[d as int]@);
        }
        d = d + 1;
    }
    proof {
        assert(items.take(ups + pc@.len() - common) =~= items);
    }
    let mut rel: Vec<char> = Vec::new();
    let mut i: usize = 0;
    while i < out.len()
        invariant
            i <= out@.len(),
            rel@ == out@.take(i as int).map_values(|c: char| if c == '\\' { '/' } else { c }),
        decreases out@.len() - i,
    {
        let c = out[i];
        rel.push(if c == '\\' { '/' } else { c });
        proof {
            assert(rel@ =~= out@.take(i + 1).map_values(|c: char| if c == '\\' { '/' } else { c }));
        }
        i = i + 1;
    }
    proof {
        assert(out@.take(out@.len() as int) =~= out@);
    }
    if rel.len() == 0 {
        let mut dot: Vec<char> = Vec::new();
        dot.push('.');
        proof {
            assert(dot@ =~= seq!['.']);
        }
        string_from_chars(dot.as_slice())
    } else {
        string_from_chars(rel.as_slice())
    }
}

/// An absolute path that does not open with exactly two slashes (POSIX
/// leaves the meaning of such a path to the system).
pub open spec fn plainly_absolute(p: Seq<char>) -> bool {
    &&& p.len() > 0 && p[0] == '/'
    &&& !(p.len() >= 2 && p[1] == '/' && (p.len() == 2 || p[2] != '/'))
}

/// An absolute path made absolute as POSIX resolves it without following
/// links: repeated separators and `.` components dropped, `..` components
/// and a trailing slash kept.
pub open spec fn posix_absolute(p: Seq<char>) -> Seq<char> {
    let c = collected(path_components(p));
    if p.last() == '/' && c.last() != '/' {
        c.push('/')
    } else {
        c
    }
}

/// `std::path::absolute`, falling back to the path itself when it fails.
/// For a plainly absolute path the documentation gives the result
/// (no working directory involved, no error); for a relative one nothing
/// is claimed: it depends on the working directory.
#[verifier::external_body]
fn absolute(path: &str) -> (res: String)
    ensures
        plainly_absolute(path@) ==> res@ == posix_absolute(path@),
{
    std::path::absolute(path).map_or_else(|_| path.to_owned(), |p| p.to_string_lossy().into_owned())
}

/// `path` relative to `base`, `/`-separated, for paths written into a
/// project file; both are made absolute first. For absolute paths that
/// is exact; relative ones are made absolute against the working
/// directory, and the result is then `relative_path_between` of those.
pub fn relative_to(path: &str, base: &str) -> (res: String)
    ensures
        exists|a: Seq<char>, b: Seq<char>| res@ == relative_between(a, b),
        plainly_absolute(path@) && plainly_absolute(base@) ==> res@ == relative_between(
            posix_absolute(path@),
            posix_absolute(base@),
        ),
{
    let p = absolute(path);
    let b = absolute(base);
    let res = relative_path_between(p.as_str(), b.as_str());
    proof {
        assert(res@ == relative_between(p@, b@));
    }
    res
}

/// `Path::starts_with`: `base`'s components lead `path`'s.
pub open spec fn path_starts_with(path: Seq<char>, base: Seq<char>) -> bool {
    let pc = path_components(path);
    let bc = path_components(base);
    bc.len() <= pc.len() && pc.take(bc.len() as int) == bc
}

/// Whether `path` lies inside `base`, component by component.
pub fn starts_with_path(path: &str, base: &str) -> (res: bool)
    ensures
        res == path_starts_with(path@, base@),
{
    let pc = components_of(path);
    let bc = components_of(base);
    let ghost pv = pc@.map_values(|c: Vec<char>| c@);
    let ghost bv = bc@.map_values(|c: Vec<char>| c@);
    if bc.len() > pc.len() {
        return false;
    }
    let mut i: usize = 0;
    while i < bc.len()
        invariant
            bc@.len() <= pc@.len(),
            i <= bc@.len(),
            pv == pc@.map_values(|c: Vec<char>| c@),
            bv == bc@.map_values(|c: Vec<char>| c@),
            pv == path_components(path@),
            bv == path_components(base@),
            forall|k: int| 0 <= k < i ==> pv[k] == bv[k],
        decreases bc@.len() - i,
    {
        if !chars_eq(pc[i].as_slice(), bc[i].as_slice()) {
            proof {
                assert(pv[i as int] == pc@[i as int]@);
                assert(bv[i as int] == bc@[i as int]@);
                assert(pv.take(bv.len() as int)[i as int] == pv[i as int]);
                assert(pv.take(bv.len() as int) != bv);
            }
            return false;
        }
        i = i + 1;
    }
    proof {
        assert(pv.take(bv.len() as int) =~= bv);
    }
    true
}

} // verus!
