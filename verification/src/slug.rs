//! Ids made from titles and note names: lower-case ASCII letters and
//! digits, every other run of characters a single `-`.

use vstd::prelude::*;

use crate::content::{trim_range, trimmed};
use crate::text::{chars_of, string_from_chars, string_from_range};

verus! {

/// What `str::to_lowercase` gives for `s` (Unicode lower-case mapping).
pub uninterp spec fn unicode_lowercase(s: Seq<char>) -> Seq<char>;

/// Only ASCII lower-case letters, digits and `-`.
pub open spec fn ascii_slug_text(s: Seq<char>) -> bool {
    forall|i: int| 0 <= i < s.len() ==> is_slug_char(#[trigger] s[i]) || s[i] == '-'
}

/// `str::to_lowercase`. Claims that the result is the one
/// `unicode_lowercase` names for `s`, and that text made only of ASCII
/// lower-case letters, digits and `-` is its own lower case (none of
/// these has a lower-case mapping other than itself).
#[verifier::external_body]
pub(crate) fn to_lowercase(s: &str) -> (res: String)
    ensures
        res@ == unicode_lowercase(s@),
        ascii_slug_text(s@) ==> res@ == s@,
{
    s.to_lowercase()
}

/// The NFKD (compatibility decomposition) normal form of `s`.
pub uninterp spec fn nfkd(s: Seq<char>) -> Seq<char>;

/// `UnicodeNormalization::nfkd` of `unicode_normalization`, collected into
/// a string. Claims that the result is the one `nfkd` names for `s`, and
/// that 7-bit ASCII text comes out as it went in (the crate emits an
/// ASCII character unchanged, with combining class 0, so nothing is
/// reordered).
#[verifier::external_body]
fn nfkd_of(s: &str) -> (res: String)
    ensures
        res@ == nfkd(s@),
        (forall|i: int| 0 <= i < s@.len() ==> (#[trigger] s@[i] as u32) < 128) ==> res@ == s@,
{
    unicode_normalization::UnicodeNormalization::nfkd(s).collect::<String>()
}

/// Characters kept as they are in a slug.
pub open spec fn is_slug_char(c: char) -> bool {
    ('a' <= c <= 'z') || ('0' <= c <= '9')
}

/// Each slug character kept, each other run of characters one `-`.
pub open spec fn hyphenated(s: Seq<char>) -> Seq<char>
    decreases s.len(),
{
    if s.len() == 0 {
        Seq::empty()
    } else {
        let prev = hyphenated(s.drop_last());
        if is_slug_char(s.last()) {
            prev.push(s.last())
        } else if prev.len() > 0 && prev.last() == '-' {
            prev
        } else {
            prev.push('-')
        }
    }
}

/// `s` without leading `-`.
pub open spec fn trim_start_dashes(s: Seq<char>) -> Seq<char>
    decreases s.len(),
{
    if s.len() > 0 && s[0] == '-' {
        trim_start_dashes(s.drop_first())
    } else {
        s
    }
}

/// `s` without trailing `-`.
pub open spec fn trim_end_dashes(s: Seq<char>) -> Seq<char>
    decreases s.len(),
{
    if s.len() > 0 && s.last() == '-' {
        trim_end_dashes(s.drop_last())
    } else {
        s
    }
}

/// `str::trim_matches('-')`.
pub open spec fn trim_dashes(s: Seq<char>) -> Seq<char> {
    trim_end_dashes(trim_start_dashes(s))
}

/// A combining mark that NFKD leaves after a base letter.
pub open spec fn is_combining_mark(c: char) -> bool {
    '\u{300}' <= c <= '\u{36f}'
}

/// The one letter that does not decompose but is folded anyway.
pub open spec fn fold_letter(c: char) -> char {
    if c == 'ø' {
        'o'
    } else if c == 'Ø' {
        'O'
    } else {
        c
    }
}

/// A decomposed name with its combining marks dropped and `ø` folded.
pub open spec fn folded(s: Seq<char>) -> Seq<char> {
    s.filter(|c: char| !is_combining_mark(c)).map_values(|c: char| fold_letter(c))
}

/// A note's file name as a Location id: decomposed, accents dropped,
/// lower-cased, apostrophes removed, then hyphenated and trimmed.
pub open spec fn note_slug(text: Seq<char>) -> Seq<char> {
    trim_dashes(
        hyphenated(unicode_lowercase(folded(nfkd(text))).filter(|c: char| c != '\'')),
    )
}

/// A project title as a Location id: trimmed, lower-cased, hyphenated,
/// and `location` when nothing is left.
pub open spec fn title_slug(title: Seq<char>) -> Seq<char> {
    let s = trim_dashes(hyphenated(unicode_lowercase(trimmed(title))));
    if s.len() == 0 {
        seq!['l', 'o', 'c', 'a', 't', 'i', 'o', 'n']
    } else {
        s
    }
}

/// `hyphenated` of `v`.
fn hyphenate(v: &[char]) -> (res: Vec<char>)
    ensures
        res@ == hyphenated(v@),
{
    let mut out: Vec<char> = Vec::new();
    let mut i: usize = 0;
    while i < v.len()
        invariant
            i <= v@.len(),
            out@ == hyphenated(v@.take(i as int)),
        decreases v@.len() - i,
    {
        let c = v[i];
        proof {
            assert(v@.take(i + 1).drop_last() =~= v@.take(i as int));
            assert(v@.take(i + 1).last() == c);
        }
        if ('a' <= c && c <= 'z') || ('0' <= c && c <= '9') {
            out.push(c);
        } else if !(out.len() > 0 && out[out.len() - 1] == '-') {
            out.push('-');
        }
        i = i + 1;
    }
    proof {
        assert(v@.take(v@.len() as int) =~= v@);
    }
    out
}

proof fn lemma_trim_start_dashes_at(s: Seq<char>, i: int)
    requires
        0 <= i <= s.len(),
        forall|k: int| 0 <= k < i ==> s[k] == '-',
        i < s.len() ==> s[i] != '-',
    ensures
        trim_start_dashes(s) == s.skip(i),
    decreases i,
{
    if i > 0 {
        assert forall|k: int| 0 <= k < i - 1 implies s.drop_first()[k] == '-' by {
            assert(s.drop_first()[k] == s[k + 1]);
        }
        if i - 1 < s.drop_first().len() {
            assert(s.drop_first()[i - 1] == s[i]);
        }
        lemma_trim_start_dashes_at(s.drop_first(), i - 1);
        assert(s.drop_first().skip(i - 1) =~= s.skip(i));
    } else {
        assert(s.skip(0) =~= s);
    }
}

proof fn lemma_trim_end_dashes_at(s: Seq<char>, e: int)
    requires
        0 <= e <= s.len(),
        forall|k: int| e <= k < s.len() ==> s[k] == '-',
        e > 0 ==> s[e - 1] != '-',
    ensures
        trim_end_dashes(s) == s.take(e),
    decreases s.len() - e,
{
    if e < s.len() {
        let d = s.drop_last();
        assert forall|k: int| e <= k < d.len() implies d[k] == '-' by {
            assert(d[k] == s[k]);
        }
        if e > 0 {
            assert(d[e - 1] == s[e - 1]);
        }
        assert(s.last() == '-');
        lemma_trim_end_dashes_at(d, e);
        assert(d.take(e) =~= s.take(e));
    } else {
        assert(s.take(e) =~= s);
        if s.len() > 0 {
            assert(s.last() == s[e - 1]);
        }
    }
}

/// `trim_dashes` of `v`.
fn trim_dashes_of(v: &[char]) -> (res: String)
    ensures
        res@ == trim_dashes(v@),
{
    let n = v.len();
    let mut i: usize = 0;
    while i < n && v[i] == '-'
        invariant
            i <= n == v@.len(),
            forall|k: int| 0 <= k < i ==> v@[k] == '-',
        decreases n - i,
    {
        i = i + 1;
    }
    let mut e = n;
    while e > i && v[e - 1] == '-'
        invariant
            i <= e <= n == v@.len(),
            forall|k: int| e <= k < n ==> v@[k] == '-',
        decreases e - i,
    {
        e = e - 1;
    }
    proof {
        lemma_trim_start_dashes_at(v@, i as int);
        let t = v@.skip(i as int);
        assert forall|k: int| e - i <= k < t.len() implies t[k] == '-' by {
            assert(t[k] == v@[i + k]);
        }
        if e > i {
            assert(t[e - i - 1] == v@[e - 1]);
        }
        lemma_trim_end_dashes_at(t, e - i);
        assert(t.take(e - i) =~= v@.subrange(i as int, e as int));
    }
    string_from_range(v, i, e)
}

/// A note's file name as a Location id. Not a general transliterator:
/// handles apostrophes and accented Latin letters.
pub fn slugify(text: &str) -> (res: String)
    ensures
        res@ == note_slug(text@),
{
    let decomposed = chars_of(nfkd_of(text).as_str());
    let mut kept: Vec<char> = Vec::new();
    let ghost pred = |c: char| !is_combining_mark(c);
    let mut i: usize = 0;
    while i < decomposed.len()
        invariant
            i <= decomposed@.len(),
            pred == (|c: char| !is_combining_mark(c)),
            kept@ == decomposed@.take(i as int).filter(pred).map_values(|c: char| fold_letter(c)),
        decreases decomposed@.len() - i,
    {
        let c = decomposed[i];
        proof {
            assert(decomposed@.take(i + 1) =~= decomposed@.take(i as int).push(c));
            decomposed@.take(i as int).lemma_filter_push(c, pred);
        }
        if !('\u{300}' <= c && c <= '\u{36f}') {
            let f = if c == 'ø' {
                'o'
            } else if c == 'Ø' {
                'O'
            } else {
                c
            };
            let ghost prev = kept@;
            kept.push(f);
            proof {
                assert(kept@ =~= decomposed@.take(i + 1).filter(pred).map_values(
                    |c: char| fold_letter(c),
                ));
            }
        }
        i = i + 1;
    }
    proof {
        assert(decomposed@.take(decomposed@.len() as int) =~= decomposed@);
    }
    let lower = chars_of(to_lowercase(string_from_chars(kept.as_slice()).as_str()).as_str());
    let ghost apostrophe = |c: char| c != '\'';
    let mut plain: Vec<char> = Vec::new();
    let mut k: usize = 0;
    while k < lower.len()
        invariant
            k <= lower@.len(),
            apostrophe == (|c: char| c != '\''),
            plain@ == lower@.take(k as int).filter(apostrophe),
        decreases lower@.len() - k,
    {
        let c = lower[k];
        proof {
            assert(lower@.take(k + 1) =~= lower@.take(k as int).push(c));
            lower@.take(k as int).lemma_filter_push(c, apostrophe);
        }
        if c != '\'' {
            plain.push(c);
        }
        k = k + 1;
    }
    proof {
        assert(lower@.take(lower@.len() as int) =~= lower@);
    }
    let slug = hyphenate(plain.as_slice());
    trim_dashes_of(slug.as_slice())
}

/// A project title as a Location id, `location` when it has no letters
/// or digits at all.
pub fn slugify_title(title: &str) -> (res: String)
    ensures
        res@ == title_slug(title@),
{
    let t = chars_of(title);
    let trimmed_title = trim_range(t.as_slice(), 0, t.len());
    proof {
        assert(t@.subrange(0, t@.len() as int) =~= t@);
    }
    let lower = chars_of(to_lowercase(trimmed_title.as_str()).as_str());
    let slug = hyphenate(lower.as_slice());
    let s = trim_dashes_of(slug.as_slice());
    if s.as_str().is_empty() {
        let mut out: Vec<char> = Vec::new();
        crate::text::extend_from_str(&mut out, "location");
        proof {
            reveal_strlit("location");
            assert(out@ =~= seq!['l', 'o', 'c', 'a', 't', 'i', 'o', 'n']);
        }
        string_from_chars(out.as_slice())
    } else {
        s
    }
}

} // verus!
