//! Content resolution: a Location's content block turned into the
//! title, summary and body a reader sees.

use vstd::prelude::*;

use crate::frontmatter::{
    closing_delimiter, first_newline, is_delimiter_line, lemma_first_newline,
};
use crate::project::{InlineLocationContent, ResolvedContent};
use crate::text::{chars_of, string_from_range};

verus! {

/// The string value at `key` of the YAML mapping that `text` parses to;
/// `None` when the text is not YAML, not a mapping, or the value there is
/// not a string.
pub uninterp spec fn yaml_string_field(text: Seq<char>, key: Seq<char>) -> Option<Seq<char>>;

/// Parses `text` with `serde_yml::from_str` into a `serde_yml::Value`
/// and, when that is a mapping, reads the string at `key` (`Value::get`,
/// `Value::as_str`). Claims only that the answer is the one
/// `yaml_string_field` names for these two arguments; what YAML means is
/// left to the crate.
#[verifier::external_body]
pub(crate) fn yaml_string_field_of(text: &str, key: &str) -> (res: Option<String>)
    ensures
        match res {
            Some(s) => yaml_string_field(text@, key@) == Some(s@),
            None => yaml_string_field(text@, key@) is None,
        },
{
    match serde_yml::from_str::<serde_yml::Value>(text) {
        Ok(v @ serde_yml::Value::Mapping(_)) => v.get(key).and_then(|x| x.as_str()).map(|s| s.to_string()),
        _ => None,
    }
}

/// The boolean value at `key` of the YAML mapping that `text` parses to;
/// `None` when the text is not YAML, not a mapping, or the value there is
/// not a boolean.
pub uninterp spec fn yaml_bool_field(text: Seq<char>, key: Seq<char>) -> Option<bool>;

/// Parses `text` with `serde_yml::from_str` and, when that is a mapping,
/// reads the boolean at `key` (`Value::get`, `Value::as_bool`). Claims
/// only that the answer is the one `yaml_bool_field` names.
#[verifier::external_body]
pub(crate) fn yaml_bool_field_of(text: &str, key: &str) -> (res: Option<bool>)
    ensures
        res == yaml_bool_field(text@, key@),
{
    match serde_yml::from_str::<serde_yml::Value>(text) {
        Ok(v @ serde_yml::Value::Mapping(_)) => v.get(key).and_then(|x| x.as_bool()),
        _ => None,
    }
}

/// The number at `key` of the YAML mapping that `text` parses to, as the
/// bit pattern of the 64-bit float `Value::as_f64` gives; `None` when the
/// text is not YAML, not a mapping, or the value there is not a number.
pub uninterp spec fn yaml_f64_field(text: Seq<char>, key: Seq<char>) -> Option<u64>;

/// Parses `text` with `serde_yml::from_str` and, when that is a mapping,
/// reads the number at `key` (`Value::get`, `Value::as_f64`) as its bit
/// pattern. Claims only that the answer is the one `yaml_f64_field`
/// names.
#[verifier::external_body]
pub(crate) fn yaml_f64_field_of(text: &str, key: &str) -> (res: Option<u64>)
    ensures
        res == yaml_f64_field(text@, key@),
{
    match serde_yml::from_str::<serde_yml::Value>(text) {
        Ok(v @ serde_yml::Value::Mapping(_)) => v.get(key).and_then(|x| x.as_f64()).map(|x| x.to_bits()),
        _ => None,
    }
}

/// Inline content as it reads: its own title and body, no summary.
pub fn resolve_inline_content(content: &InlineLocationContent) -> (res: ResolvedContent)
    ensures
        res.title == content.title,
        res.summary is None,
        res.body@ == match content.body {
            Some(b) => b@,
            None => Seq::<char>::empty(),
        },
{
    ResolvedContent {
        title: content.title.clone(),
        summary: None,
        body: match &content.body {
            Some(b) => b.clone(),
            None => String::new(),
        },
    }
}

/// A note split into its frontmatter text and its body: the note must
/// open with a `---` line and have a later `---` line; the frontmatter is
/// what lies between (without the last line ending), the body what
/// follows the second delimiter line.
pub open spec fn note_parts(raw: Seq<char>) -> Option<(Seq<char>, Seq<char>)> {
    let j = first_newline(raw);
    if j < raw.len() && is_delimiter_line(raw.take(j + 1)) {
        let rest = raw.skip(j + 1);
        match closing_delimiter(rest) {
            Some((a, b)) => Some(
                (
                    if a == 0 {
                        Seq::empty()
                    } else {
                        rest.take(a - 1)
                    },
                    rest.skip(b),
                ),
            ),
            None => None,
        }
    } else {
        None
    }
}

/// Splits a leading `---`-delimited frontmatter block off a note:
/// `(Some(frontmatter), body)`, or `(None, raw)` without such a block.
pub fn split_frontmatter(raw: &str) -> (res: (Option<String>, String))
    ensures
        match note_parts(raw@) {
            Some((fm, body)) => res.0 matches Some(f) && f@ == fm && res.1@ == body,
            None => res.0 is None && res.1@ == raw@,
        },
{
    let v = chars_of(raw);
    let n = v.len();
    let j = crate::frontmatter::find_newline_in(v.as_slice(), 0, n);
    proof {
        assert(v@.subrange(0, n as int) =~= v@);
        lemma_first_newline(v@);
    }
    if j >= n {
        return (None, raw.to_owned());
    }
    proof {
        assert(v@.subrange(0, j + 1) =~= v@.take(j + 1));
    }
    if !crate::frontmatter::is_delimiter_in(v.as_slice(), 0, j + 1) {
        return (None, raw.to_owned());
    }
    let start = j + 1;
    let close = crate::frontmatter::find_closing_in(v.as_slice(), start, n);
    proof {
        assert(v@.subrange(start as int, n as int) =~= v@.skip(start as int));
        crate::frontmatter::lemma_closing_bounds(v@.skip(start as int));
    }
    match close {
        None => (None, raw.to_owned()),
        Some((a, b)) => {
            let fm = if a == start {
                String::new()
            } else {
                string_from_range(v.as_slice(), start, a - 1)
            };
            let body = string_from_range(v.as_slice(), b, n);
            proof {
                let rest = v@.skip(start as int);
                if a > start {
                    assert(rest.take(a - start - 1) =~= v@.subrange(start as int, a - 1));
                }
                assert(rest.skip(b - start) =~= v@.subrange(b as int, n as int));
            }
            (Some(fm), body)
        },
    }
}

/// Index of the last `c` in `s`.
pub open spec fn last_index_of(s: Seq<char>, c: char) -> Option<int>
    decreases s.len(),
{
    if s.len() == 0 {
        None
    } else if s.last() == c {
        Some(s.len() - 1)
    } else {
        last_index_of(s.drop_last(), c)
    }
}

/// What follows the last `/` of a path (all of it without one).
pub open spec fn last_segment(path: Seq<char>) -> Seq<char> {
    match last_index_of(path, '/') {
        Some(i) => path.skip(i + 1),
        None => path,
    }
}

/// A note's title when its frontmatter gives none: its file name without
/// the last extension.
pub open spec fn fallback_title(reference: Seq<char>) -> Seq<char> {
    let seg = last_segment(reference);
    match last_index_of(seg, '.') {
        Some(i) => seg.take(i),
        None => seg,
    }
}

/// `char::is_whitespace`: the Unicode White_Space property.
pub open spec fn is_white_space(c: char) -> bool {
    ||| ('\u{9}' <= c <= '\u{d}')
    ||| c == ' '
    ||| c == '\u{85}'
    ||| c == '\u{a0}'
    ||| c == '\u{1680}'
    ||| ('\u{2000}' <= c <= '\u{200a}')
    ||| c == '\u{2028}'
    ||| c == '\u{2029}'
    ||| c == '\u{202f}'
    ||| c == '\u{205f}'
    ||| c == '\u{3000}'
}

pub fn is_white_space_char(c: char) -> (res: bool)
    ensures
        res == is_white_space(c),
{
    ('\u{9}' <= c && c <= '\u{d}') || c == ' ' || c == '\u{85}' || c == '\u{a0}' || c == '\u{1680}'
        || ('\u{2000}' <= c && c <= '\u{200a}') || c == '\u{2028}' || c == '\u{2029}' || c
        == '\u{202f}' || c == '\u{205f}' || c == '\u{3000}'
}

/// `s` without leading white space.
pub open spec fn trim_start(s: Seq<char>) -> Seq<char>
    decreases s.len(),
{
    if s.len() > 0 && is_white_space(s[0]) {
        trim_start(s.drop_first())
    } else {
        s
    }
}

/// `s` without trailing white space.
pub open spec fn trim_end(s: Seq<char>) -> Seq<char>
    decreases s.len(),
{
    if s.len() > 0 && is_white_space(s.last()) {
        trim_end(s.drop_last())
    } else {
        s
    }
}

/// `str::trim`: `s` without leading or trailing white space.
pub open spec fn trimmed(s: Seq<char>) -> Seq<char> {
    trim_end(trim_start(s))
}

proof fn lemma_trim_start_at(s: Seq<char>, i: int)
    requires
        0 <= i <= s.len(),
        forall|k: int| 0 <= k < i ==> is_white_space(s[k]),
        i < s.len() ==> !is_white_space(s[i]),
    ensures
        trim_start(s) == s.skip(i),
    decreases i,
{
    if i > 0 {
        assert forall|k: int| 0 <= k < i - 1 implies is_white_space(s.drop_first()[k]) by {
            assert(s.drop_first()[k] == s[k + 1]);
        }
        if i - 1 < s.drop_first().len() {
            assert(s.drop_first()[i - 1] == s[i]);
        }
        lemma_trim_start_at(s.drop_first(), i - 1);
        assert(s.drop_first().skip(i - 1) =~= s.skip(i));
    } else {
        assert(s.skip(0) =~= s);
    }
}

proof fn lemma_trim_end_at(s: Seq<char>, e: int)
    requires
        0 <= e <= s.len(),
        forall|k: int| e <= k < s.len() ==> is_white_space(s[k]),
        e > 0 ==> !is_white_space(s[e - 1]),
    ensures
        trim_end(s) == s.take(e),
    decreases s.len() - e,
{
    if e < s.len() {
        let d = s.drop_last();
        assert forall|k: int| e <= k < d.len() implies is_white_space(d[k]) by {
            assert(d[k] == s[k]);
        }
        if e > 0 {
            assert(d[e - 1] == s[e - 1]);
        }
        assert(is_white_space(s.last()));
        lemma_trim_end_at(d, e);
        assert(d.take(e) =~= s.take(e));
    } else {
        assert(s.take(e) =~= s);
        if s.len() > 0 {
            assert(s.last() == s[e - 1]);
        }
    }
}

/// `str::trim` on `v[start..end]`, as a string.
pub fn trim_range(v: &[char], start: usize, end: usize) -> (res: String)
    requires
        start <= end <= v@.len(),
    ensures
        res@ == trimmed(v@.subrange(start as int, end as int)),
{
    let ghost s = v@.subrange(start as int, end as int);
    let mut i = start;
    while i < end && is_white_space_char(v[i])
        invariant
            start <= i <= end <= v@.len(),
            forall|k: int| start <= k < i ==> is_white_space(v@[k]),
        decreases end - i,
    {
        i = i + 1;
    }
    let mut e = end;
    while e > i && is_white_space_char(v[e - 1])
        invariant
            start <= i <= e <= end <= v@.len(),
            forall|k: int| e <= k < end ==> is_white_space(v@[k]),
        decreases e - i,
    {
        e = e - 1;
    }
    proof {
        assert forall|k: int| 0 <= k < i - start implies is_white_space(s[k]) by {
            assert(s[k] == v@[start + k]);
        }
        if i < end {
            assert(s[i - start] == v@[i as int]);
        }
        lemma_trim_start_at(s, i - start);
        let t = s.skip(i - start);
        assert(t =~= v@.subrange(i as int, end as int));
        assert forall|k: int| e - i <= k < t.len() implies is_white_space(t[k]) by {
            assert(t[k] == v@[i + k]);
        }
        if e > i {
            assert(t[e - i - 1] == v@[e - 1]);
        }
        lemma_trim_end_at(t, e - i);
        assert(t.take(e - i) =~= v@.subrange(i as int, e as int));
    }
    string_from_range(v, i, e)
}

pub open spec fn title_key() -> Seq<char> {
    seq!['t', 'i', 't', 'l', 'e']
}

pub open spec fn summary_key() -> Seq<char> {
    seq!['s', 'u', 'm', 'm', 'a', 'r', 'y']
}

/// The title a note's frontmatter text gives it, if a non-empty one.
pub open spec fn frontmatter_title(fm: Option<Seq<char>>) -> Option<Seq<char>> {
    match fm {
        Some(t) => match yaml_string_field(t, title_key()) {
            Some(x) => if x.len() > 0 {
                Some(x)
            } else {
                None
            },
            None => None,
        },
        None => None,
    }
}

/// The last index of `c` in `v[start..end]`, relative to `start`.
pub(crate) fn rfind_in(v: &[char], start: usize, end: usize, c: char) -> (res: Option<usize>)
    requires
        start <= end <= v@.len(),
    ensures
        match last_index_of(v@.subrange(start as int, end as int), c) {
            Some(i) => res == Some(i as usize) && 0 <= i < end - start,
            None => res is None,
        },
{
    let mut e = end;
    while e > start
        invariant
            start <= e <= end <= v@.len(),
            last_index_of(v@.subrange(start as int, end as int), c) == last_index_of(
                v@.subrange(start as int, e as int),
                c,
            ),
        decreases e - start,
    {
        let ghost s = v@.subrange(start as int, e as int);
        assert(s.last() == v@[e - 1]);
        if v[e - 1] == c {
            return Some(e - 1 - start);
        }
        assert(s.drop_last() =~= v@.subrange(start as int, e - 1));
        e = e - 1;
    }
    None
}

/// Parses a vault note's raw text into its title, summary and body: the
/// title comes from the frontmatter's non-empty `title`, else from the
/// note's file name; the summary from its `summary`; the body is what
/// follows the frontmatter, trimmed.
pub fn parse_obsidian_note(raw: &str, reference: &str) -> (res: ResolvedContent)
    ensures
        ({
            let fm = match note_parts(raw@) {
                Some((f, _)) => Some(f),
                None => None,
            };
            let body = match note_parts(raw@) {
                Some((_, b)) => b,
                None => raw@,
            };
            &&& res.title@ == match frontmatter_title(fm) {
                Some(t) => t,
                None => fallback_title(reference@),
            }
            &&& res.summary matches Some(s) ==> fm matches Some(f) && yaml_string_field(
                f,
                summary_key(),
            ) == Some(s@)
            &&& res.summary is None ==> (fm is None || yaml_string_field(fm.unwrap(), summary_key()) is None)
            &&& res.body@ == trimmed(body)
        }),
{
    let (fm, body) = split_frontmatter(raw);
    proof {
        reveal_strlit("title");
        reveal_strlit("summary");
        assert("title"@ =~= title_key());
        assert("summary"@ =~= summary_key());
    }
    let (title_field, summary) = match &fm {
        Some(text) => (
            yaml_string_field_of(text.as_str(), "title"),
            yaml_string_field_of(text.as_str(), "summary"),
        ),
        None => (None, None),
    };
    note_content(title_field, summary, body.as_str(), reference)
}

/// A note's resolved content from what its frontmatter says: the title is
/// `title_field` when non-empty, else the note's file name without its
/// extension; the summary is taken as given; the body is trimmed.
pub fn note_content(title_field: Option<String>, summary: Option<String>, body: &str, reference: &str) -> (res:
    ResolvedContent)
    ensures
        res.title@ == match title_field {
            Some(t) => if t@.len() > 0 {
                t@
            } else {
                fallback_title(reference@)
            },
            None => fallback_title(reference@),
        },
        res.summary == summary,
        res.body@ == trimmed(body@),
{
    let r = chars_of(reference);
    let rn = r.len();
    proof {
        assert(r@.subrange(0, rn as int) =~= r@);
    }
    let seg_start = match rfind_in(r.as_slice(), 0, rn, '/') {
        Some(i) => i + 1,
        None => 0,
    };
    proof {
        assert(last_segment(reference@) =~= r@.subrange(seg_start as int, rn as int));
    }
    let seg_end = match rfind_in(r.as_slice(), seg_start, rn, '.') {
        Some(i) => seg_start + i,
        None => rn,
    };
    proof {
        assert(fallback_title(reference@) =~= r@.subrange(seg_start as int, seg_end as int));
    }
    let title = match title_field {
        Some(t) => if !t.as_str().is_empty() {
            t
        } else {
            string_from_range(r.as_slice(), seg_start, seg_end)
        },
        None => string_from_range(r.as_slice(), seg_start, seg_end),
    };
    let bv = chars_of(body);
    let bn = bv.len();
    proof {
        assert(bv@.subrange(0, bn as int) =~= bv@);
    }
    ResolvedContent { title, summary, body: trim_range(bv.as_slice(), 0, bn) }
}

} // verus!
