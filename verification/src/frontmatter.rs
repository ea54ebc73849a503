//! `---`-delimited YAML frontmatter at the top of a vault note: removing
//! named top-level keys line by line, and splitting the block off a body.

use vstd::prelude::*;

use crate::text::{chars_of, extend_from_range, has_str_at, string_from_range};

verus! {

/// Index of the first `'\n'` in `s`, or `s.len()` when there is none.
pub open spec fn first_newline(s: Seq<char>) -> int
    decreases s.len(),
{
    if s.len() == 0 {
        0int
    } else if s[0] == '\n' {
        0
    } else {
        1 + first_newline(s.drop_first())
    }
}

/// `l` with every trailing `'\r'` and `'\n'` removed.
pub open spec fn trim_end_newlines(l: Seq<char>) -> Seq<char>
    decreases l.len(),
{
    if l.len() > 0 && (l.last() == '\r' || l.last() == '\n') {
        trim_end_newlines(l.drop_last())
    } else {
        l
    }
}

/// The three dashes of a frontmatter delimiter.
pub open spec fn dashes() -> Seq<char> {
    seq!['-', '-', '-']
}

/// A line (with its line ending) that closes the frontmatter block.
pub open spec fn is_delimiter_line(l: Seq<char>) -> bool {
    trim_end_newlines(l) == dashes()
}

/// Where the line starting at 0 ends, its `'\n'` included.
pub open spec fn line_end(s: Seq<char>) -> int {
    if first_newline(s) < s.len() {
        first_newline(s) + 1
    } else {
        s.len() as int
    }
}

/// The first delimiter line of `s`, as (start, end) offsets into `s`.
pub open spec fn closing_delimiter(s: Seq<char>) -> Option<(int, int)>
    decreases s.len(),
{
    if s.len() == 0 {
        None
    } else {
        proof {
            lemma_first_newline(s);
        }
        let e = line_end(s);
        if is_delimiter_line(s.take(e)) {
            Some((0, e))
        } else {
            match closing_delimiter(s.skip(e)) {
                Some((a, b)) => Some((a + e, b + e)),
                None => None,
            }
        }
    }
}

/// Characters a frontmatter key is made of.
pub open spec fn is_key_char(c: char) -> bool {
    ('a' <= c <= 'z') || ('A' <= c <= 'Z') || ('0' <= c <= '9') || c == '_' || c == '-'
}

/// The longest prefix of `line` made of key characters.
pub open spec fn key_prefix(line: Seq<char>) -> Seq<char>
    decreases line.len(),
{
    if line.len() > 0 && is_key_char(line[0]) {
        seq![line[0]] + key_prefix(line.drop_first())
    } else {
        Seq::empty()
    }
}

/// Whether `line` is a simple `key: value` line.
pub open spec fn is_key_line(line: Seq<char>) -> bool {
    let k = key_prefix(line);
    k.len() > 0 && k.len() < line.len() && line[k.len() as int] == ':'
}

/// Whether `line` is a `key: value` line whose key is one of `fields`.
pub open spec fn is_removed_line(line: Seq<char>, fields: Seq<Seq<char>>) -> bool {
    is_key_line(line) && fields.contains(key_prefix(line))
}

/// The first line of `s` as `str::lines` gives it: no `'\n'`, and no
/// `'\r'` right before that `'\n'`.
pub open spec fn first_line(s: Seq<char>) -> Seq<char> {
    let j = first_newline(s);
    if j < s.len() && j > 0 && s[j - 1] == '\r' {
        s.take(j - 1)
    } else {
        s.take(j)
    }
}

/// What follows the first line of `s` and its `'\n'`.
pub open spec fn after_first_line(s: Seq<char>) -> Seq<char> {
    if first_newline(s) < s.len() {
        s.skip(first_newline(s) + 1)
    } else {
        Seq::empty()
    }
}

/// The lines of a frontmatter block that survive, each followed by
/// `'\n'`, and the keys of the removed ones, in order.
pub open spec fn filter_block(s: Seq<char>, fields: Seq<Seq<char>>) -> (Seq<char>, Seq<Seq<char>>)
    decreases s.len(),
{
    if s.len() == 0 {
        (Seq::empty(), Seq::empty())
    } else {
        proof {
            lemma_first_newline(s);
        }
        let line = first_line(s);
        let (kept, removed) = filter_block(after_first_line(s), fields);
        if is_removed_line(line, fields) {
            (kept, seq![key_prefix(line)] + removed)
        } else {
            (line + seq!['\n'] + kept, removed)
        }
    }
}

/// The body of a note after its opening `---` line, if it has one.
pub open spec fn after_opening(raw: Seq<char>) -> Option<Seq<char>> {
    if raw.len() >= 4 && raw.take(4) == dashes().push('\n') {
        Some(raw.skip(4))
    } else if raw.len() >= 5 && raw.take(5) == dashes().push('\r').push('\n') {
        Some(raw.skip(5))
    } else {
        None
    }
}

/// A note with the named top-level frontmatter keys removed, and the
/// removed keys; a note without a closed frontmatter block is unchanged.
pub open spec fn stripped(raw: Seq<char>, fields: Seq<Seq<char>>) -> (Seq<char>, Seq<Seq<char>>) {
    match after_opening(raw) {
        None => (raw, Seq::empty()),
        Some(rest) => match closing_delimiter(rest) {
            None => (raw, Seq::empty()),
            Some((block_end, after)) => {
                let (kept, removed) = filter_block(rest.take(block_end), fields);
                (
                    dashes().push('\n') + kept + dashes().push('\n') + rest.skip(after),
                    removed,
                )
            },
        },
    }
}

pub proof fn lemma_first_newline(s: Seq<char>)
    ensures
        0 <= first_newline(s) <= s.len(),
        forall|k: int| 0 <= k < first_newline(s) ==> s[k] != '\n',
        first_newline(s) < s.len() ==> s[first_newline(s)] == '\n',
    decreases s.len(),
{
    if s.len() > 0 && s[0] != '\n' {
        lemma_first_newline(s.drop_first());
        assert forall|k: int| 0 <= k < first_newline(s) implies s[k] != '\n' by {
            if k > 0 {
                assert(s[k] == s.drop_first()[k - 1]);
            }
        }
    }
}

pub proof fn lemma_first_newline_at(s: Seq<char>, j: int)
    requires
        0 <= j <= s.len(),
        forall|k: int| 0 <= k < j ==> s[k] != '\n',
        j < s.len() ==> s[j] == '\n',
    ensures
        first_newline(s) == j,
    decreases s.len(),
{
    if s.len() > 0 && s[0] != '\n' {
        let t = s.drop_first();
        assert forall|k: int| 0 <= k < j - 1 implies t[k] != '\n' by {
            assert(t[k] == s[k + 1]);
        }
        if j - 1 < t.len() {
            assert(t[j - 1] == s[j]);
        }
        lemma_first_newline_at(t, j - 1);
    }
}

/// The index of the first `'\n'` in `v[start..end]`, or `end`.
fn find_newline(v: &[char], start: usize, end: usize) -> (j: usize)
    requires
        start <= end <= v@.len(),
    ensures
        start <= j <= end,
        j - start == first_newline(v@.subrange(start as int, end as int)),
{
    let mut j = start;
    while j < end && v[j] != '\n'
        invariant
            start <= j <= end <= v@.len(),
            forall|k: int| start <= k < j ==> v@[k] != '\n',
        decreases end - j,
    {
        j = j + 1;
    }
    proof {
        let s = v@.subrange(start as int, end as int);
        assert forall|k: int| 0 <= k < j - start implies s[k] != '\n' by {
            assert(s[k] == v@[start + k]);
        }
        lemma_first_newline_at(s, j - start);
    }
    j
}

proof fn lemma_trim_end_delim(l: Seq<char>)
    ensures
        trim_end_newlines(l) == dashes() <==> (l.len() >= 3 && l.take(3) == dashes() && forall|k: int|
            3 <= k < l.len() ==> (l[k] == '\r' || l[k] == '\n')),
    decreases l.len(),
{
    if l.len() > 0 && (l.last() == '\r' || l.last() == '\n') {
        let d = l.drop_last();
        lemma_trim_end_delim(d);
        if l.len() >= 4 {
            assert(l.take(3) =~= d.take(3));
            if forall|k: int| 3 <= k < d.len() ==> (d[k] == '\r' || d[k] == '\n') {
                assert forall|k: int| 3 <= k < l.len() implies (l[k] == '\r' || l[k] == '\n') by {
                    if k < d.len() {
                        assert(d[k] == l[k]);
                    }
                }
            }
            if forall|k: int| 3 <= k < l.len() ==> (l[k] == '\r' || l[k] == '\n') {
                assert forall|k: int| 3 <= k < d.len() implies (d[k] == '\r' || d[k] == '\n') by {
                    assert(d[k] == l[k]);
                }
            }
        } else if l.len() == 3 {
            if l.take(3) == dashes() {
                assert(l[2] == l.take(3)[2]);
                assert(l[2] == l.last());
            }
        }
    } else {
        if l.len() >= 3 && l.take(3) == dashes() && forall|k: int|
            3 <= k < l.len() ==> (l[k] == '\r' || l[k] == '\n') {
            if l.len() > 3 {
                assert(l[l.len() - 1] == l.last());
            }
            assert(l =~= l.take(3));
        }
        if l == dashes() {
            assert(l.take(3) =~= l);
        }
    }
}

/// Whether `v[start..end]` is a delimiter line.
fn is_delimiter_range(v: &[char], start: usize, end: usize) -> (res: bool)
    requires
        start <= end <= v@.len(),
    ensures
        res == is_delimiter_line(v@.subrange(start as int, end as int)),
{
    let ghost l = v@.subrange(start as int, end as int);
    proof {
        lemma_trim_end_delim(l);
    }
    if end - start < 3 {
        return false;
    }
    if !has_str_at(v, start, "---") {
        proof {
            reveal_strlit("---");
            assert(l.take(3) != dashes()) by {
                if l.take(3) == dashes() {
                    assert(v@.subrange(start as int, start + 3) =~= l.take(3));
                    assert("---"@ =~= dashes());
                }
            }
        }
        return false;
    }
    proof {
        reveal_strlit("---");
        assert(l.take(3) =~= v@.subrange(start as int, start + 3));
        assert("---"@ =~= dashes());
    }
    let mut k = start + 3;
    while k < end
        invariant
            start + 3 <= k <= end <= v@.len(),
            l == v@.subrange(start as int, end as int),
            l.take(3) == dashes(),
            forall|i: int| 3 <= i < k - start ==> (l[i] == '\r' || l[i] == '\n'),
        decreases end - k,
    {
        if v[k] != '\r' && v[k] != '\n' {
            assert(l[k - start] == v@[k as int]);
            proof {
                lemma_trim_end_delim(l);
            }
            return false;
        }
        assert(l[k - start] == v@[k as int]);
        k = k + 1;
    }
    proof {
        lemma_trim_end_delim(l);
    }
    true
}

proof fn lemma_subrange_skip(v: Seq<char>, a: int, b: int, k: int)
    requires
        0 <= a <= b <= v.len(),
        0 <= k <= b - a,
    ensures
        v.subrange(a, b).skip(k) == v.subrange(a + k, b),
        v.subrange(a, b).take(k) == v.subrange(a, a + k),
{
    assert(v.subrange(a, b).skip(k) =~= v.subrange(a + k, b));
    assert(v.subrange(a, b).take(k) =~= v.subrange(a, a + k));
}

/// The first delimiter line in `v[start..end]`, as absolute offsets.
fn find_closing(v: &[char], start: usize, end: usize) -> (res: Option<(usize, usize)>)
    requires
        start <= end <= v@.len(),
    ensures
        match closing_delimiter(v@.subrange(start as int, end as int)) {
            None => res is None,
            Some((a, b)) => res == Some(((start + a) as usize, (start + b) as usize)),
        },
{
    let mut o = start;
    while o < end
        invariant
            start <= o <= end <= v@.len(),
            closing_delimiter(v@.subrange(start as int, end as int)) == match closing_delimiter(
                v@.subrange(o as int, end as int),
            ) {
                Some((a, b)) => Some((a + (o - start), b + (o - start))),
                None => None,
            },
        decreases end - o,
    {
        let j = find_newline(v, o, end);
        let e = if j < end {
            j + 1
        } else {
            j
        };
        let ghost s = v@.subrange(o as int, end as int);
        proof {
            lemma_first_newline(s);
            assert(line_end(s) == e - o);
            lemma_subrange_skip(v@, o as int, end as int, e - o);
        }
        if is_delimiter_range(v, o, e) {
            return Some((o, e));
        }
        o = e;
    }
    None
}

proof fn lemma_key_prefix(line: Seq<char>)
    ensures
        key_prefix(line).len() <= line.len(),
        key_prefix(line) == line.take(key_prefix(line).len() as int),
        forall|k: int| 0 <= k < key_prefix(line).len() ==> is_key_char(line[k]),
        key_prefix(line).len() < line.len() ==> !is_key_char(line[key_prefix(line).len() as int]),
    decreases line.len(),
{
    if line.len() > 0 && is_key_char(line[0]) {
        let t = line.drop_first();
        lemma_key_prefix(t);
        assert(key_prefix(line) =~= line.take(key_prefix(line).len() as int));
        assert forall|k: int| 0 <= k < key_prefix(line).len() implies is_key_char(line[k]) by {
            if k > 0 {
                assert(line[k] == t[k - 1]);
            }
        }
        if key_prefix(line).len() < line.len() {
            assert(line[key_prefix(line).len() as int] == t[key_prefix(t).len() as int]);
        }
    }
}

fn is_key_char_exec(c: char) -> (res: bool)
    ensures
        res == is_key_char(c),
{
    ('a' <= c && c <= 'z') || ('A' <= c && c <= 'Z') || ('0' <= c && c <= '9') || c == '_' || c
        == '-'
}

/// Length of the key prefix of `v[start..end]`.
fn key_len(v: &[char], start: usize, end: usize) -> (n: usize)
    requires
        start <= end <= v@.len(),
    ensures
        n == key_prefix(v@.subrange(start as int, end as int)).len(),
        start + n <= end,
{
    let ghost l = v@.subrange(start as int, end as int);
    let mut k = start;
    while k < end && is_key_char_exec(v[k])
        invariant
            start <= k <= end <= v@.len(),
            l == v@.subrange(start as int, end as int),
            forall|i: int| start <= i < k ==> is_key_char(v@[i]),
        decreases end - k,
    {
        k = k + 1;
    }
    proof {
        lemma_key_prefix(l);
        let kp = key_prefix(l);
        // the key prefix is the maximal run of key characters
        if kp.len() < k - start {
            assert(l[kp.len() as int] == v@[start + kp.len()]);
        }
        if kp.len() > k - start {
            assert(l[k - start] == v@[k as int]);
            assert(l[k - start] == kp[k - start]);
        }
    }
    k - start
}

/// Whether the characters `v[start..end]` are one of `fields`.
fn is_one_of(v: &[char], start: usize, end: usize, fields: &[&str]) -> (res: bool)
    requires
        start <= end <= v@.len(),
    ensures
        res == fields@.map_values(|f: &str| f@).contains(v@.subrange(start as int, end as int)),
{
    let ghost fs = fields@.map_values(|f: &str| f@);
    let mut i: usize = 0;
    while i < fields.len()
        invariant
            i <= fields@.len(),
            start <= end <= v@.len(),
            fs == fields@.map_values(|f: &str| f@),
            forall|k: int| 0 <= k < i ==> fs[k] != v@.subrange(start as int, end as int),
        decreases fields@.len() - i,
    {
        if range_eq_field(v, start, end, fields[i]) {
            assert(fs[i as int] == fields@[i as int]@);
            return true;
        }
        assert(fs[i as int] == fields@[i as int]@);
        i = i + 1;
    }
    false
}

fn range_eq_field(v: &[char], start: usize, end: usize, f: &str) -> (res: bool)
    requires
        start <= end <= v@.len(),
    ensures
        res == (v@.subrange(start as int, end as int) == f@),
{
    crate::text::range_eq_str(v, start, end, f)
}

/// Removes the top-level keys named in `fields` from a note's leading
/// `---` frontmatter block by filtering lines, not re-serializing the
/// YAML: every other line survives exactly (a `'\r'` before a line's
/// `'\n'` aside). Only simple `key: value` lines are recognised. Returns
/// the new text and the removed keys in order; a note without a closed
/// frontmatter block comes back unchanged with nothing removed.
pub fn strip_frontmatter_fields(raw: &str, fields: &[&str]) -> (res: (String, Vec<String>))
    ensures
        res.0@ == stripped(raw@, fields@.map_values(|f: &str| f@)).0,
        res.1@.map_values(|s: String| s@) == stripped(raw@, fields@.map_values(|f: &str| f@)).1,
{
    let ghost fs = fields@.map_values(|f: &str| f@);
    let v = chars_of(raw);
    let n = v.len();
    let p: usize;
    proof {
        reveal_strlit("---\n");
        reveal_strlit("---\r\n");
    }
    if has_str_at(v.as_slice(), 0, "---\n") {
        proof {
            assert(v@.subrange(0, 4) =~= v@.take(4));
            assert("---\n"@ =~= dashes().push('\n'));
        }
        p = 4;
    } else if has_str_at(v.as_slice(), 0, "---\r\n") {
        proof {
            assert(v@.subrange(0, 5) =~= v@.take(5));
            assert("---\r\n"@ =~= dashes().push('\r').push('\n'));
            assert(!(v@.len() >= 4 && v@.take(4) == dashes().push('\n'))) by {
                if v@.len() >= 4 && v@.take(4) == dashes().push('\n') {
                    assert(v@.take(4)[3] == v@.take(5)[3]);
                }
            }
        }
        p = 5;
    } else {
        proof {
            if v@.len() >= 4 && v@.take(4) == dashes().push('\n') {
                assert(v@.subrange(0, 4) =~= v@.take(4));
                assert("---\n"@ =~= dashes().push('\n'));
            }
            if v@.len() >= 5 && v@.take(5) == dashes().push('\r').push('\n') {
                assert(v@.subrange(0, 5) =~= v@.take(5));
                assert("---\r\n"@ =~= dashes().push('\r').push('\n'));
            }
        }
        return (raw.to_owned(), Vec::new());
    }
    let ghost rest = v@.skip(p as int);
    assert(rest == v@.subrange(p as int, n as int));
    let close = find_closing(v.as_slice(), p, n);
    let (block_end, after) = match close {
        None => {
            return (raw.to_owned(), Vec::new());
        },
        Some(c) => c,
    };
    proof {
        lemma_closing_bounds(rest);
        let (a, b) = closing_delimiter(rest).unwrap();
        assert(block_end == p + a && after == p + b);
        lemma_subrange_skip(v@, p as int, n as int, b);
        lemma_subrange_skip(v@, p as int, n as int, a);
    }
    let mut out: Vec<char> = Vec::new();
    out.push('-');
    out.push('-');
    out.push('-');
    out.push('\n');
    assert(out@ =~= dashes().push('\n'));
    let mut removed: Vec<String> = Vec::new();
    let mut pos = p;
    let ghost prefix = out@;
    while pos < block_end
        invariant
            p <= pos <= block_end <= after <= n == v@.len(),
            prefix == dashes().push('\n'),
            fs == fields@.map_values(|f: &str| f@),
            ({
                let (k, r) = filter_block(v@.subrange(pos as int, block_end as int), fs);
                let whole = filter_block(v@.subrange(p as int, block_end as int), fs);
                &&& prefix + whole.0 == out@ + k
                &&& whole.1 == removed@.map_values(|s: String| s@) + r
            }),
        decreases block_end - pos,
    {
        let ghost s = v@.subrange(pos as int, block_end as int);
        let j = find_newline(v.as_slice(), pos, block_end);
        proof {
            lemma_first_newline(s);
        }
        // the line as `str::lines` yields it
        let line_end_idx = if j < block_end && j > pos && v[j - 1] == '\r' {
            j - 1
        } else {
            j
        };
        let ghost line = first_line(s);
        proof {
            if j < block_end && j > pos && v@[j - 1] == '\r' {
                assert(s[j - pos - 1] == v@[j - 1]);
            } else if j < block_end && j > pos {
                assert(s[j - pos - 1] == v@[j - 1]);
            }
            lemma_subrange_skip(v@, pos as int, block_end as int, line_end_idx - pos);
            assert(line == v@.subrange(pos as int, line_end_idx as int));
        }
        let next = if j < block_end {
            j + 1
        } else {
            block_end
        };
        proof {
            if j < block_end {
                lemma_subrange_skip(v@, pos as int, block_end as int, j + 1 - pos);
            } else {
                assert(v@.subrange(next as int, block_end as int) =~= Seq::<char>::empty());
            }
            assert(after_first_line(s) == v@.subrange(next as int, block_end as int));
        }
        let klen = key_len(v.as_slice(), pos, line_end_idx);
        let is_key = klen > 0 && klen < line_end_idx - pos && v[pos + klen] == ':';
        proof {
            lemma_key_prefix(line);
            assert(is_key == is_key_line(line)) by {
                if klen > 0 && klen < line_end_idx - pos {
                    assert(line[klen as int] == v@[pos + klen]);
                }
            }
            lemma_subrange_skip(v@, pos as int, line_end_idx as int, klen as int);
            assert(key_prefix(line) == v@.subrange(pos as int, pos + klen));
        }
        let ghost old_out = out@;
        let ghost old_removed = removed@.map_values(|s: String| s@);
        if is_key && is_one_of(v.as_slice(), pos, pos + klen, fields) {
            let key = string_from_range(v.as_slice(), pos, pos + klen);
            removed.push(key);
            proof {
                assert(removed@.map_values(|s: String| s@) =~= old_removed.push(key_prefix(line)));
                assert(old_removed.push(key_prefix(line)) + filter_block(after_first_line(s), fs).1
                    =~= old_removed + (seq![key_prefix(line)] + filter_block(
                    after_first_line(s),
                    fs,
                ).1));
            }
        } else {
            extend_from_range(&mut out, v.as_slice(), pos, line_end_idx);
            out.push('\n');
            proof {
                assert(out@ =~= old_out + line + seq!['\n']);
                assert(old_out + (line + seq!['\n'] + filter_block(after_first_line(s), fs).0)
                    =~= out@ + filter_block(after_first_line(s), fs).0);
            }
        }
        pos = next;
    }
    proof {
        assert(v@.subrange(pos as int, block_end as int) =~= Seq::<char>::empty());
        assert(out@ + Seq::<char>::empty() =~= out@);
        assert(removed@.map_values(|s: String| s@) + Seq::<Seq<char>>::empty() =~= removed@.map_values(
            |s: String| s@,
        ));
    }
    out.push('-');
    out.push('-');
    out.push('-');
    out.push('\n');
    let ghost mid = out@;
    extend_from_range(&mut out, v.as_slice(), after, n);
    proof {
        let whole = filter_block(v@.subrange(p as int, block_end as int), fs);
        assert(out@ =~= dashes().push('\n') + whole.0 + dashes().push('\n') + rest.skip(
            (after - p) as int,
        ));
    }
    (crate::text::string_from_chars(out.as_slice()), removed)
}

pub proof fn lemma_closing_bounds(s: Seq<char>)
    ensures
        match closing_delimiter(s) {
            Some((a, b)) => 0 <= a <= b <= s.len(),
            None => true,
        },
    decreases s.len(),
{
    if s.len() > 0 {
        lemma_first_newline(s);
        let e = line_end(s);
        if !is_delimiter_line(s.take(e)) {
            lemma_closing_bounds(s.skip(e));
        }
    }
}


/// The index of the first `'\n'` in `v[start..end]`, or `end`.
pub fn find_newline_in(v: &[char], start: usize, end: usize) -> (j: usize)
    requires
        start <= end <= v@.len(),
    ensures
        start <= j <= end,
        j - start == first_newline(v@.subrange(start as int, end as int)),
{
    find_newline(v, start, end)
}

/// Whether `v[start..end]` is a delimiter line.
pub fn is_delimiter_in(v: &[char], start: usize, end: usize) -> (res: bool)
    requires
        start <= end <= v@.len(),
    ensures
        res == is_delimiter_line(v@.subrange(start as int, end as int)),
{
    is_delimiter_range(v, start, end)
}

/// The first delimiter line in `v[start..end]`, as absolute offsets.
pub fn find_closing_in(v: &[char], start: usize, end: usize) -> (res: Option<(usize, usize)>)
    requires
        start <= end <= v@.len(),
    ensures
        match closing_delimiter(v@.subrange(start as int, end as int)) {
            None => res is None,
            Some((a, b)) => res == Some(((start + a) as usize, (start + b) as usize)),
        },
{
    find_closing(v, start, end)
}

} // verus!
