//! Names of files a server reads and writes: which image types it takes,
//! the MIME type it serves a file with, and the names it picks.

use vstd::prelude::*;

use crate::slug::{to_lowercase, unicode_lowercase};
use crate::text::{chars_of, find, find_in, range_eq_str, string_from_chars};

verus! {

/// The extension an uploaded image is stored under, for the (already
/// lower-cased) extension it was sent with: `png`, `jpg`, or `jpeg` as `jpg`.
pub open spec fn upload_extension(ext: Seq<char>) -> Option<Seq<char>> {
    if ext == "png"@ {
        Some("png"@)
    } else if ext == "jpg"@ || ext == "jpeg"@ {
        Some("jpg"@)
    } else {
        None
    }
}

fn str_eq(a: &str, b: &str) -> (res: bool)
    ensures
        res == (a@ == b@),
{
    let x = chars_of(a);
    let y = chars_of(b);
    crate::text::chars_eq(x.as_slice(), y.as_slice())
}

/// The extension an uploaded image is stored under; `None` for a type
/// that is not taken.
pub fn upload_ext(ext: &str) -> (res: Option<&'static str>)
    ensures
        match upload_extension(ext@) {
            Some(e) => res matches Some(r) && r@ == e,
            None => res is None,
        },
{
    if str_eq(ext, "png") {
        Some("png")
    } else if str_eq(ext, "jpg") {
        Some("jpg")
    } else if str_eq(ext, "jpeg") {
        Some("jpg")
    } else {
        None
    }
}

/// The segments of a `/`-separated path that name something: neither
/// empty nor `.`.
pub open spec fn named_segments(path: Seq<char>) -> Seq<Seq<char>> {
    crate::icons::split_on(path, seq!['/']).filter(|s: Seq<char>| s.len() > 0 && s != seq!['.'])
}

/// `Path::file_name` on Unix: the last named segment, unless that is `..`.
pub open spec fn file_name_of(path: Seq<char>) -> Option<Seq<char>> {
    let segs = named_segments(path);
    if segs.len() == 0 || segs.last() == seq!['.', '.'] {
        None
    } else {
        Some(segs.last())
    }
}

/// `Path::extension` on Unix: what follows the last `.` of the file name,
/// unless that dot starts the name.
pub open spec fn extension_of(path: Seq<char>) -> Option<Seq<char>> {
    match file_name_of(path) {
        None => None,
        Some(name) => match crate::content::last_index_of(name, '.') {
            Some(i) => if i > 0 {
                Some(name.skip(i + 1))
            } else {
                None
            },
            None => None,
        },
    }
}

/// The MIME type for a file extension (lower-cased).
pub open spec fn mime_of_extension(ext: Option<Seq<char>>) -> Seq<char> {
    match ext {
        Some(e) => if e == "png"@ {
            "image/png"@
        } else if e == "jpg"@ || e == "jpeg"@ {
            "image/jpeg"@
        } else if e == "gif"@ {
            "image/gif"@
        } else if e == "webp"@ {
            "image/webp"@
        } else if e == "svg"@ {
            "image/svg+xml"@
        } else {
            "application/octet-stream"@
        },
        None => "application/octet-stream"@,
    }
}

/// The last named segment of `v`, as a range, with the named segments.
fn last_named_segment(v: &[char]) -> (res: Option<(usize, usize)>)
    ensures
        ({
            let segs = named_segments(v@);
            match res {
                Some((a, b)) => segs.len() > 0 && a <= b <= v@.len() && v@.subrange(a as int, b as int)
                    == segs.last(),
                None => segs.len() == 0,
            }
        }),
{
    let n = v.len();
    let ghost pred = |s: Seq<char>| s.len() > 0 && s != seq!['.'];
    let ghost pieces = crate::icons::split_on(v@, seq!['/']);
    // walk the segments left to right, keeping the last named one
    let mut slash: Vec<char> = Vec::new();
    slash.push('/');
    proof {
        assert(slash@ =~= seq!['/']);
    }
    let ranges = crate::icons::split_ranges(v, slash.as_slice());
    let mut best: Option<(usize, usize)> = None;
    let mut k: usize = 0;
    while k < ranges.len()
        invariant
            k <= ranges@.len(),
            pieces == crate::icons::split_on(v@, seq!['/']),
            slash@ == seq!['/'],
            ranges@.len() == pieces.len(),
            pred == (|s: Seq<char>| s.len() > 0 && s != seq!['.']),
            forall|j: int|
                0 <= j < ranges@.len() ==> {
                    let (a, b) = #[trigger] ranges@[j];
                    a <= b <= v@.len() && v@.subrange(a as int, b as int) == pieces[j]
                },
            match best {
                Some((a, b)) => pieces.take(k as int).filter(pred).len() > 0 && a <= b <= v@.len()
                    && v@.subrange(a as int, b as int) == pieces.take(k as int).filter(pred).last(),
                None => pieces.take(k as int).filter(pred).len() == 0,
            },
        decreases ranges@.len() - k,
    {
        let (a, b) = ranges[k];
        proof {
            assert(pieces.take(k + 1) =~= pieces.take(k as int).push(pieces[k as int]));
            pieces.take(k as int).lemma_filter_push(pieces[k as int], pred);
        }
        let is_dot = b - a == 1 && v[a] == '.';
        proof {
            if b - a == 1 {
                assert(pieces[k as int][0] == v@[a as int]);
                if v@[a as int] == '.' {
                    assert(pieces[k as int] =~= seq!['.']);
                }
            }
        }
        if b > a && !is_dot {
            best = Some((a, b));
        }
        k = k + 1;
    }
    proof {
        assert(pieces.take(ranges@.len() as int) =~= pieces);
    }
    best
}

/// The MIME type a file is served with, by its extension
/// (case-insensitively).
pub fn mime_for(path: &str) -> (res: &'static str)
    ensures
        res@ == mime_of_extension(
            match extension_of(path@) {
                Some(e) => Some(unicode_lowercase(e)),
                None => None,
            },
        ),
{
    proof {
        reveal_strlit("..");
    }
    let v = chars_of(path);
    let ext: Option<String> = match last_named_segment(v.as_slice()) {
        None => None,
        Some((a, b)) => {
            if b - a == 2 && v[a] == '.' && v[a + 1] == '.' {
                proof {
                    assert(v@.subrange(a as int, b as int) =~= seq!['.', '.']);
                }
                None
            } else {
                proof {
                    if v@.subrange(a as int, b as int) == seq!['.', '.'] {
                        assert(v@.subrange(a as int, b as int)[0] == v@[a as int]);
                        assert(v@.subrange(a as int, b as int)[1] == v@[a + 1]);
                    }
                }
                let mut d = b;
                while d > a && v[d - 1] != '.'
                    invariant
                        a <= d <= b <= v@.len(),
                        crate::content::last_index_of(v@.subrange(a as int, b as int), '.')
                            == crate::content::last_index_of(v@.subrange(a as int, d as int), '.'),
                    decreases d - a,
                {
                    proof {
                        assert(v@.subrange(a as int, d as int).drop_last() =~= v@.subrange(
                            a as int,
                            d - 1,
                        ));
                    }
                    d = d - 1;
                }
                proof {
                    if d == a {
                        assert(v@.subrange(a as int, d as int) =~= Seq::<char>::empty());
                    } else {
                        assert(v@.subrange(a as int, d as int).last() == v@[d - 1]);
                    }
                }
                if d > a + 1 {
                    proof {
                        assert(v@.subrange(a as int, b as int).skip(d - a) =~= v@.subrange(
                            d as int,
                            b as int,
                        ));
                    }
                    let e = crate::text::string_from_range(v.as_slice(), d, b);
                    Some(to_lowercase(e.as_str()))
                } else {
                    None
                }
            }
        },
    };
    match ext {
        None => "application/octet-stream",
        Some(e) => {
            proof {
                reveal_strlit("png");
                reveal_strlit("jpg");
                reveal_strlit("jpeg");
                reveal_strlit("gif");
                reveal_strlit("webp");
                reveal_strlit("svg");
            }
            if str_eq(e.as_str(), "png") {
                "image/png"
            } else if str_eq(e.as_str(), "jpg") || str_eq(e.as_str(), "jpeg") {
                "image/jpeg"
            } else if str_eq(e.as_str(), "gif") {
                "image/gif"
            } else if str_eq(e.as_str(), "webp") {
                "image/webp"
            } else if str_eq(e.as_str(), "svg") {
                "image/svg+xml"
            } else {
                "application/octet-stream"
            }
        },
    }
}

/// Characters kept in a stored file name.
pub open spec fn is_filename_char(c: char) -> bool {
    ('a' <= c <= 'z') || ('A' <= c <= 'Z') || ('0' <= c <= '9') || c == '_' || c == '-'
}

/// A Location id as a file name: every other character becomes `-`.
pub fn sanitize_filename(id: &str) -> (res: String)
    ensures
        res@ == id@.map_values(|c: char| if is_filename_char(c) { c } else { '-' }),
{
    let v = chars_of(id);
    let mut out: Vec<char> = Vec::new();
    let mut i: usize = 0;
    while i < v.len()
        invariant
            i <= v@.len(),
            out@ == v@.take(i as int).map_values(|c: char| if is_filename_char(c) { c } else { '-' }),
        decreases v@.len() - i,
    {
        let c = v[i];
        let keep = ('a' <= c && c <= 'z') || ('A' <= c && c <= 'Z') || ('0' <= c && c <= '9') || c
            == '_' || c == '-';
        out.push(if keep { c } else { '-' });
        proof {
            assert(out@ =~= v@.take(i + 1).map_values(
                |c: char| if is_filename_char(c) { c } else { '-' },
            ));
        }
        i = i + 1;
    }
    proof {
        assert(v@.take(v@.len() as int) =~= v@);
    }
    string_from_chars(out.as_slice())
}

/// `char::to_ascii_lowercase`.
pub open spec fn ascii_lower(c: char) -> char {
    if 'A' <= c <= 'Z' {
        ((c as u8) + 32) as char
    } else {
        c
    }
}

/// The image type of a picked file: by its MIME type, or failing that
/// by its name's ending (case-insensitively); `None` for anything but PNG
/// and JPEG.
pub open spec fn picked_image_extension(mime: Seq<char>, name: Seq<char>) -> Option<Seq<char>> {
    let lower = name.map_values(|c: char| ascii_lower(c));
    if mime == "image/png"@ {
        Some("png"@)
    } else if mime == "image/jpeg"@ {
        Some("jpeg"@)
    } else if ".png"@.is_suffix_of(lower) {
        Some("png"@)
    } else if ".jpg"@.is_suffix_of(lower) || ".jpeg"@.is_suffix_of(lower) {
        Some("jpeg"@)
    } else {
        None
    }
}

fn ends_with_str(v: &[char], s: &str) -> (res: bool)
    ensures
        res == s@.is_suffix_of(v@),
{
    let t = chars_of(s);
    if t.len() > v.len() {
        return false;
    }
    let r = range_eq_str(v, v.len() - t.len(), v.len(), s);
    proof {
        if s@.is_suffix_of(v@) {
            assert(v@.subrange(v@.len() - s@.len(), v@.len() as int) =~= s@);
        }
        if r {
            assert forall|k: int| 0 <= k < s@.len() implies s@[k] == v@[v@.len() - s@.len() + k] by {
                assert(v@.subrange(v@.len() - s@.len(), v@.len() as int)[k] == v@[v@.len()
                    - s@.len() + k]);
            }
        }
    }
    r
}

/// The extension a picked image file is uploaded with.
pub fn image_extension(mime: &str, name: &str) -> (res: Option<&'static str>)
    ensures
        match picked_image_extension(mime@, name@) {
            Some(e) => res matches Some(r) && r@ == e,
            None => res is None,
        },
{
    if str_eq(mime, "image/png") {
        return Some("png");
    }
    if str_eq(mime, "image/jpeg") {
        return Some("jpeg");
    }
    let v = chars_of(name);
    let mut lower: Vec<char> = Vec::new();
    let mut i: usize = 0;
    while i < v.len()
        invariant
            i <= v@.len(),
            lower@ == v@.take(i as int).map_values(|c: char| ascii_lower(c)),
        decreases v@.len() - i,
    {
        let c = v[i];
        let l = if 'A' <= c && c <= 'Z' {
            ((c as u8) + 32) as char
        } else {
            c
        };
        lower.push(l);
        proof {
            assert(lower@ =~= v@.take(i + 1).map_values(|c: char| ascii_lower(c)));
        }
        i = i + 1;
    }
    proof {
        assert(v@.take(v@.len() as int) =~= v@);
    }
    if ends_with_str(lower.as_slice(), ".png") {
        Some("png")
    } else if ends_with_str(lower.as_slice(), ".jpg") || ends_with_str(lower.as_slice(), ".jpeg") {
        Some("jpeg")
    } else {
        None
    }
}

/// Folders of a vault that hold assets, not notes: underscore- or
/// dot-prefixed, and `node_modules`.
pub fn is_hidden_dir(name: &str) -> (res: bool)
    ensures
        res == ((name@.len() > 0 && (name@[0] == '_' || name@[0] == '.')) || name@
            == "node_modules"@),
{
    let v = chars_of(name);
    (v.len() > 0 && (v[0] == '_' || v[0] == '.')) || str_eq(name, "node_modules")
}

/// The old `type:`-discriminated project dialect writes one of these.
pub open spec fn looks_like_old_dialect(text: Seq<char>) -> bool {
    find(text, "type: inline"@) is Some || find(text, "type: obsidian"@) is Some || find(
        text,
        "type: hex"@,
    ) is Some || find(text, "type: square"@) is Some
}

pub open spec fn old_dialect_hint() -> Seq<char> {
    " — this looks like the old \"type:\"-style project format; convert it with `bun scripts/migrate-project-to-wire-format.ts`"@
}

fn contains_str(v: &[char], s: &str) -> (res: bool)
    ensures
        res == (find(v@, s@) is Some),
{
    let t = chars_of(s);
    proof {
        assert(v@.subrange(0, v@.len() as int) =~= v@);
    }
    find_in(v, 0, v.len(), t.as_slice()).is_some()
}

/// What to add to a parse error's message: how to convert a project
/// written in the old dialect, or nothing.
pub fn parse_error_hint(text: &str) -> (res: &'static str)
    ensures
        res@ == if looks_like_old_dialect(text@) {
            old_dialect_hint()
        } else {
            ""@
        },
{
    let v = chars_of(text);
    if contains_str(v.as_slice(), "type: inline") || contains_str(v.as_slice(), "type: obsidian")
        || contains_str(v.as_slice(), "type: hex") || contains_str(v.as_slice(), "type: square") {
        " — this looks like the old \"type:\"-style project format; convert it with `bun scripts/migrate-project-to-wire-format.ts`"
    } else {
        ""
    }
}

} // verus!
