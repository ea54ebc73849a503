//! The generated link-icon table: turning a game-icons.net source SVG
//! into a tintable icon, rendering one table entry, and splicing a new
//! table body into the existing file.

use vstd::prelude::*;

use crate::text::{
    chars_of, extend_from_range, extend_from_str, find, find_in, lemma_find_from, string_from_chars,
};
use crate::ordering::{insert_by, lex_le, lex_le_str, sort_by};
use crate::urls::{decimal, push_decimal};

verus! {

/// The icon table's category, in table order.
#[derive(Clone, Copy, Debug, PartialEq, Eq, Structural)]
pub enum Category {
    Settlement,
    Landmark,
    Ruin,
    Hazard,
    Waypoint,
}

/// Whose icon set an icon comes from.
#[derive(Clone, Copy, Debug, PartialEq, Eq, Structural)]
pub enum Author {
    Delapouite,
    Lorc,
}

/// One icon of the table: its id, label, category and author.
#[derive(Clone, Copy, Debug, PartialEq, Eq)]
pub struct IconSource {
    pub slug: &'static str,
    pub label: &'static str,
    pub category: Category,
    pub author: Author,
}

pub open spec fn author_dir(a: Author) -> Seq<char> {
    match a {
        Author::Delapouite => "delapouite"@,
        Author::Lorc => "lorc"@,
    }
}

impl Author {
    /// The author's directory in the icon repository.
    pub fn dir(self) -> (res: &'static str)
        ensures
            res@ == author_dir(self),
    {
        match self {
            Author::Delapouite => "delapouite",
            Author::Lorc => "lorc",
        }
    }

    /// The variant's name as the table writes it.
    pub fn name(self) -> (res: &'static str)
        ensures
            res@ == author_name(self),
    {
        match self {
            Author::Delapouite => "Delapouite",
            Author::Lorc => "Lorc",
        }
    }
}

pub open spec fn author_name(a: Author) -> Seq<char> {
    match a {
        Author::Delapouite => "Delapouite"@,
        Author::Lorc => "Lorc"@,
    }
}

pub open spec fn category_name(c: Category) -> Seq<char> {
    match c {
        Category::Settlement => "Settlement"@,
        Category::Landmark => "Landmark"@,
        Category::Ruin => "Ruin"@,
        Category::Hazard => "Hazard"@,
        Category::Waypoint => "Waypoint"@,
    }
}

/// A category's place in table order.
pub open spec fn category_rank(c: Category) -> int {
    match c {
        Category::Settlement => 0,
        Category::Landmark => 1,
        Category::Ruin => 2,
        Category::Hazard => 3,
        Category::Waypoint => 4,
    }
}

impl Category {
    /// The variant's name as the table writes it.
    pub fn name(self) -> (res: &'static str)
        ensures
            res@ == category_name(self),
    {
        match self {
            Category::Settlement => "Settlement",
            Category::Landmark => "Landmark",
            Category::Ruin => "Ruin",
            Category::Hazard => "Hazard",
            Category::Waypoint => "Waypoint",
        }
    }

    /// The category's place in table order.
    pub fn rank(self) -> (res: u8)
        ensures
            res == category_rank(self),
    {
        match self {
            Category::Settlement => 0,
            Category::Landmark => 1,
            Category::Ruin => 2,
            Category::Hazard => 3,
            Category::Waypoint => 4,
        }
    }
}

/// An icon source.
pub fn src(slug: &'static str, label: &'static str, category: Category, author: Author) -> (res:
    IconSource)
    ensures
        res == (IconSource { slug, label, category, author }),
{
    IconSource { slug, label, category, author }
}

/// `s` cut at each occurrence of `pat`, left to right.
pub open spec fn split_on(s: Seq<char>, pat: Seq<char>) -> Seq<Seq<char>>
    decreases s.len(),
{
    if pat.len() == 0 {
        seq![s]
    } else {
        proof {
            lemma_find_from(s, pat, 0);
        }
        match find(s, pat) {
            Some(i) => seq![s.take(i)] + split_on(s.skip(i + pat.len()), pat),
            None => seq![s],
        }
    }
}

/// `p` up to the first `pat`, or all of it.
pub open spec fn before_first(p: Seq<char>, pat: Seq<char>) -> Seq<char> {
    match find(p, pat) {
        Some(i) => p.take(i),
        None => p,
    }
}

/// `s` with its first `old` replaced by `new`.
pub open spec fn replaced_once(s: Seq<char>, old: Seq<char>, new: Seq<char>) -> Seq<char> {
    match find(s, old) {
        Some(i) => s.take(i) + new + s.skip(i + old.len()),
        None => s,
    }
}

/// The attributes of each `<path .../>` element of an SVG, in order.
pub open spec fn path_bodies(raw: Seq<char>) -> Seq<Seq<char>> {
    split_on(raw, "<path"@).drop_first().map_values(|p: Seq<char>| before_first(p, "/>"@))
}

/// The tintable icon made of a source SVG's second `<path>`.
pub open spec fn icon_from(body: Seq<char>) -> Seq<char> {
    "<svg xmlns=\"http://www.w3.org/2000/svg\" viewBox=\"0 0 512 512\"><path"@ + replaced_once(
        body,
        "fill=\"#fff\""@,
        "fill=\"currentColor\""@,
    ) + "/></svg>"@
}

pub open spec fn shape_error(slug: Seq<char>, paths: nat) -> Seq<char> {
    "Unexpected SVG shape for "@ + slug + " (expected 2 <path> elements, got "@ + decimal(paths)
        + ")"@
}

proof fn lemma_split_step(s: Seq<char>, pat: Seq<char>, i: int)
    requires
        pat.len() > 0,
        find(s, pat) == Some(i),
    ensures
        split_on(s, pat) == seq![s.take(i)] + split_on(s.skip(i + pat.len()), pat),
        0 <= i && i + pat.len() <= s.len(),
{
    lemma_find_from(s, pat, 0);
}

/// Positions of the pieces of `v` cut at each `pat`.
pub(crate) fn split_ranges(v: &[char], pat: &[char]) -> (res: Vec<(usize, usize)>)
    requires
        pat@.len() > 0,
    ensures
        res@.len() == split_on(v@, pat@).len(),
        forall|k: int|
            0 <= k < res@.len() ==> {
                let (a, b) = #[trigger] res@[k];
                a <= b <= v@.len() && v@.subrange(a as int, b as int) == split_on(v@, pat@)[k]
            },
{
    let n = v.len();
    let mut out: Vec<(usize, usize)> = Vec::new();
    let mut pos: usize = 0;
    let ghost whole = split_on(v@, pat@);
    let ghost mut done: Seq<Seq<char>> = Seq::empty();
    proof {
        assert(v@.subrange(0, n as int) =~= v@);
    }
    loop
        invariant
            pos <= n == v@.len(),
            pat@.len() > 0,
            whole == split_on(v@, pat@),
            whole == done + split_on(v@.subrange(pos as int, n as int), pat@),
            out@.len() == done.len(),
            forall|k: int|
                0 <= k < out@.len() ==> {
                    let (a, b) = #[trigger] out@[k];
                    a <= b <= v@.len() && v@.subrange(a as int, b as int) == done[k]
                },
        decreases n - pos,
    {
        let ghost rest = v@.subrange(pos as int, n as int);
        match find_in(v, pos, n, pat) {
            Some(i) => {
                proof {
                    lemma_split_step(rest, pat@, i as int);
                    assert(rest.take(i as int) =~= v@.subrange(pos as int, pos + i));
                    assert(rest.skip(i + pat@.len()) =~= v@.subrange(pos + i + pat@.len(), n as int));
                    done = done.push(rest.take(i as int));
                    assert(whole =~= done + split_on(
                        v@.subrange(pos + i + pat@.len(), n as int),
                        pat@,
                    ));
                }
                out.push((pos, pos + i));
                pos = pos + i + pat.len();
            },
            None => {
                proof {
                    assert(split_on(rest, pat@) == seq![rest]);
                    done = done.push(rest);
                    assert(whole =~= done);
                }
                out.push((pos, n));
                return out;
            },
        }
    }
}

/// `s` with the first `old` replaced by `new`, as characters.
fn replace_once(v: &[char], start: usize, end: usize, old: &str, new: &str) -> (res: Vec<char>)
    requires
        start <= end <= v@.len(),
    ensures
        res@ == replaced_once(v@.subrange(start as int, end as int), old@, new@),
{
    let ghost s = v@.subrange(start as int, end as int);
    let o = chars_of(old);
    let mut out: Vec<char> = Vec::new();
    match find_in(v, start, end, o.as_slice()) {
        Some(i) => {
            proof {
                lemma_find_from(s, old@, 0);
            }
            extend_from_range(&mut out, v, start, start + i);
            extend_from_str(&mut out, new);
            extend_from_range(&mut out, v, start + i + o.len(), end);
            proof {
                assert(s.take(i as int) =~= v@.subrange(start as int, start + i));
                assert(s.skip(i + old@.len()) =~= v@.subrange(start + i + o@.len(), end as int));
            }
        },
        None => {
            extend_from_range(&mut out, v, start, end);
        },
    }
    out
}

/// Keeps only a source SVG's icon (its second `<path>`; the first is the
/// black background), recoloured to `currentColor` so CSS can tint it.
/// A source without exactly two `<path>` elements is refused.
pub fn icon_svg(slug: &str, raw: &str) -> (res: Result<String, String>)
    ensures
        ({
            let paths = path_bodies(raw@);
            match res {
                Ok(svg) => paths.len() == 2 && svg@ == icon_from(paths[1]),
                Err(e) => paths.len() != 2 && e@ == shape_error(slug@, paths.len()),
            }
        }),
{
    proof {
        reveal_strlit("<path");
        reveal_strlit("/>");
    }
    let v = chars_of(raw);
    let pat = chars_of("<path");
    let ranges = split_ranges(v.as_slice(), pat.as_slice());
    let ghost pieces = split_on(v@, "<path"@);
    assert(pieces.len() >= 1) by {
        if "<path"@.len() > 0 {
            lemma_find_from(v@, "<path"@, 0);
        }
    }
    let count = ranges.len() - 1;
    if count != 2 {
        let mut msg: Vec<char> = Vec::new();
        extend_from_str(&mut msg, "Unexpected SVG shape for ");
        extend_from_str(&mut msg, slug);
        extend_from_str(&mut msg, " (expected 2 <path> elements, got ");
        push_decimal(&mut msg, count as u64);
        extend_from_str(&mut msg, ")");
        return Err(string_from_chars(msg.as_slice()));
    }
    let (a, b) = ranges[2];
    let close = chars_of("/>");
    let body_end = match find_in(v.as_slice(), a, b, close.as_slice()) {
        Some(i) => a + i,
        None => b,
    };
    proof {
        let p = pieces[2];
        assert(p == v@.subrange(a as int, b as int));
        lemma_find_from(p, "/>"@, 0);
        assert(path_bodies(raw@)[1] == before_first(p, "/>"@));
        assert(before_first(p, "/>"@) =~= v@.subrange(a as int, body_end as int));
    }
    let icon = replace_once(v.as_slice(), a, body_end, "fill=\"#fff\"", "fill=\"currentColor\"");
    let mut out: Vec<char> = Vec::new();
    extend_from_str(
        &mut out,
        "<svg xmlns=\"http://www.w3.org/2000/svg\" viewBox=\"0 0 512 512\"><path",
    );
    extend_from_range(&mut out, icon.as_slice(), 0, icon.len());
    extend_from_str(&mut out, "/></svg>");
    proof {
        assert(icon@.subrange(0, icon@.len() as int) =~= icon@);
    }
    Ok(string_from_chars(out.as_slice()))
}

/// One table entry, in the file's exact layout.
pub open spec fn rendered_entry(source: IconSource, svg: Seq<char>) -> Seq<char> {
    "    LinkIconDef {\n        slug: \""@ + source.slug@ + "\",\n        label: \""@ + source.label@
        + "\",\n        category: IconCategory::"@ + category_name(source.category)
        + ",\n        author: IconAuthor::"@ + author_name(source.author) + ",\n        svg: r#\""@
        + svg + "\"#,\n    },"@
}

/// Renders one table entry for `source` with its SVG.
pub fn render_entry(source: &IconSource, svg: &str) -> (res: String)
    ensures
        res@ == rendered_entry(*source, svg@),
{
    let mut out: Vec<char> = Vec::new();
    extend_from_str(&mut out, "    LinkIconDef {\n        slug: \"");
    extend_from_str(&mut out, source.slug);
    extend_from_str(&mut out, "\",\n        label: \"");
    extend_from_str(&mut out, source.label);
    extend_from_str(&mut out, "\",\n        category: IconCategory::");
    extend_from_str(&mut out, source.category.name());
    extend_from_str(&mut out, ",\n        author: IconAuthor::");
    extend_from_str(&mut out, source.author.name());
    extend_from_str(&mut out, ",\n        svg: r#\"");
    extend_from_str(&mut out, svg);
    extend_from_str(&mut out, "\"#,\n    },");
    string_from_chars(out.as_slice())
}

/// `items` joined with `sep` between each two.
pub open spec fn joined(items: Seq<Seq<char>>, sep: Seq<char>) -> Seq<char>
    decreases items.len(),
{
    if items.len() == 0 {
        Seq::empty()
    } else if items.len() == 1 {
        items[0]
    } else {
        joined(items.drop_last(), sep) + sep + items.last()
    }
}

/// Where the table body starts in the target file.
pub open spec fn table_start() -> Seq<char> {
    "pub const LINK_ICONS: &[LinkIconDef] = &[\n"@
}

/// What follows the table body.
pub open spec fn table_end() -> Seq<char> {
    "\n];\n"@
}

/// `existing` with its table body replaced by the entries, one per line;
/// the error says which marker is missing.
pub open spec fn spliced(existing: Seq<char>, entries: Seq<Seq<char>>) -> Result<Seq<char>, Seq<char>> {
    match find(existing, table_start()) {
        None => Err("couldn't find LINK_ICONS in the target file"@),
        Some(a) => {
            let start = a + table_start().len();
            match find(existing.skip(start), table_end()) {
                None => Err("couldn't find the end of LINK_ICONS"@),
                Some(b) => Ok(existing.take(start) + joined(entries, seq!['\n']) + existing.skip(
                    start + b,
                )),
            }
        },
    }
}

/// Replaces the body of the `LINK_ICONS` table in `existing` by `entries`.
pub fn splice(existing: &str, entries: &[String]) -> (res: Result<String, String>)
    ensures
        match spliced(existing@, entries@.map_values(|e: String| e@)) {
            Ok(s) => res matches Ok(r) && r@ == s,
            Err(m) => res matches Err(e) && e@ == m,
        },
{
    let v = chars_of(existing);
    let n = v.len();
    let start_pat = chars_of("pub const LINK_ICONS: &[LinkIconDef] = &[\n");
    let end_pat = chars_of("\n];\n");
    proof {
        assert(v@.subrange(0, n as int) =~= v@);
        lemma_find_from(v@, table_start(), 0);
    }
    let a = match find_in(v.as_slice(), 0, n, start_pat.as_slice()) {
        Some(a) => a,
        None => {
            let mut msg: Vec<char> = Vec::new();
            extend_from_str(&mut msg, "couldn't find LINK_ICONS in the target file");
            return Err(string_from_chars(msg.as_slice()));
        },
    };
    let start = a + start_pat.len();
    proof {
        assert(v@.subrange(start as int, n as int) =~= v@.skip(start as int));
        lemma_find_from(v@.skip(start as int), table_end(), 0);
    }
    let b = match find_in(v.as_slice(), start, n, end_pat.as_slice()) {
        Some(b) => b,
        None => {
            let mut msg: Vec<char> = Vec::new();
            extend_from_str(&mut msg, "couldn't find the end of LINK_ICONS");
            return Err(string_from_chars(msg.as_slice()));
        },
    };
    let ghost items = entries@.map_values(|e: String| e@);
    let mut out: Vec<char> = Vec::new();
    extend_from_range(&mut out, v.as_slice(), 0, start);
    let ghost head = out@;
    let mut i: usize = 0;
    while i < entries.len()
        invariant
            i <= entries@.len(),
            items == entries@.map_values(|e: String| e@),
            out@ == head + joined(items.take(i as int), seq!['\n']),
        decreases entries@.len() - i,
    {
        proof {
            assert(items.take(i + 1).drop_last() =~= items.take(i as int));
            assert(items.take(i + 1).last() == entries@[i as int]@);
        }
        if i > 0 {
            out.push('\n');
        }
        extend_from_str(&mut out, entries[i].as_str());
        proof {
            if i == 0 {
                assert(items.take(1)[0] == entries@[0]@);
                assert(out@ =~= head + joined(items.take(1), seq!['\n']));
            } else {
                assert(out@ =~= head + joined(items.take(i + 1), seq!['\n']));
            }
        }
        i = i + 1;
    }
    extend_from_range(&mut out, v.as_slice(), start + b, n);
    proof {
        assert(items.take(entries@.len() as int) =~= items);
        assert(v@.subrange(0, start as int) =~= v@.take(start as int));
        assert(v@.subrange(start + b, n as int) =~= v@.skip(start + b));
    }
    Ok(string_from_chars(out.as_slice()))
}


/// The icons of the table, as they are listed (not yet in table order).
pub open spec fn icon_table() -> Seq<IconSource> {
    seq![
        IconSource { slug: "village", label: "Village", category: Category::Settlement, author: Author::Delapouite },
        IconSource { slug: "medieval-gate", label: "Gate", category: Category::Settlement, author: Author::Delapouite },
        IconSource { slug: "hill-fort", label: "Hill fort", category: Category::Settlement, author: Author::Delapouite },
        IconSource { slug: "watchtower", label: "Watchtower", category: Category::Settlement, author: Author::Delapouite },
        IconSource { slug: "windmill", label: "Windmill", category: Category::Settlement, author: Author::Delapouite },
        IconSource { slug: "well", label: "Well", category: Category::Settlement, author: Author::Delapouite },
        IconSource { slug: "tavern-sign", label: "Tavern", category: Category::Settlement, author: Author::Delapouite },
        IconSource { slug: "church", label: "Church", category: Category::Landmark, author: Author::Delapouite },
        IconSource { slug: "greek-temple", label: "Temple", category: Category::Landmark, author: Author::Delapouite },
        IconSource { slug: "castle", label: "Castle", category: Category::Landmark, author: Author::Lorc },
        IconSource { slug: "lighthouse", label: "Lighthouse", category: Category::Landmark, author: Author::Delapouite },
        IconSource { slug: "obelisk", label: "Obelisk", category: Category::Landmark, author: Author::Delapouite },
        IconSource { slug: "crystal-shrine", label: "Shrine", category: Category::Landmark, author: Author::Delapouite },
        IconSource { slug: "oasis", label: "Oasis", category: Category::Landmark, author: Author::Delapouite },
        IconSource { slug: "waterfall", label: "Waterfall", category: Category::Landmark, author: Author::Delapouite },
        IconSource { slug: "castle-ruins", label: "Castle ruins", category: Category::Ruin, author: Author::Delapouite },
        IconSource { slug: "ancient-ruins", label: "Ancient ruins", category: Category::Ruin, author: Author::Delapouite },
        IconSource { slug: "crypt-entrance", label: "Crypt entrance", category: Category::Ruin, author: Author::Delapouite },
        IconSource { slug: "cave-entrance", label: "Cave entrance", category: Category::Ruin, author: Author::Delapouite },
        IconSource { slug: "dungeon-gate", label: "Dungeon gate", category: Category::Ruin, author: Author::Delapouite },
        IconSource { slug: "graveyard", label: "Graveyard", category: Category::Ruin, author: Author::Delapouite },
        IconSource { slug: "tombstone", label: "Tombstone", category: Category::Ruin, author: Author::Lorc },
        IconSource { slug: "rune-stone", label: "Rune stone", category: Category::Ruin, author: Author::Lorc },
        IconSource { slug: "swamp", label: "Swamp", category: Category::Hazard, author: Author::Delapouite },
        IconSource { slug: "quicksand", label: "Quicksand", category: Category::Hazard, author: Author::Lorc },
        IconSource { slug: "spider-web", label: "Spider web", category: Category::Hazard, author: Author::Lorc },
        IconSource { slug: "thorny-vine", label: "Thorny vine", category: Category::Hazard, author: Author::Lorc },
        IconSource { slug: "sandstorm", label: "Sandstorm", category: Category::Hazard, author: Author::Delapouite },
        IconSource { slug: "volcano", label: "Volcano", category: Category::Hazard, author: Author::Lorc },
        IconSource { slug: "lightning-storm", label: "Lightning storm", category: Category::Hazard, author: Author::Lorc },
        IconSource { slug: "poison-gas", label: "Poison gas", category: Category::Hazard, author: Author::Lorc },
        IconSource { slug: "campfire", label: "Campfire", category: Category::Waypoint, author: Author::Lorc },
        IconSource { slug: "compass", label: "Compass", category: Category::Waypoint, author: Author::Lorc },
        IconSource { slug: "footprint", label: "Footprint", category: Category::Waypoint, author: Author::Lorc },
        IconSource { slug: "pin", label: "Pin", category: Category::Waypoint, author: Author::Delapouite },
        IconSource { slug: "wooden-sign", label: "Signpost", category: Category::Waypoint, author: Author::Lorc },
    ]
}

/// The icons of the table. To add one, add it here and sync.
pub fn icon_sources() -> (res: Vec<IconSource>)
    ensures
        res@ == icon_table(),
{
    let v = vec![
        src("village", "Village", Category::Settlement, Author::Delapouite),
        src("medieval-gate", "Gate", Category::Settlement, Author::Delapouite),
        src("hill-fort", "Hill fort", Category::Settlement, Author::Delapouite),
        src("watchtower", "Watchtower", Category::Settlement, Author::Delapouite),
        src("windmill", "Windmill", Category::Settlement, Author::Delapouite),
        src("well", "Well", Category::Settlement, Author::Delapouite),
        src("tavern-sign", "Tavern", Category::Settlement, Author::Delapouite),
        src("church", "Church", Category::Landmark, Author::Delapouite),
        src("greek-temple", "Temple", Category::Landmark, Author::Delapouite),
        src("castle", "Castle", Category::Landmark, Author::Lorc),
        src("lighthouse", "Lighthouse", Category::Landmark, Author::Delapouite),
        src("obelisk", "Obelisk", Category::Landmark, Author::Delapouite),
        src("crystal-shrine", "Shrine", Category::Landmark, Author::Delapouite),
        src("oasis", "Oasis", Category::Landmark, Author::Delapouite),
        src("waterfall", "Waterfall", Category::Landmark, Author::Delapouite),
        src("castle-ruins", "Castle ruins", Category::Ruin, Author::Delapouite),
        src("ancient-ruins", "Ancient ruins", Category::Ruin, Author::Delapouite),
        src("crypt-entrance", "Crypt entrance", Category::Ruin, Author::Delapouite),
        src("cave-entrance", "Cave entrance", Category::Ruin, Author::Delapouite),
        src("dungeon-gate", "Dungeon gate", Category::Ruin, Author::Delapouite),
        src("graveyard", "Graveyard", Category::Ruin, Author::Delapouite),
        src("tombstone", "Tombstone", Category::Ruin, Author::Lorc),
        src("rune-stone", "Rune stone", Category::Ruin, Author::Lorc),
        src("swamp", "Swamp", Category::Hazard, Author::Delapouite),
        src("quicksand", "Quicksand", Category::Hazard, Author::Lorc),
        src("spider-web", "Spider web", Category::Hazard, Author::Lorc),
        src("thorny-vine", "Thorny vine", Category::Hazard, Author::Lorc),
        src("sandstorm", "Sandstorm", Category::Hazard, Author::Delapouite),
        src("volcano", "Volcano", Category::Hazard, Author::Lorc),
        src("lightning-storm", "Lightning storm", Category::Hazard, Author::Lorc),
        src("poison-gas", "Poison gas", Category::Hazard, Author::Lorc),
        src("campfire", "Campfire", Category::Waypoint, Author::Lorc),
        src("compass", "Compass", Category::Waypoint, Author::Lorc),
        src("footprint", "Footprint", Category::Waypoint, Author::Lorc),
        src("pin", "Pin", Category::Waypoint, Author::Delapouite),
        src("wooden-sign", "Signpost", Category::Waypoint, Author::Lorc),
    ];
    proof {
        assert(v@ =~= icon_table());
    }
    v
}

/// Table order: by category, then by slug.
pub open spec fn source_le(a: IconSource, b: IconSource) -> bool {
    ||| category_rank(a.category) < category_rank(b.category)
    ||| category_rank(a.category) == category_rank(b.category) && lex_le(a.slug@, b.slug@)
}

/// Table order, as an ordering.
pub open spec fn table_order() -> spec_fn(IconSource, IconSource) -> bool {
    |a: IconSource, b: IconSource| source_le(a, b)
}

/// `s` placed in sorted `sorted` after every source that comes no later.
pub open spec fn insert_source(sorted: Seq<IconSource>, s: IconSource) -> Seq<IconSource> {
    insert_by(sorted, s, table_order())
}

/// The sources stably sorted into table order.
pub open spec fn in_table_order(sources: Seq<IconSource>) -> Seq<IconSource> {
    sort_by(sources, table_order())
}

fn comes_no_later(a: &IconSource, b: &IconSource) -> (res: bool)
    ensures
        res == source_le(*a, *b),
{
    let ra = a.category.rank();
    let rb = b.category.rank();
    ra < rb || (ra == rb && lex_le_str(a.slug, b.slug))
}

/// The sources in table order: by category, then by slug.
pub fn sort_sources(sources: &[IconSource]) -> (res: Vec<IconSource>)
    ensures
        res@ == in_table_order(sources@),
{
    let mut out: Vec<IconSource> = Vec::new();
    let n = sources.len();
    let mut i: usize = 0;
    while i < n
        invariant
            n == sources@.len(),
            i <= n,
            out@ == in_table_order(sources@.take(i as int)),
        decreases n - i,
    {
        let s = sources[i];
        proof {
            assert(sources@.take(i + 1).drop_last() =~= sources@.take(i as int));
            assert(sources@.take(i + 1).last() == s);
        }
        let ghost cur = out@;
        let mut j = out.len();
        proof {
            assert(cur.take(j as int) =~= cur);
            assert(cur.skip(j as int) =~= Seq::<IconSource>::empty());
        }
        while j > 0 && !comes_no_later(&out[j - 1], &s)
            invariant
                j <= out@.len(),
                cur == out@,
                insert_source(cur, s) == insert_source(cur.take(j as int), s) + cur.skip(j as int),
            decreases j,
        {
            proof {
                let t = cur.take(j as int);
                assert(t.last() == cur[j - 1]);
                assert(t.drop_last() =~= cur.take(j - 1));
                assert(cur.skip(j - 1) =~= seq![cur[j - 1]] + cur.skip(j as int));
                assert(insert_source(cur.take(j - 1), s).push(cur[j - 1]) + cur.skip(j as int)
                    =~= insert_source(cur.take(j - 1), s) + cur.skip(j - 1));
            }
            j = j - 1;
        }
        proof {
            let t = cur.take(j as int);
            if j > 0 {
                assert(t.last() == cur[j - 1]);
            }
        }
        out.insert(j, s);
        proof {
            assert(out@ =~= cur.take(j as int).push(s) + cur.skip(j as int));
        }
        i = i + 1;
    }
    proof {
        assert(sources@.take(n as int) =~= sources@);
    }
    out
}

pub open spec fn icon_url_of(source: IconSource) -> Seq<char> {
    "https://raw.githubusercontent.com/game-icons/icons/master/"@ + author_dir(source.author) + "/"@
        + source.slug@ + ".svg"@
}

/// Where the source SVG of `source` is published.
pub fn icon_url(source: &IconSource) -> (res: String)
    ensures
        res@ == icon_url_of(*source),
{
    let mut out: Vec<char> = Vec::new();
    extend_from_str(&mut out, "https://raw.githubusercontent.com/game-icons/icons/master/");
    extend_from_str(&mut out, source.author.dir());
    extend_from_str(&mut out, "/");
    extend_from_str(&mut out, source.slug);
    extend_from_str(&mut out, ".svg");
    string_from_chars(out.as_slice())
}

} // verus!
