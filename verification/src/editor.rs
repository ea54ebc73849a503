//! The editor screen's decisions: what it shows while a project loads,
//! which side panel is open, how Locations and Links are titled, what the
//! warnings list says, which keys step the history, which icons the
//! icon picker offers, and what the new-project form sends.

use vstd::prelude::*;

use crate::browser::{lower_contains, search_key};
use crate::content::trim_range;
use crate::icons::{Category, IconSource};
use crate::keyed::KeyedMap;
use crate::ordering::{insert_by, lex_le, lex_le_str, sort_by};
use crate::text::find_in;
use crate::content::trimmed;
use crate::project::{
    strings_view, InlineProjectContent, Location, LocationContent, LocationContentKind, LocationView,
    ObsidianProjectContent, ProjectContent, ProjectContentKind, ResolvedContent,
};
use crate::server::CreateProjectRequest;
use crate::slug::{slugify_title, title_slug};
use crate::slug::{to_lowercase, unicode_lowercase};
use crate::text::{chars_eq, chars_of, extend_from_str, find, string_from_chars};

verus! {

/// What the editor shows in place of the map.
#[derive(Debug, PartialEq, Eq)]
pub enum Phase {
    Loading,
    Failed(String),
    UnknownLocation(String),
    Ready,
}

/// The editor's phase: a load error wins; then it is loading until the
/// project is in and a Location is current; a current id that names no
/// Location is reported as such.
pub fn editor_phase(load_error: Option<String>, has_project: bool, current: Option<String>, found: bool) -> (res:
    Phase)
    ensures
        match load_error {
            Some(e) => res == Phase::Failed(e),
            None => if !has_project {
                res == Phase::Loading
            } else {
                match current {
                    None => res == Phase::Loading,
                    Some(id) => if found {
                        res == Phase::Ready
                    } else {
                        res == Phase::UnknownLocation(id)
                    },
                }
            },
        },
{
    if let Some(e) = load_error {
        return Phase::Failed(e);
    }
    if !has_project {
        return Phase::Loading;
    }
    match current {
        None => Phase::Loading,
        Some(id) => if found {
            Phase::Ready
        } else {
            Phase::UnknownLocation(id)
        },
    }
}

/// The panel beside the map.
#[derive(Debug, PartialEq, Eq, Clone, Copy, Structural)]
pub enum Panel {
    Hidden,
    Grid,
    AddLocation,
    Link,
}

/// Configuring a grid (on a map with an image) wins, then placing a new
/// Location once a point is picked, then the selected Link.
pub fn side_panel(
    configuring_grid: bool,
    has_image: bool,
    placing_location: bool,
    has_pending_point: bool,
    has_selected_link: bool,
) -> (res: Panel)
    ensures
        res == if configuring_grid && has_image {
            Panel::Grid
        } else if placing_location && has_pending_point {
            Panel::AddLocation
        } else if has_selected_link {
            Panel::Link
        } else {
            Panel::Hidden
        },
{
    if configuring_grid && has_image {
        Panel::Grid
    } else if placing_location && has_pending_point {
        Panel::AddLocation
    } else if has_selected_link {
        Panel::Link
    } else {
        Panel::Hidden
    }
}

/// Content edited in place: none yet, or inline; a vault note is not.
pub open spec fn is_editable_inline(l: LocationView) -> bool {
    match l.content {
        None => true,
        Some(LocationContent { kind: None }) => true,
        Some(LocationContent { kind: Some(LocationContentKind::Inline(_)) }) => true,
        Some(LocationContent { kind: Some(LocationContentKind::Obsidian(_)) }) => false,
    }
}

/// Whether `location`'s content is edited in place.
pub fn location_is_inline(location: &Location) -> (res: bool)
    ensures
        res == is_editable_inline(location@),
{
    match &location.content {
        None => true,
        Some(c) => match &c.kind {
            None => true,
            Some(LocationContentKind::Inline(_)) => true,
            Some(LocationContentKind::Obsidian(_)) => false,
        },
    }
}

/// The heading of a Location: its title, its id when the title is empty.
pub fn heading_title(title: &str, location_id: &str) -> (res: String)
    ensures
        res@ == if title@.len() == 0 {
            location_id@
        } else {
            title@
        },
{
    if title.is_empty() {
        string_from_chars(chars_of(location_id).as_slice())
    } else {
        string_from_chars(chars_of(title).as_slice())
    }
}

/// How a Link is titled: its target's resolved title, else the target id.
pub fn link_title(resolved: &KeyedMap<ResolvedContent>, target: &str) -> (res: String)
    ensures
        res@ == if resolved.map().dom().contains(target@) {
            resolved.map()[target@].title@
        } else {
            target@
        },
{
    match resolved.get(target) {
        Some(c) => c.title.clone(),
        None => string_from_chars(chars_of(target).as_slice()),
    }
}

/// A resolution error as the warnings list shows it.
pub open spec fn error_line(id: Seq<char>, error: Seq<char>) -> Seq<char> {
    id + ": "@ + error
}

/// Lines by character.
pub open spec fn line_order() -> spec_fn(Seq<char>, Seq<char>) -> bool {
    |a: Seq<char>, b: Seq<char>| lex_le(a, b)
}

/// `s` placed in sorted `sorted` after every line that sorts no later.
pub open spec fn insert_line(sorted: Seq<Seq<char>>, s: Seq<char>) -> Seq<Seq<char>> {
    insert_by(sorted, s, line_order())
}

/// The lines in sorted order.
pub open spec fn sorted_lines(lines: Seq<Seq<char>>) -> Seq<Seq<char>> {
    sort_by(lines, line_order())
}

/// Sorts lines by character.
pub fn sort_lines(lines: Vec<String>) -> (res: Vec<String>)
    ensures
        strings_view(res@) == sorted_lines(strings_view(lines@)),
{
    let ghost src = strings_view(lines@);
    let n = lines.len();
    let mut rest = lines;
    let ghost total = rest@;
    let mut pending: Vec<String> = Vec::new();
    while rest.len() > 0
        invariant
            rest@.len() + pending@.len() == n,
            n == total.len(),
            src == strings_view(total),
            rest@ == total.take(rest@.len() as int),
            pending@ == total.skip(rest@.len() as int).reverse(),
        decreases rest@.len(),
    {
        let e = rest.pop().unwrap();
        pending.push(e);
        proof {
            assert(rest@ =~= total.take(rest@.len() as int));
            assert(pending@ =~= total.skip(rest@.len() as int).reverse());
        }
    }
    proof {
        assert(total.skip(0) =~= total);
    }
    let mut out: Vec<String> = Vec::new();
    let mut i: usize = 0;
    while pending.len() > 0
        invariant
            pending@.len() + i == n,
            n == total.len(),
            src == strings_view(total),
            pending@ == total.skip(i as int).reverse(),
            strings_view(out@) == sorted_lines(src.take(i as int)),
        decreases pending@.len(),
    {
        let e = pending.pop().unwrap();
        proof {
            assert(e == total[i as int]);
            assert(pending@ =~= total.skip(i + 1).reverse());
            assert(src.take(i + 1).drop_last() =~= src.take(i as int));
            assert(src.take(i + 1).last() == e@);
        }
        let ghost cur = strings_view(out@);
        let mut j = out.len();
        proof {
            assert(cur.take(j as int) =~= cur);
            assert(cur.skip(j as int) =~= Seq::<Seq<char>>::empty());
        }
        while j > 0 && !lex_le_str(out[j - 1].as_str(), e.as_str())
            invariant
                j <= out@.len(),
                cur == strings_view(out@),
                insert_line(cur, e@) == insert_line(cur.take(j as int), e@) + cur.skip(j as int),
            decreases j,
        {
            proof {
                let t = cur.take(j as int);
                assert(t.last() == cur[j - 1]);
                assert(t.drop_last() =~= cur.take(j - 1));
                assert(cur.skip(j - 1) =~= seq![cur[j - 1]] + cur.skip(j as int));
                assert(insert_line(cur.take(j - 1), e@).push(cur[j - 1]) + cur.skip(j as int)
                    =~= insert_line(cur.take(j - 1), e@) + cur.skip(j - 1));
            }
            j = j - 1;
        }
        proof {
            let t = cur.take(j as int);
            if j > 0 {
                assert(t.last() == cur[j - 1]);
            }
        }
        let ghost ev = e@;
        out.insert(j, e);
        proof {
            assert(strings_view(out@) =~= cur.take(j as int).push(ev) + cur.skip(j as int));
        }
        i = i + 1;
    }
    proof {
        assert(src.take(n as int) =~= src);
    }
    out
}

/// The warnings list: the project's warnings as they are, then one line
/// per resolution error, sorted. `errors` lists each Location id once.
pub fn warning_lines(warnings: &Vec<String>, errors: &Vec<(String, String)>) -> (res: Vec<String>)
    ensures
        strings_view(res@) == strings_view(warnings@) + sorted_lines(
            errors@.map_values(|e: (String, String)| error_line(e.0@, e.1@)),
        ),
{
    let ghost lines_spec = errors@.map_values(|e: (String, String)| error_line(e.0@, e.1@));
    let mut lines: Vec<String> = Vec::new();
    let mut i: usize = 0;
    while i < errors.len()
        invariant
            i <= errors@.len(),
            lines_spec == errors@.map_values(|e: (String, String)| error_line(e.0@, e.1@)),
            strings_view(lines@) == lines_spec.take(i as int),
        decreases errors@.len() - i,
    {
        let mut l: Vec<char> = Vec::new();
        extend_from_str(&mut l, errors[i].0.as_str());
        extend_from_str(&mut l, ": ");
        extend_from_str(&mut l, errors[i].1.as_str());
        let line = string_from_chars(l.as_slice());
        let ghost prev = lines@;
        lines.push(line);
        proof {
            assert(line@ == lines_spec[i as int]);
            assert(lines@ == prev.push(line));
            assert(strings_view(lines@) =~= strings_view(prev).push(line@));
            assert(lines_spec.take(i + 1) =~= lines_spec.take(i as int).push(lines_spec[i as int]));
            assert(strings_view(lines@) =~= lines_spec.take(i + 1));
        }
        i = i + 1;
    }
    proof {
        assert(lines_spec.take(errors@.len() as int) =~= lines_spec);
    }
    let sorted = sort_lines(lines);
    let mut out: Vec<String> = Vec::new();
    let mut k: usize = 0;
    while k < warnings.len()
        invariant
            k <= warnings@.len(),
            strings_view(out@) == strings_view(warnings@).take(k as int),
        decreases warnings@.len() - k,
    {
        let w = warnings[k].clone();
        let ghost prev = out@;
        out.push(w);
        proof {
            assert(w@ == warnings@[k as int]@);
            assert(strings_view(out@) =~= strings_view(prev).push(w@));
            assert(strings_view(out@) =~= strings_view(warnings@).take(k + 1));
        }
        k = k + 1;
    }
    let ghost head = strings_view(out@);
    let mut m: usize = 0;
    while m < sorted.len()
        invariant
            m <= sorted@.len(),
            strings_view(out@) == head + strings_view(sorted@).take(m as int),
        decreases sorted@.len() - m,
    {
        let w = sorted[m].clone();
        let ghost prev = out@;
        out.push(w);
        proof {
            assert(w@ == sorted@[m as int]@);
            assert(strings_view(out@) =~= strings_view(prev).push(w@));
            assert(strings_view(out@) =~= head + strings_view(sorted@).take(m + 1));
        }
        m = m + 1;
    }
    proof {
        assert(strings_view(warnings@).take(warnings@.len() as int) =~= strings_view(warnings@));
        assert(strings_view(sorted@).take(sorted@.len() as int) =~= strings_view(sorted@));
    }
    out
}

/// A step through the history.
#[derive(Debug, PartialEq, Eq, Clone, Copy, Structural)]
pub enum HistoryStep {
    Undo,
    Redo,
}

/// The history key: Ctrl or Cmd with `z` (any case), while editing;
/// Shift makes it a redo.
pub fn history_shortcut(edit_mode: bool, ctrl_or_meta: bool, key: &str, shift: bool) -> (res: Option<
    HistoryStep,
>)
    ensures
        res == if edit_mode && ctrl_or_meta && unicode_lowercase(key@) == seq!['z'] {
            Some(
                if shift {
                    HistoryStep::Redo
                } else {
                    HistoryStep::Undo
                },
            )
        } else {
            None
        },
{
    if !edit_mode || !ctrl_or_meta {
        return None;
    }
    let lower = chars_of(to_lowercase(key).as_str());
    let mut z: Vec<char> = Vec::new();
    z.push('z');
    proof {
        assert(z@ =~= seq!['z']);
    }
    if !chars_eq(lower.as_slice(), z.as_slice()) {
        return None;
    }
    if shift {
        Some(HistoryStep::Redo)
    } else {
        Some(HistoryStep::Undo)
    }
}

/// The image button's label.
pub fn upload_button_label(uploading: bool, has_image: bool) -> (res: &'static str)
    ensures
        res@ == if uploading {
            "Uploading…"@
        } else if has_image {
            "Replace image…"@
        } else {
            "Upload image…"@
        },
{
    if uploading {
        "Uploading…"
    } else if has_image {
        "Replace image…"
    } else {
        "Upload image…"
    }
}

/// The icon picker's categories, in the order it shows them.
pub open spec fn picker_categories() -> Seq<Category> {
    seq![
        Category::Settlement,
        Category::Landmark,
        Category::Ruin,
        Category::Hazard,
        Category::Waypoint,
    ]
}

/// Whether `icon` answers the search key `q`: every icon answers an
/// empty key; otherwise its lower-cased label or its slug contains it.
pub open spec fn icon_matches(icon: IconSource, q: Seq<char>) -> bool {
    q.len() == 0 || find(unicode_lowercase(icon.label@), q) is Some || find(icon.slug@, q) is Some
}

/// The icons of category `c` that answer `q`, in table order.
pub open spec fn category_icons(icons: Seq<IconSource>, c: Category, q: Seq<char>) -> Seq<IconSource> {
    icons.filter(|i: IconSource| i.category == c && icon_matches(i, q))
}

/// The picker's groups for `query`: per category, in picker order, the
/// icons that answer it; a category with none is left out.
pub open spec fn picker_groups(icons: Seq<IconSource>, query: Seq<char>) -> Seq<(Category, Seq<IconSource>)> {
    picker_categories().map_values(
        |c: Category| (c, category_icons(icons, c, search_key(query))),
    ).filter(|g: (Category, Seq<IconSource>)| g.1.len() > 0)
}

pub open spec fn groups_view(v: Seq<(Category, Vec<IconSource>)>) -> Seq<(Category, Seq<IconSource>)> {
    v.map_values(|g: (Category, Vec<IconSource>)| (g.0, g.1@))
}

/// The icons of `category` in `icons` that answer the key `q`.
fn icons_in(icons: &[IconSource], category: Category, q: &[char]) -> (res: Vec<IconSource>)
    ensures
        res@ == category_icons(icons@, category, q@),
{
    let ghost pred = |i: IconSource| i.category == category && icon_matches(i, q@);
    let mut out: Vec<IconSource> = Vec::new();
    let mut i: usize = 0;
    while i < icons.len()
        invariant
            i <= icons@.len(),
            pred == (|i: IconSource| i.category == category && icon_matches(i, q@)),
            out@ == icons@.take(i as int).filter(pred),
        decreases icons@.len() - i,
    {
        let icon = icons[i];
        let slug = chars_of(icon.slug);
        proof {
            assert(slug@.subrange(0, slug@.len() as int) =~= slug@);
        }
        let answers = q.len() == 0 || lower_contains(icon.label, q) || find_in(
            slug.as_slice(),
            0,
            slug.len(),
            q,
        ).is_some();
        proof {
            assert(icons@.take(i + 1) =~= icons@.take(i as int).push(icon));
            icons@.take(i as int).lemma_filter_push(icon, pred);
        }
        if icon.category == category && answers {
            out.push(icon);
        }
        i = i + 1;
    }
    proof {
        assert(icons@.take(icons@.len() as int) =~= icons@);
    }
    out
}

/// The icon picker's groups: for each category in picker order, the
/// icons of `icons` in that category whose lower-cased label or slug
/// contains the trimmed, lower-cased `query` (all of them when it is
/// empty); categories left empty are dropped.
pub fn icon_groups(icons: &[IconSource], query: &str) -> (res: Vec<(Category, Vec<IconSource>)>)
    ensures
        groups_view(res@) == picker_groups(icons@, query@),
{
    let qv = chars_of(query);
    proof {
        assert(qv@.subrange(0, qv@.len() as int) =~= qv@);
    }
    let q = chars_of(to_lowercase(trim_range(qv.as_slice(), 0, qv.len()).as_str()).as_str());
    let categories: Vec<Category> = vec![
        Category::Settlement,
        Category::Landmark,
        Category::Ruin,
        Category::Hazard,
        Category::Waypoint,
    ];
    let ghost key = search_key(query@);
    let ghost all = picker_categories().map_values(
        |c: Category| (c, category_icons(icons@, c, key)),
    );
    let ghost pred = |g: (Category, Seq<IconSource>)| g.1.len() > 0;
    proof {
        assert(categories@ =~= picker_categories());
    }
    let mut out: Vec<(Category, Vec<IconSource>)> = Vec::new();
    let mut k: usize = 0;
    while k < categories.len()
        invariant
            k <= categories@.len(),
            categories@ == picker_categories(),
            q@ == key,
            all.len() == categories@.len(),
            all == picker_categories().map_values(
                |c: Category| (c, category_icons(icons@, c, key)),
            ),
            pred == (|g: (Category, Seq<IconSource>)| g.1.len() > 0),
            groups_view(out@) == all.take(k as int).filter(pred),
        decreases categories@.len() - k,
    {
        let c = categories[k];
        let members = icons_in(icons, c, q.as_slice());
        let ghost g = (c, members@);
        proof {
            assert(all[k as int] == g);
            assert(all.take(k + 1) =~= all.take(k as int).push(g));
            all.take(k as int).lemma_filter_push(g, pred);
        }
        if members.len() > 0 {
            let ghost before = out@;
            out.push((c, members));
            proof {
                assert(groups_view(out@) =~= groups_view(before).push(g));
            }
        }
        k = k + 1;
    }
    proof {
        assert(all.take(categories@.len() as int) =~= all);
    }
    out
}

/// `s` with surrounding white space removed.
fn trim_str(s: &str) -> (res: String)
    ensures
        res@ == trimmed(s@),
{
    let v = chars_of(s);
    proof {
        assert(v@.subrange(0, v@.len() as int) =~= v@);
    }
    trim_range(v.as_slice(), 0, v.len())
}

/// The new-project form's request, when it can be sent: a title and a
/// path, and a vault root if the content is an Obsidian vault.
pub open spec fn new_project_ok(title: Seq<char>, path: Seq<char>, obsidian: bool, vault_root: Seq<char>) -> bool {
    trimmed(title).len() > 0 && trimmed(path).len() > 0 && (!obsidian || trimmed(vault_root).len() > 0)
}

/// What the new-project form sends for its fields: trimmed title and
/// path, the title's slug as the default Location, and inline content or
/// the trimmed vault root. `None` while a required field is blank.
pub fn new_project_request(title: &str, path: &str, obsidian: bool, vault_root: &str) -> (res: Option<
    CreateProjectRequest,
>)
    ensures
        res is Some <==> new_project_ok(title@, path@, obsidian, vault_root@),
        res matches Some(r) ==> {
            &&& r.title@ == trimmed(title@)
            &&& r.path@ == trimmed(path@)
            &&& r.default_location_id@ == title_slug(trimmed(title@))
            &&& r.content matches Some(ProjectContent { kind: Some(k) })
            &&& if obsidian {
                k matches ProjectContentKind::Obsidian(o) && o.vault_root@ == trimmed(vault_root@)
            } else {
                k matches ProjectContentKind::Inline(_)
            }
        },
{
    let t = trim_str(title);
    let p = trim_str(path);
    let v = trim_str(vault_root);
    if t.as_str().is_empty() || p.as_str().is_empty() || (obsidian && v.as_str().is_empty()) {
        return None;
    }
    let slug = slugify_title(t.as_str());
    let kind = if obsidian {
        ProjectContentKind::Obsidian(ObsidianProjectContent { vault_root: v })
    } else {
        ProjectContentKind::Inline(InlineProjectContent {  })
    };
    Some(
        CreateProjectRequest {
            path: p,
            title: t,
            default_location_id: slug,
            content: Some(ProjectContent { kind: Some(kind) }),
        },
    )
}

/// What the add-location form submits: the new Location's id and the
/// new pin's type, both trimmed; `None` while either is blank.
pub fn add_location_fields(location_id: &str, link_type: &str) -> (res: Option<(String, String)>)
    ensures
        res is Some <==> (trimmed(location_id@).len() > 0 && trimmed(link_type@).len() > 0),
        res matches Some((id, t)) ==> id@ == trimmed(location_id@) && t@ == trimmed(link_type@),
{
    let id = trim_str(location_id);
    let t = trim_str(link_type);
    if id.as_str().is_empty() || t.as_str().is_empty() {
        None
    } else {
        Some((id, t))
    }
}

} // verus!
