//! The location browser's list: every Location of a project, flat,
//! filtered by text and kind, sorted by title.

use vstd::prelude::*;

use crate::content::{trim_range, trimmed};
use crate::keyed::KeyedMap;
use crate::ordering::{insert_by, lex_le, lex_le_str, sort_by};
use crate::project::{HexenProject, Location, LocationView, ProjectView, ResolvedContent};
use crate::slug::{to_lowercase, unicode_lowercase};
use crate::text::{chars_eq, chars_of, find, find_in};

verus! {

/// One Location as the browser lists it.
#[derive(Debug, PartialEq)]
pub struct Row {
    pub id: String,
    pub title: String,
    pub has_image: bool,
    pub is_orphan: bool,
}

/// The mathematical value of a [`Row`].
pub struct RowView {
    pub id: Seq<char>,
    pub title: Seq<char>,
    pub has_image: bool,
    pub is_orphan: bool,
}

impl View for Row {
    type V = RowView;

    open spec fn view(&self) -> RowView {
        RowView { id: self.id@, title: self.title@, has_image: self.has_image, is_orphan: self.is_orphan }
    }
}

/// Some Link of some Location points at `id`.
pub open spec fn is_link_target(p: ProjectView, id: Seq<char>) -> bool {
    exists|i: int, j: int|
        0 <= i < p.locations.len() && 0 <= j < p.locations[i].links.len() && (
        #[trigger] p.locations[i].links[j]).target@ == id
}

/// The row of Location `l`: titled by its resolved content, else by its
/// id; an orphan when no Link points at it and it is not the default.
pub open spec fn row_of(p: ProjectView, resolved: Map<Seq<char>, ResolvedContent>, l: LocationView) -> RowView {
    RowView {
        id: l.id,
        title: if resolved.dom().contains(l.id) {
            resolved[l.id].title@
        } else {
            l.id
        },
        has_image: l.image is Some,
        is_orphan: l.id != p.default_location && !is_link_target(p, l.id),
    }
}

/// The search text as matched: trimmed and lower-cased.
pub open spec fn search_key(query: Seq<char>) -> Seq<char> {
    unicode_lowercase(trimmed(query))
}

/// Whether `r` passes the filters.
pub open spec fn row_shown(r: RowView, q: Seq<char>, maps_only: bool, orphans_only: bool) -> bool {
    &&& !maps_only || r.has_image
    &&& !orphans_only || r.is_orphan
    &&& q.len() == 0 || find(unicode_lowercase(r.id), q) is Some || find(
        unicode_lowercase(r.title),
        q,
    ) is Some
}

/// Rows by title, character by character.
pub open spec fn title_order() -> spec_fn(RowView, RowView) -> bool {
    |a: RowView, b: RowView| lex_le(a.title, b.title)
}

/// `r` placed in title-sorted `sorted` after every row whose title sorts
/// no later than its own.
pub open spec fn insert_row(sorted: Seq<RowView>, r: RowView) -> Seq<RowView> {
    insert_by(sorted, r, title_order())
}

/// The rows stably sorted by title.
pub open spec fn sorted_by_title(rows: Seq<RowView>) -> Seq<RowView> {
    sort_by(rows, title_order())
}

/// The browser's rows: every Location's row that passes the filters, in
/// title order (Locations order among equal titles).
pub open spec fn browser_rows(
    p: ProjectView,
    resolved: Map<Seq<char>, ResolvedContent>,
    query: Seq<char>,
    maps_only: bool,
    orphans_only: bool,
) -> Seq<RowView> {
    sorted_by_title(
        p.locations.map_values(|l: LocationView| row_of(p, resolved, l)).filter(
            |r: RowView| row_shown(r, search_key(query), maps_only, orphans_only),
        ),
    )
}

pub open spec fn rows_view(v: Seq<Row>) -> Seq<RowView> {
    v.map_values(|r: Row| r@)
}

/// Whether any Link of `project` points at `id`.
fn links_to(project: &HexenProject, id: &str) -> (res: bool)
    ensures
        res == is_link_target(project@, id@),
{
    let target = chars_of(id);
    let mut i: usize = 0;
    while i < project.locations.len()
        invariant
            i <= project.locations@.len(),
            target@ == id@,
            forall|a: int, b: int|
                0 <= a < i && 0 <= b < project@.locations[a].links.len() ==> (
                #[trigger] project@.locations[a].links[b]).target@ != id@,
        decreases project.locations@.len() - i,
    {
        let links = &project.locations[i].links;
        let mut j: usize = 0;
        while j < links.len()
            invariant
                i < project.locations@.len(),
                links == project.locations@[i as int].links,
                j <= links@.len(),
                target@ == id@,
                forall|b: int| 0 <= b < j ==> (#[trigger] links@[b]).target@ != id@,
            decreases links@.len() - j,
        {
            if chars_eq(chars_of(links[j].target.as_str()).as_slice(), target.as_slice()) {
                proof {
                    assert(project@.locations[i as int].links[j as int] == links@[j as int]);
                }
                return true;
            }
            j = j + 1;
        }
        proof {
            assert forall|a: int, b: int|
                0 <= a < i + 1 && 0 <= b < project@.locations[a].links.len() implies (
                #[trigger] project@.locations[a].links[b]).target@ != id@ by {
                if a == i {
                    assert(project@.locations[a].links[b] == links@[b]);
                }
            }
        }
        i = i + 1;
    }
    false
}

/// Whether `hay` (lower-cased) contains `q`.
pub(crate) fn lower_contains(hay: &str, q: &[char]) -> (res: bool)
    ensures
        res == (find(unicode_lowercase(hay@), q@) is Some),
{
    let h = chars_of(to_lowercase(hay).as_str());
    proof {
        assert(h@.subrange(0, h@.len() as int) =~= h@);
    }
    find_in(h.as_slice(), 0, h.len(), q).is_some()
}

/// Places `r` into title-sorted `sorted`, after every row whose title
/// sorts no later than its own.
fn insert_sorted(sorted: &mut Vec<Row>, r: Row)
    ensures
        rows_view(final(sorted)@) == insert_row(rows_view(old(sorted)@), r@),
{
    let ghost s = rows_view(sorted@);
    let mut j = sorted.len();
    proof {
        assert(s.take(j as int) =~= s);
        assert(s.skip(j as int) =~= Seq::<RowView>::empty());
    }
    while j > 0 && !lex_le_str(sorted[j - 1].title.as_str(), r.title.as_str())
        invariant
            j <= sorted@.len(),
            s == rows_view(sorted@),
            insert_row(s, r@) == insert_row(s.take(j as int), r@) + s.skip(j as int),
        decreases j,
    {
        proof {
            let t = s.take(j as int);
            assert(t.last() == s[j - 1]);
            assert(t.drop_last() =~= s.take(j - 1));
            assert(s.skip(j - 1) =~= seq![s[j - 1]] + s.skip(j as int));
            assert(insert_row(t, r@) == insert_row(s.take(j - 1), r@).push(s[j - 1]));
            assert(insert_row(s.take(j - 1), r@).push(s[j - 1]) + s.skip(j as int) =~= insert_row(
                s.take(j - 1),
                r@,
            ) + s.skip(j - 1));
        }
        j = j - 1;
    }
    proof {
        let t = s.take(j as int);
        if j > 0 {
            assert(t.last() == s[j - 1]);
            assert(insert_row(t, r@) == t.push(r@));
        } else {
            assert(insert_row(t, r@) == seq![r@]);
        }
    }
    let ghost rv = r@;
    sorted.insert(j, r);
    proof {
        assert(rows_view(sorted@) =~= s.take(j as int).push(rv) + s.skip(j as int));
    }
}

/// Every Location of `project` that passes the filters, sorted by title.
/// An orphan is a Location no Link points at, other than the default
/// Location.
pub fn rows(
    project: &HexenProject,
    resolved: &KeyedMap<ResolvedContent>,
    query: &str,
    maps_only: bool,
    orphans_only: bool,
) -> (res: Vec<Row>)
    ensures
        rows_view(res@) == browser_rows(project@, resolved.map(), query@, maps_only, orphans_only),
        forall|i: int|
            0 <= i < project@.locations.len() && (search_key(query@).len() == 0 || find(
                unicode_lowercase((#[trigger] project@.locations[i]).id),
                search_key(query@),
            ) is Some) && (!maps_only || project@.locations[i].image is Some) && (!orphans_only || (
            project@.locations[i].id != project@.default_location && !is_link_target(
                project@,
                project@.locations[i].id,
            ))) ==> exists|j: int| 0 <= j < res@.len() && (#[trigger] res@[j]).id@ == project@.locations[i].id,
{
    let qv = chars_of(query);
    proof {
        assert(qv@.subrange(0, qv@.len() as int) =~= qv@);
    }
    let q = chars_of(to_lowercase(trim_range(qv.as_slice(), 0, qv.len()).as_str()).as_str());
    let ghost key = search_key(query@);
    let ghost all = project@.locations.map_values(
        |l: LocationView| row_of(project@, resolved.map(), l),
    );
    let ghost pred = |r: RowView| row_shown(r, key, maps_only, orphans_only);
    let mut out: Vec<Row> = Vec::new();
    let n = project.locations.len();
    let mut i: usize = 0;
    while i < n
        invariant
            n == project.locations@.len(),
            i <= n,
            q@ == key,
            all.len() == n,
            all == project@.locations.map_values(|l: LocationView| row_of(project@, resolved.map(), l)),
            pred == (|r: RowView| row_shown(r, key, maps_only, orphans_only)),
            rows_view(out@) == sorted_by_title(all.take(i as int).filter(pred)),
        decreases n - i,
    {
        let l: &Location = &project.locations[i];
        let title = match resolved.get(l.id.as_str()) {
            Some(c) => c.title.clone(),
            None => l.id.clone(),
        };
        let has_image = l.image.is_some();
        let is_orphan = !chars_eq(
            chars_of(l.id.as_str()).as_slice(),
            chars_of(project.default_location.as_str()).as_slice(),
        ) && !links_to(project, l.id.as_str());
        let row = Row { id: l.id.clone(), title, has_image, is_orphan };
        proof {
            assert(all[i as int] == row@);
            assert(all.take(i + 1) =~= all.take(i as int).push(row@));
            all.take(i as int).lemma_filter_push(row@, pred);
        }
        let shown = (!maps_only || has_image) && (!orphans_only || is_orphan) && (q.len() == 0
            || lower_contains(row.id.as_str(), q.as_slice()) || lower_contains(
            row.title.as_str(),
            q.as_slice(),
        ));
        if shown {
            proof {
                let f = all.take(i as int).filter(pred);
                assert(f.push(row@).drop_last() =~= f);
            }
            insert_sorted(&mut out, row);
        }
        i = i + 1;
    }
    proof {
        assert(all.take(n as int) =~= all);
        assert forall|i: int|
            0 <= i < project@.locations.len() && (search_key(query@).len() == 0 || find(
                unicode_lowercase((#[trigger] project@.locations[i]).id),
                search_key(query@),
            ) is Some) && (!maps_only || project@.locations[i].image is Some) && (!orphans_only || (
            project@.locations[i].id != project@.default_location && !is_link_target(
                project@,
                project@.locations[i].id,
            ))) implies exists|j: int| 0 <= j < out@.len() && (#[trigger] out@[j]).id@ == project@.locations[i].id by {
            crate::laws::a_location_is_found_by_its_id_or_title(
                project@,
                resolved.map(),
                query@,
                maps_only,
                orphans_only,
                i,
            );
            let rows = browser_rows(project@, resolved.map(), query@, maps_only, orphans_only);
            let j = choose|j: int| 0 <= j < rows.len() && (#[trigger] rows[j]).id == project@.locations[i].id;
            assert(rows_view(out@)[j] == out@[j]@);
        }
    }
    out
}

} // verus!
