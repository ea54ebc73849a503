//! Properties that hold across the library's operations: what undo and
//! redo give back, what a failing command leaves, how fog edits combine,
//! what the recent lists keep, and when a project draws no warnings.

use vstd::prelude::*;

use crate::browser::{browser_rows, is_link_target, row_of, row_shown, search_key, title_order, RowView};
use crate::commands::{apply_command_spec, Command};
use crate::editor::{line_order, sorted_lines};
use crate::frontmatter::{
    after_first_line, after_opening, closing_delimiter, dashes, filter_block, first_line,
    first_newline, is_delimiter_line, is_removed_line, lemma_first_newline, lemma_first_newline_at,
    line_end, stripped,
    trim_end_newlines,
};
use crate::icons::{category_rank, in_table_order, table_order, IconSource};
use crate::ordering::{is_sorted_by, is_total_preorder, lemma_lex_total_preorder, lemma_sort_sorted, lex_le};
use crate::server::{in_listing_order, listing_order, EntryView};
use crate::urls::{hex_digit, is_uri_component_safe, percent_encoded, percent_escape};
use crate::history::{after_execute, after_redo, after_undo, HistoryView};
use crate::mutations::{
    ensure_location, first_index_of, hidden_from, lemma_first_index, link_ids, location_index,
    revealed_with, save_link_spec, set_field_spec, toggled, with_fog, LinkPatch, MutationError,
};
use crate::project::{HexenProject, Link, LocationView, ProjectView};
use crate::project_io::{duplicate_warnings, link_warnings, reference_warnings, unknown_target_warnings};
use crate::recents::{moved_to_front, MAX_RECENT};
use crate::save_queue::{after_offer, after_take, SaveQueue};
use crate::icons::split_on;
use crate::migrate::{is_migrated_document, is_oneof_of, key_index, Yaml};
use crate::paths::{clean_stack, clean_step, cleaned_path, collected, path_components, pushed, resolved, joined_path};
use crate::text::{find, find_from, lemma_find_from, matches_at};
use crate::slug::{note_slug, title_slug, trim_dashes, trim_end_dashes, trim_start_dashes};

verus! {

/// A command that fails leaves the project as it was.
pub proof fn failed_command_changes_nothing(
    old: ProjectView,
    new: ProjectView,
    command: Command,
    e: MutationError,
)
    requires
        apply_command_spec(old, new, command, Err(e)),
    ensures
        new == old,
{
}

/// Undoing a command that landed brings back the project before it, with
/// the command's result the one thing left to redo.
pub proof fn undo_reverts_execute(h: HistoryView, next: ProjectView)
    ensures
        after_undo(after_execute(h, next)) == (HistoryView {
            past: h.past,
            present: h.present,
            future: seq![next],
        }),
{
    let e = after_execute(h, next);
    assert(e.past.drop_last() =~= h.past);
    assert(e.future.push(next) =~= seq![next]);
}

/// Redoing what was just undone gives back the history as it was.
pub proof fn redo_reverts_undo(h: HistoryView)
    requires
        h.past.len() > 0,
    ensures
        after_redo(after_undo(h)) == h,
{
    let u = after_undo(h);
    assert(u.past.push(u.present) =~= h.past);
    assert(u.future.drop_last() =~= h.future);
}

/// Undoing what was just redone gives back the history as it was.
pub proof fn undo_reverts_redo(h: HistoryView)
    requires
        h.future.len() > 0,
    ensures
        after_undo(after_redo(h)) == h,
{
    let r = after_redo(h);
    assert(r.past.drop_last() =~= h.past);
    assert(r.future.push(r.present) =~= h.future);
}

/// After a command lands there is nothing to redo.
pub proof fn execute_drops_redo(h: HistoryView, next: ProjectView)
    ensures
        after_redo(after_execute(h, next)) == after_execute(h, next),
        after_execute(h, next).present == next,
{
}

/// Undo with nothing to undo, and redo with nothing to redo, change
/// nothing.
pub proof fn empty_steps_change_nothing(h: HistoryView)
    ensures
        h.past.len() == 0 ==> after_undo(h) == h,
        h.future.len() == 0 ==> after_redo(h) == h,
{
}

/// Adding a Location that is already there changes nothing, so adding one
/// twice is adding it once.
pub proof fn adding_a_location_twice_is_adding_it_once(p: ProjectView, id: Seq<char>)
    ensures
        ensure_location(ensure_location(p, id), id) == ensure_location(p, id),
        location_index(ensure_location(p, id), id) is Some,
{
    let q = ensure_location(p, id);
    let ids = q.locations.map_values(|l: crate::project::LocationView| l.id);
    lemma_first_index(p.locations.map_values(|l: crate::project::LocationView| l.id), id);
    lemma_first_index(ids, id);
    if location_index(p, id) is None {
        assert(ids[q.locations.len() - 1] == id);
    }
}

proof fn lemma_revealed_contains(cells: Seq<Seq<char>>, more: Seq<Seq<char>>)
    ensures
        forall|x: Seq<char>|
            #[trigger] revealed_with(cells, more).contains(x) <==> (cells.contains(x) || more.contains(x)),
    decreases more.len(),
{
    if more.len() > 0 {
        let next = if cells.contains(more[0]) {
            cells
        } else {
            cells.push(more[0])
        };
        lemma_revealed_contains(next, more.drop_first());
        assert forall|x: Seq<char>| #[trigger] revealed_with(cells, more).contains(x) <==> (
        cells.contains(x) || more.contains(x)) by {
            assert(revealed_with(cells, more) == revealed_with(next, more.drop_first()));
            if more.contains(x) && x != more[0] {
                let k = choose|k: int| 0 <= k < more.len() && more[k] == x;
                assert(more.drop_first()[k - 1] == x);
            }
            if more.drop_first().contains(x) {
                let k = choose|k: int| 0 <= k < more.drop_first().len() && more.drop_first()[k] == x;
                assert(more[k + 1] == x);
            }
            if next.contains(x) && !cells.contains(x) {
                let k = choose|k: int| 0 <= k < next.len() && next[k] == x;
                assert(k == cells.len());
                assert(more[0] == x);
            }
            if cells.contains(x) {
                let k = choose|k: int| 0 <= k < cells.len() && cells[k] == x;
                assert(next[k] == x);
            }
            if x == more[0] && !cells.contains(x) {
                assert(next[cells.len() as int] == x);
            }
        }
    }
}

proof fn lemma_reveal_known(cells: Seq<Seq<char>>, more: Seq<Seq<char>>)
    requires
        forall|i: int| 0 <= i < more.len() ==> cells.contains(#[trigger] more[i]),
    ensures
        revealed_with(cells, more) == cells,
    decreases more.len(),
{
    if more.len() > 0 {
        assert(cells.contains(more[0]));
        assert forall|i: int| 0 <= i < more.drop_first().len() implies cells.contains(
            #[trigger] more.drop_first()[i],
        ) by {
            assert(more.drop_first()[i] == more[i + 1]);
        }
        lemma_reveal_known(cells, more.drop_first());
    }
}

/// Revealing cells holds exactly the cells it had and the ones revealed.
pub proof fn revealed_cells_are_the_union(cells: Seq<Seq<char>>, more: Seq<Seq<char>>, x: Seq<char>)
    ensures
        revealed_with(cells, more).contains(x) <==> (cells.contains(x) || more.contains(x)),
{
    lemma_revealed_contains(cells, more);
}

/// Revealing the same cells again changes nothing.
pub proof fn revealing_twice_is_revealing_once(cells: Seq<Seq<char>>, more: Seq<Seq<char>>)
    ensures
        revealed_with(revealed_with(cells, more), more) == revealed_with(cells, more),
{
    lemma_revealed_contains(cells, more);
    let r = revealed_with(cells, more);
    assert forall|i: int| 0 <= i < more.len() implies r.contains(#[trigger] more[i]) by {
        assert(more.contains(more[i]));
    }
    lemma_reveal_known(r, more);
}

proof fn lemma_filter_subset<T>(s: Seq<T>, pred: spec_fn(T) -> bool, x: T)
    ensures
        s.filter(pred).contains(x) ==> s.contains(x) && pred(x),
    decreases s.len(),
{
    reveal(Seq::filter);
    if s.len() > 0 {
        lemma_filter_subset(s.drop_last(), pred, x);
        let f = s.drop_last().filter(pred);
        if s.filter(pred).contains(x) {
            let k = choose|k: int| 0 <= k < s.filter(pred).len() && s.filter(pred)[k] == x;
            if pred(s.last()) && k == f.len() {
                assert(s[s.len() - 1] == x);
            } else {
                assert(f[k] == x);
                let j = choose|j: int| 0 <= j < s.drop_last().len() && s.drop_last()[j] == x;
                assert(s[j] == x);
            }
        }
    }
}

/// Hiding cells keeps exactly the cells that are not hidden.
pub proof fn hidden_cells_are_gone(cells: Seq<Seq<char>>, hide: Seq<Seq<char>>, x: Seq<char>)
    ensures
        hidden_from(cells, hide).contains(x) <==> (cells.contains(x) && !hide.contains(x)),
{
    let pred = |c: Seq<char>| !hide.contains(c);
    if cells.contains(x) && !hide.contains(x) {
        cells.lemma_filter_contains_rev(pred, x);
    }
    lemma_filter_subset(cells, pred, x);
}

/// Toggling a hidden cell twice leaves the fog as it was.
pub proof fn toggling_a_cell_twice_restores_the_fog(cells: Seq<Seq<char>>, cell: Seq<char>)
    requires
        !cells.contains(cell),
    ensures
        toggled(cells, cell) == cells.push(cell),
        toggled(toggled(cells, cell), cell) == cells,
{
    lemma_first_index(cells, cell);
    if let Some(k) = first_index_of(cells, cell) {
        assert(cells[k] == cell);
    }
    let t = cells.push(cell);
    lemma_first_index(t, cell);
    match first_index_of(t, cell) {
        Some(k) => {
            if k < cells.len() {
                assert(cells[k] == cell);
            }
            assert(t.remove(k) =~= cells);
        },
        None => {
            assert(t[cells.len() as int] == cell);
        },
    }
}

/// Opening a project puts it first on the recent list, once, and the list
/// never grows past its cap.
pub proof fn the_latest_recent_comes_first_once<T>(items: Seq<T>, first: T)
    ensures
        moved_to_front(items, first).len() >= 1,
        moved_to_front(items, first).len() <= MAX_RECENT,
        moved_to_front(items, first)[0] == first,
        forall|i: int|
            1 <= i < moved_to_front(items, first).len() ==> #[trigger] moved_to_front(items, first)[i]
                != first,
{
    let pred = |x: T| x != first;
    let rest = items.filter(pred);
    let all = seq![first] + rest;
    assert forall|i: int| 1 <= i < moved_to_front(items, first).len() implies #[trigger] moved_to_front(
        items,
        first,
    )[i] != first by {
        assert(moved_to_front(items, first)[i] == all[i]);
        assert(all[i] == rest[i - 1]);
        items.lemma_filter_pred(pred, i - 1);
    }
}

proof fn lemma_filter_no_duplicates<T>(s: Seq<T>, pred: spec_fn(T) -> bool)
    requires
        s.no_duplicates(),
    ensures
        s.filter(pred).no_duplicates(),
    decreases s.len(),
{
    reveal(Seq::filter);
    if s.len() > 0 {
        let init = s.drop_last();
        assert(init.no_duplicates()) by {
            assert forall|i: int, j: int| 0 <= i < init.len() && 0 <= j < init.len() && i != j implies init[i]
                != init[j] by {
                assert(init[i] == s[i] && init[j] == s[j]);
            }
        }
        lemma_filter_no_duplicates(init, pred);
        let f = init.filter(pred);
        if pred(s.last()) {
            if f.contains(s.last()) {
                init.lemma_filter_contains_rev(pred, s.last());
                let k = choose|k: int| 0 <= k < init.len() && init[k] == s.last();
                assert(s[k] == s[s.len() - 1]);
            }
            assert(s.filter(pred) =~= f.push(s.last()));
            assert forall|i: int, j: int|
                0 <= i < f.push(s.last()).len() && 0 <= j < f.push(s.last()).len() && i != j implies f.push(
                s.last(),
            )[i] != f.push(s.last())[j] by {
                if i == f.len() {
                    assert(f.contains(f[j]));
                } else if j == f.len() {
                    assert(f.contains(f[i]));
                }
            }
        }
    }
}

/// A recent list without repeats keeps none after an opening.
pub proof fn opening_keeps_recents_unique<T>(items: Seq<T>, first: T)
    requires
        items.no_duplicates(),
    ensures
        moved_to_front(items, first).no_duplicates(),
{
    let pred = |x: T| x != first;
    let rest = items.filter(pred);
    lemma_filter_no_duplicates(items, pred);
    let all = seq![first] + rest;
    assert forall|i: int, j: int| 0 <= i < all.len() && 0 <= j < all.len() && i != j implies all[i]
        != all[j] by {
        if i == 0 {
            items.lemma_filter_pred(pred, j - 1);
        } else if j == 0 {
            items.lemma_filter_pred(pred, i - 1);
        } else {
            assert(all[i] == rest[i - 1] && all[j] == rest[j - 1]);
        }
    }
    let r = moved_to_front(items, first);
    assert forall|i: int, j: int| 0 <= i < r.len() && 0 <= j < r.len() && i != j implies r[i] != r[j] by {
        assert(r[i] == all[i] && r[j] == all[j]);
    }
}

proof fn lemma_filter_keeps_all<T>(s: Seq<T>, pred: spec_fn(T) -> bool)
    requires
        forall|i: int| 0 <= i < s.len() ==> pred(#[trigger] s[i]),
    ensures
        s.filter(pred) == s,
    decreases s.len(),
{
    reveal(Seq::filter);
    if s.len() > 0 {
        assert forall|i: int| 0 <= i < s.drop_last().len() implies pred(#[trigger] s.drop_last()[i]) by {
            assert(s.drop_last()[i] == s[i]);
        }
        lemma_filter_keeps_all(s.drop_last(), pred);
        assert(pred(s.last()));
        assert(s.drop_last().push(s.last()) =~= s);
    }
}

/// Opening the project that is already first changes nothing.
pub proof fn reopening_the_latest_changes_nothing<T>(items: Seq<T>, first: T)
    ensures
        moved_to_front(moved_to_front(items, first), first) == moved_to_front(items, first),
{
    the_latest_recent_comes_first_once(items, first);
    let r = moved_to_front(items, first);
    let pred = |x: T| x != first;
    let tail = r.drop_first();
    assert forall|i: int| 0 <= i < tail.len() implies pred(#[trigger] tail[i]) by {
        assert(tail[i] == r[i + 1]);
    }
    lemma_filter_keeps_all(tail, pred);
    assert(r =~= seq![first] + tail);
    let e = Seq::<T>::empty();
    assert(e.filter(pred) =~= e) by {
        reveal(Seq::filter);
    }
    e.lemma_filter_push(first, pred);
    assert(e.push(first) =~= seq![first]);
    Seq::filter_distributes_over_add(seq![first], tail, pred);
    assert(r.filter(pred) =~= tail);
    assert(seq![first] + r.filter(pred) =~= r);
}

proof fn lemma_no_duplicates(ids: Seq<Seq<char>>)
    requires
        forall|i: int, j: int| 0 <= i < j < ids.len() ==> ids[i] != ids[j],
    ensures
        duplicate_warnings(ids) == Seq::<Seq<char>>::empty(),
    decreases ids.len(),
{
    if ids.len() > 0 {
        lemma_no_duplicates(ids.drop_last());
        if ids.drop_last().contains(ids.last()) {
            let k = choose|k: int| 0 <= k < ids.drop_last().len() && ids.drop_last()[k] == ids.last();
            assert(ids[k] == ids[ids.len() - 1]);
        }
        assert(duplicate_warnings(ids) =~= Seq::<Seq<char>>::empty());
    }
}

proof fn lemma_no_unknown_targets(location: Seq<char>, links: Seq<Link>, ids: Seq<Seq<char>>)
    requires
        forall|j: int| 0 <= j < links.len() ==> ids.contains(#[trigger] links[j].target@),
    ensures
        unknown_target_warnings(location, links, ids) == Seq::<Seq<char>>::empty(),
    decreases links.len(),
{
    if links.len() > 0 {
        assert forall|j: int| 0 <= j < links.drop_last().len() implies ids.contains(
            #[trigger] links.drop_last()[j].target@,
        ) by {
            assert(links.drop_last()[j] == links[j]);
        }
        lemma_no_unknown_targets(location, links.drop_last(), ids);
        assert(ids.contains(links[links.len() - 1].target@));
        assert(unknown_target_warnings(location, links, ids) =~= Seq::<Seq<char>>::empty());
    }
}

proof fn lemma_no_link_warnings(locations: Seq<LocationView>, ids: Seq<Seq<char>>)
    requires
        forall|i: int, j: int|
            0 <= i < locations.len() && 0 <= j < locations[i].links.len() ==> ids.contains(
                #[trigger] locations[i].links[j].target@,
            ),
    ensures
        link_warnings(locations, ids) == Seq::<Seq<char>>::empty(),
    decreases locations.len(),
{
    if locations.len() > 0 {
        let init = locations.drop_last();
        assert forall|i: int, j: int|
            0 <= i < init.len() && 0 <= j < init[i].links.len() implies ids.contains(
            #[trigger] init[i].links[j].target@,
        ) by {
            assert(init[i] == locations[i]);
        }
        lemma_no_link_warnings(init, ids);
        let last = locations.last();
        assert forall|j: int| 0 <= j < last.links.len() implies ids.contains(
            #[trigger] last.links[j].target@,
        ) by {
            assert(locations[locations.len() - 1].links[j] == last.links[j]);
        }
        lemma_no_unknown_targets(last.id, last.links, ids);
        assert(link_warnings(locations, ids) =~= Seq::<Seq<char>>::empty());
    }
}

/// A project whose Location ids are all different, whose default Location
/// exists and whose every Link points at an existing Location draws no
/// warnings.
pub proof fn a_consistent_project_draws_no_warnings(p: ProjectView)
    requires
        forall|i: int, j: int|
            0 <= i < j < p.locations.len() ==> p.locations[i].id != p.locations[j].id,
        exists|i: int| 0 <= i < p.locations.len() && p.locations[i].id == p.default_location,
        forall|i: int, j: int|
            0 <= i < p.locations.len() && 0 <= j < p.locations[i].links.len() ==> exists|k: int|
                0 <= k < p.locations.len() && p.locations[k].id == #[trigger] p.locations[i].links[j].target@,
    ensures
        reference_warnings(p) == Seq::<Seq<char>>::empty(),
{
    let ids = p.locations.map_values(|l: LocationView| l.id);
    assert forall|i: int, j: int| 0 <= i < j < ids.len() implies ids[i] != ids[j] by {
        assert(ids[i] == p.locations[i].id);
        assert(ids[j] == p.locations[j].id);
    }
    lemma_no_duplicates(ids);
    let d = choose|i: int| 0 <= i < p.locations.len() && p.locations[i].id == p.default_location;
    assert(ids[d] == p.default_location);
    assert forall|i: int, j: int|
        0 <= i < p.locations.len() && 0 <= j < p.locations[i].links.len() implies ids.contains(
        #[trigger] p.locations[i].links[j].target@,
    ) by {
        let k = choose|k: int|
            0 <= k < p.locations.len() && p.locations[k].id == p.locations[i].links[j].target@;
        assert(ids[k] == p.locations[k].id);
    }
    lemma_no_link_warnings(p.locations, ids);
    assert(reference_warnings(p) =~= Seq::<Seq<char>>::empty());
}

proof fn lemma_trim_start(s: Seq<char>)
    ensures
        trim_start_dashes(s).len() == 0 || trim_start_dashes(s)[0] != '-',
    decreases s.len(),
{
    if s.len() > 0 && s[0] == '-' {
        lemma_trim_start(s.drop_first());
    }
}

proof fn lemma_trim_end(s: Seq<char>)
    ensures
        trim_end_dashes(s).len() <= s.len(),
        trim_end_dashes(s) == s.take(trim_end_dashes(s).len() as int),
        trim_end_dashes(s).len() == 0 || trim_end_dashes(s).last() != '-',
    decreases s.len(),
{
    if s.len() > 0 && s.last() == '-' {
        lemma_trim_end(s.drop_last());
        assert(s.drop_last().take(trim_end_dashes(s).len() as int) =~= s.take(
            trim_end_dashes(s).len() as int,
        ));
    } else {
        assert(s.take(s.len() as int) =~= s);
    }
}

proof fn lemma_trimmed_dashes(s: Seq<char>)
    ensures
        trim_dashes(s).len() == 0 || (trim_dashes(s)[0] != '-' && trim_dashes(s).last() != '-'),
{
    let t = trim_start_dashes(s);
    lemma_trim_start(s);
    lemma_trim_end(t);
    if trim_dashes(s).len() > 0 {
        assert(trim_dashes(s)[0] == t.take(trim_dashes(s).len() as int)[0]);
    }
}

/// A Location id made from a note's name or a project's title never
/// starts or ends with `-`.
pub proof fn slugs_have_no_outer_dashes(text: Seq<char>)
    ensures
        note_slug(text).len() == 0 || (note_slug(text)[0] != '-' && note_slug(text).last() != '-'),
        title_slug(text).len() > 0,
        title_slug(text)[0] != '-' && title_slug(text).last() != '-',
{
    lemma_trimmed_dashes(
        crate::slug::hyphenated(
            crate::slug::unicode_lowercase(crate::slug::folded(crate::slug::nfkd(text))).filter(
                |c: char| c != '\'',
            ),
        ),
    );
    lemma_trimmed_dashes(
        crate::slug::hyphenated(crate::slug::unicode_lowercase(crate::content::trimmed(text))),
    );
}

/// What a note's name hyphenates: decomposed, accents dropped,
/// lower-cased, apostrophes removed.
pub open spec fn note_letters(text: Seq<char>) -> Seq<char> {
    crate::slug::unicode_lowercase(crate::slug::folded(crate::slug::nfkd(text))).filter(|c: char| c != '\'')
}

/// Only slug characters and `-`, never two `-` in a row.
pub open spec fn slug_shaped(s: Seq<char>) -> bool {
    &&& forall|i: int| 0 <= i < s.len() ==> crate::slug::is_slug_char(#[trigger] s[i]) || s[i] == '-'
    &&& forall|i: int| 0 <= i < s.len() - 1 ==> !(#[trigger] s[i] == '-' && s[i + 1] == '-')
}

proof fn lemma_hyphenated_shaped(t: Seq<char>)
    ensures
        slug_shaped(crate::slug::hyphenated(t)),
    decreases t.len(),
{
    if t.len() > 0 {
        lemma_hyphenated_shaped(t.drop_last());
        let prev = crate::slug::hyphenated(t.drop_last());
        let h = crate::slug::hyphenated(t);
        assert forall|i: int| 0 <= i < h.len() implies crate::slug::is_slug_char(#[trigger] h[i]) || h[i] == '-' by {
            if i < prev.len() {
                assert(h[i] == prev[i]);
            }
        }
        assert forall|i: int| 0 <= i < h.len() - 1 implies !(#[trigger] h[i] == '-' && h[i + 1] == '-') by {
            if i + 1 < prev.len() {
                assert(h[i] == prev[i] && h[i + 1] == prev[i + 1]);
            } else if h.len() > prev.len() {
                assert(h[i] == prev[i]);
            }
        }
    }
}

proof fn lemma_shaped_drop_first(s: Seq<char>)
    requires
        slug_shaped(s),
        s.len() > 0,
    ensures
        slug_shaped(s.drop_first()),
{
    let d = s.drop_first();
    assert forall|i: int| 0 <= i < d.len() implies crate::slug::is_slug_char(#[trigger] d[i]) || d[i] == '-' by {
        assert(d[i] == s[i + 1]);
    }
    assert forall|i: int| 0 <= i < d.len() - 1 implies !(#[trigger] d[i] == '-' && d[i + 1] == '-') by {
        assert(d[i] == s[i + 1] && d[i + 1] == s[i + 2]);
    }
}

proof fn lemma_shaped_drop_last(s: Seq<char>)
    requires
        slug_shaped(s),
        s.len() > 0,
    ensures
        slug_shaped(s.drop_last()),
{
    let d = s.drop_last();
    assert forall|i: int| 0 <= i < d.len() implies crate::slug::is_slug_char(#[trigger] d[i]) || d[i] == '-' by {
        assert(d[i] == s[i]);
    }
    assert forall|i: int| 0 <= i < d.len() - 1 implies !(#[trigger] d[i] == '-' && d[i + 1] == '-') by {
        assert(d[i] == s[i] && d[i + 1] == s[i + 1]);
    }
}

proof fn lemma_trim_start_shaped(s: Seq<char>)
    requires
        slug_shaped(s),
    ensures
        slug_shaped(crate::slug::trim_start_dashes(s)),
    decreases s.len(),
{
    if s.len() > 0 && s[0] == '-' {
        lemma_shaped_drop_first(s);
        lemma_trim_start_shaped(s.drop_first());
    }
}

proof fn lemma_trim_end_shaped(s: Seq<char>)
    requires
        slug_shaped(s),
    ensures
        slug_shaped(crate::slug::trim_end_dashes(s)),
    decreases s.len(),
{
    if s.len() > 0 && s.last() == '-' {
        lemma_shaped_drop_last(s);
        lemma_trim_end_shaped(s.drop_last());
    }
}

proof fn lemma_trimmed_hyphenated_shaped(t: Seq<char>)
    ensures
        slug_shaped(crate::slug::trim_dashes(crate::slug::hyphenated(t))),
{
    lemma_hyphenated_shaped(t);
    lemma_trim_start_shaped(crate::slug::hyphenated(t));
    lemma_trim_end_shaped(crate::slug::trim_start_dashes(crate::slug::hyphenated(t)));
}

/// A Location id made from a note's name or a project's title holds only
/// `a`–`z`, `0`–`9` and `-`, never two `-` in a row; what a note name
/// hyphenates holds no apostrophe, so an apostrophe never becomes `-`.
pub proof fn slugs_are_lowercase_words_joined_by_single_dashes(text: Seq<char>)
    ensures
        slug_shaped(note_slug(text)),
        slug_shaped(title_slug(text)),
        forall|i: int| 0 <= i < note_letters(text).len() ==> #[trigger] note_letters(text)[i] != '\'',
{
    lemma_trimmed_hyphenated_shaped(
        crate::slug::unicode_lowercase(crate::slug::folded(crate::slug::nfkd(text))).filter(
            |c: char| c != '\'',
        ),
    );
    lemma_trimmed_hyphenated_shaped(crate::slug::unicode_lowercase(crate::content::trimmed(text)));
    let loc = seq!['l', 'o', 'c', 'a', 't', 'i', 'o', 'n'];
    assert(slug_shaped(loc));
    let lowered = crate::slug::unicode_lowercase(crate::slug::folded(crate::slug::nfkd(text)));
    assert forall|i: int| 0 <= i < note_letters(text).len() implies #[trigger] note_letters(text)[i] != '\'' by {
        lowered.lemma_filter_pred(|c: char| c != '\'', i);
    }
}

/// Saving coalesces: of two snapshots offered before the writer takes
/// one, only the newer is written, and the second offer starts no second
/// writer.
pub proof fn the_newest_snapshot_is_the_one_saved(q: SaveQueue, first: HexenProject, second: HexenProject)
    ensures
        after_offer(after_offer(q, first), second) == after_offer(q, second),
        after_offer(q, first).writing,
        after_take(after_offer(after_offer(q, first), second)).writing,
        after_take(after_take(after_offer(q, first))) == (SaveQueue { unsaved: None, writing: false }),
{
}

/// The location browser lists exactly the Locations that pass its
/// filters, each once, sorted by title.
pub proof fn browser_rows_are_sorted_by_title(
    p: ProjectView,
    resolved: Map<Seq<char>, crate::project::ResolvedContent>,
    query: Seq<char>,
    maps_only: bool,
    orphans_only: bool,
)
    ensures
        is_sorted_by(browser_rows(p, resolved, query, maps_only, orphans_only), title_order()),
        browser_rows(p, resolved, query, maps_only, orphans_only).to_multiset() == p.locations.map_values(
            |l: LocationView| row_of(p, resolved, l),
        ).filter(|r: RowView| row_shown(r, search_key(query), maps_only, orphans_only)).to_multiset(),
{
    lemma_lex_total_preorder();
    let le = title_order();
    assert(is_total_preorder(le)) by {
        assert forall|a: RowView, b: RowView| #[trigger] le(a, b) || le(b, a) by {
            assert(lex_le(a.title, b.title) || lex_le(b.title, a.title));
        }
        assert forall|a: RowView, b: RowView, c: RowView| #[trigger] le(a, b) && #[trigger] le(b, c)
            implies le(a, c) by {
            assert(lex_le(a.title, b.title) && lex_le(b.title, c.title));
        }
    }
    lemma_sort_sorted(
        p.locations.map_values(|l: LocationView| row_of(p, resolved, l)).filter(
            |r: RowView| row_shown(r, search_key(query), maps_only, orphans_only),
        ),
        le,
    );
}

/// The icon table lists every source once, by category, then by slug.
pub proof fn icon_table_is_in_category_then_slug_order(sources: Seq<IconSource>)
    ensures
        is_sorted_by(in_table_order(sources), table_order()),
        in_table_order(sources).to_multiset() == sources.to_multiset(),
{
    lemma_lex_total_preorder();
    let le = table_order();
    assert(is_total_preorder(le)) by {
        assert forall|a: IconSource, b: IconSource| #[trigger] le(a, b) || le(b, a) by {
            assert(lex_le(a.slug@, b.slug@) || lex_le(b.slug@, a.slug@));
        }
        assert forall|a: IconSource, b: IconSource, c: IconSource|
            #[trigger] le(a, b) && #[trigger] le(b, c) implies le(a, c) by {
            if category_rank(a.category) == category_rank(b.category) && category_rank(b.category)
                == category_rank(c.category) {
                assert(lex_le(a.slug@, b.slug@) && lex_le(b.slug@, c.slug@));
            }
        }
    }
    lemma_sort_sorted(sources, le);
}

/// A directory listing keeps every entry once, directories first, each
/// group by name.
pub proof fn listings_put_directories_first(entries: Seq<EntryView>)
    ensures
        is_sorted_by(in_listing_order(entries), listing_order()),
        in_listing_order(entries).to_multiset() == entries.to_multiset(),
{
    lemma_lex_total_preorder();
    let le = listing_order();
    assert(is_total_preorder(le)) by {
        assert forall|a: EntryView, b: EntryView| #[trigger] le(a, b) || le(b, a) by {
            assert(lex_le(a.name, b.name) || lex_le(b.name, a.name));
        }
        assert forall|a: EntryView, b: EntryView, c: EntryView| #[trigger] le(a, b) && #[trigger] le(
            b,
            c,
        ) implies le(a, c) by {
            if a.is_directory == b.is_directory && b.is_directory == c.is_directory {
                assert(lex_le(a.name, b.name) && lex_le(b.name, c.name));
            }
        }
    }
    lemma_sort_sorted(entries, le);
}

/// The warnings list's resolution errors come sorted, each once.
pub proof fn warning_lines_are_sorted(lines: Seq<Seq<char>>)
    ensures
        is_sorted_by(sorted_lines(lines), line_order()),
        sorted_lines(lines).to_multiset() == lines.to_multiset(),
{
    lemma_lex_total_preorder();
    let le = line_order();
    assert(is_total_preorder(le)) by {
        assert forall|a: Seq<char>, b: Seq<char>| #[trigger] le(a, b) || le(b, a) by {
            assert(lex_le(a, b) || lex_le(b, a));
        }
        assert forall|a: Seq<char>, b: Seq<char>, c: Seq<char>| #[trigger] le(a, b) && #[trigger] le(
            b,
            c,
        ) implies le(a, c) by {
            assert(lex_le(a, b) && lex_le(b, c));
        }
    }
    lemma_sort_sorted(lines, le);
}

/// A character `encodeURIComponent` may write: `%` or a byte it leaves
/// alone.
pub open spec fn is_uri_component_char(c: char) -> bool {
    c == '%' || ((c as u32) < 128 && is_uri_component_safe(c as u8))
}

proof fn lemma_hex_digit_safe(n: u8)
    requires
        n < 16,
    ensures
        is_uri_component_char(hex_digit(n)),
{
    if n < 10 {
        assert(('0' as u8 + n) as char == hex_digit(n));
        assert((hex_digit(n) as u32) == 48 + n);
    } else {
        assert((hex_digit(n) as u32) == 65 + n - 10);
    }
}

/// What `encode` writes for `bytes`.
pub open spec fn uri_component_encoded(bytes: Seq<u8>) -> Seq<char> {
    percent_encoded(bytes, |b: u8| is_uri_component_safe(b))
}

/// Percent-encoding for a URI component writes nothing but `%`, hex
/// digits and the bytes it leaves alone.
pub proof fn encoded_components_are_uri_safe(bytes: Seq<u8>)
    ensures
        forall|i: int|
            0 <= i < uri_component_encoded(bytes).len() ==> is_uri_component_char(
                #[trigger] uri_component_encoded(bytes)[i],
            ),
    decreases bytes.len(),
{
    if bytes.len() > 0 {
        let keep = |b: u8| is_uri_component_safe(b);
        encoded_components_are_uri_safe(bytes.drop_last());
        let head = uri_component_encoded(bytes.drop_last());
        let b = bytes.last();
        let tail = if keep(b) {
            seq![b as char]
        } else {
            percent_escape(b)
        };
        if keep(b) {
            assert((b as char) as u32 == b);
            assert((b as char) as u8 == b);
        } else {
            lemma_hex_digit_safe(b / 16);
            lemma_hex_digit_safe(b % 16);
        }
        let all = uri_component_encoded(bytes);
        assert(all == head + tail);
        assert forall|i: int| 0 <= i < all.len() implies is_uri_component_char(#[trigger] all[i]) by {
            if i < head.len() {
                assert(all[i] == head[i]);
            } else {
                assert(all[i] == tail[i - head.len()]);
            }
        }
    }
}

/// A frontmatter block made of whole lines (each ending in `\n`), none of
/// them a `---` line, none with a `\r` right before its `\n`, and none a
/// `key:` line for one of `fields`.
pub open spec fn untouched_block(block: Seq<char>, fields: Seq<Seq<char>>) -> bool
    decreases block.len(),
{
    if block.len() == 0 {
        true
    } else {
        proof {
            lemma_first_newline(block);
        }
        let j = first_newline(block);
        let line = block.take(j);
        &&& j < block.len()
        &&& (j == 0 || line[j - 1] != '\r')
        &&& line != dashes()
        &&& !is_removed_line(line, fields)
        &&& untouched_block(block.skip(j + 1), fields)
    }
}

proof fn lemma_first_newline_prefix(block: Seq<char>, tail: Seq<char>)
    requires
        first_newline(block) < block.len(),
    ensures
        first_newline(block + tail) == first_newline(block),
    decreases block.len(),
{
    if block[0] != '\n' {
        lemma_first_newline_prefix(block.drop_first(), tail);
        assert((block + tail).drop_first() =~= block.drop_first() + tail);
    }
}

proof fn lemma_trim_plain_line(line: Seq<char>)
    requires
        line.len() > 0 ==> line.last() != '\r' && line.last() != '\n',
    ensures
        trim_end_newlines(line.push('\n')) == line,
{
    assert(line.push('\n').drop_last() =~= line);
    assert(trim_end_newlines(line.push('\n')) == trim_end_newlines(line));
    if line.len() > 0 {
        assert(line.last() != '\r' && line.last() != '\n');
    }
    assert(trim_end_newlines(line) == line);
}

proof fn lemma_untouched_kept(block: Seq<char>, fields: Seq<Seq<char>>)
    requires
        untouched_block(block, fields),
    ensures
        filter_block(block, fields) == (block, Seq::<Seq<char>>::empty()),
    decreases block.len(),
{
    if block.len() > 0 {
        lemma_first_newline(block);
        let j = first_newline(block);
        if j > 0 {
            assert(block.take(j)[j - 1] == block[j - 1]);
        }
        assert(first_line(block) == block.take(j));
        assert(after_first_line(block) == block.skip(j + 1));
        lemma_untouched_kept(block.skip(j + 1), fields);
        assert(block.take(j) + seq!['\n'] + block.skip(j + 1) =~= block);
    }
}

proof fn lemma_untouched_closing(block: Seq<char>, tail: Seq<char>, fields: Seq<Seq<char>>)
    requires
        untouched_block(block, fields),
    ensures
        closing_delimiter(block + tail) == match closing_delimiter(tail) {
            Some((a, b)) => Some((a + block.len(), b + block.len())),
            None => None,
        },
    decreases block.len(),
{
    if block.len() == 0 {
        assert(block + tail =~= tail);
    } else {
        let s = block + tail;
        lemma_first_newline(block);
        let j = first_newline(block);
        lemma_first_newline_prefix(block, tail);
        assert(line_end(s) == j + 1);
        let line = block.take(j);
        assert(s.take(j + 1) =~= line.push('\n'));
        if j > 0 {
            assert(line.last() == block[j - 1]);
        }
        lemma_trim_plain_line(line);
        assert(!is_delimiter_line(s.take(j + 1)));
        assert(s.skip(j + 1) =~= block.skip(j + 1) + tail);
        lemma_untouched_closing(block.skip(j + 1), tail, fields);
    }
}

/// Stripping fields a note's frontmatter does not have leaves the note as
/// it was, byte for byte, when its block is plain `\n`-ended lines closed
/// by a `---` line; a note without frontmatter is always left alone.
pub proof fn stripping_absent_fields_changes_nothing(
    block: Seq<char>,
    body: Seq<char>,
    fields: Seq<Seq<char>>,
)
    requires
        untouched_block(block, fields),
    ensures
        stripped(dashes().push('\n') + block + dashes().push('\n') + body, fields) == (
            dashes().push('\n') + block + dashes().push('\n') + body,
            Seq::<Seq<char>>::empty(),
        ),
{
    let open = dashes().push('\n');
    let raw = open + block + open + body;
    let rest = block + open + body;
    assert(raw.take(4) =~= open);
    assert(raw.skip(4) =~= rest);
    assert(after_opening(raw) == Some(rest));
    let tail = open + body;
    lemma_first_newline(tail);
    assert(tail[3] == '\n');
    assert(first_newline(tail) == 3) by {
        assert(tail[0] == '-' && tail[1] == '-' && tail[2] == '-');
        assert(tail.drop_first().drop_first().drop_first()[0] == '\n');
    }
    assert(tail.take(4) =~= dashes().push('\n'));
    lemma_trim_plain_line(dashes());
    assert(closing_delimiter(tail) == Some((0int, 4int)));
    assert(block + open + body =~= block + tail);
    lemma_untouched_closing(block, tail, fields);
    assert(rest.take(block.len() as int) =~= block);
    lemma_untouched_kept(block, fields);
    assert(rest.skip(block.len() + 4int) =~= body);
}

/// A note that does not open with a `---` line is never changed.
pub proof fn notes_without_frontmatter_are_left_alone(raw: Seq<char>, fields: Seq<Seq<char>>)
    requires
        after_opening(raw) is None,
    ensures
        stripped(raw, fields) == (raw, Seq::<Seq<char>>::empty()),
{
}

/// A block of whole lines (each ending in `\n`), none of them a `---`
/// line, as the search for the closing delimiter walks it.
pub open spec fn plain_lines(block: Seq<char>) -> bool
    decreases block.len(),
{
    if block.len() == 0 {
        true
    } else {
        proof {
            lemma_first_newline(block);
        }
        let j = first_newline(block);
        &&& j < block.len()
        &&& !is_delimiter_line(block.take(j + 1))
        &&& plain_lines(block.skip(j + 1))
    }
}

/// Where the closing delimiter line of `s` starts (0 without one).
pub open spec fn closing_start(s: Seq<char>) -> int {
    match closing_delimiter(s) {
        Some((a, _)) => a,
        None => 0,
    }
}

/// Where the closing delimiter line of `s` ends (0 without one).
pub open spec fn closing_end(s: Seq<char>) -> int {
    match closing_delimiter(s) {
        Some((_, b)) => b,
        None => 0,
    }
}

proof fn lemma_before_closing_is_plain(s: Seq<char>)
    requires
        closing_delimiter(s) is Some,
    ensures
        plain_lines(s.take(closing_start(s))),
    decreases s.len(),
{
    lemma_first_newline(s);
    let e = line_end(s);
    if !is_delimiter_line(s.take(e)) {
        let t = s.skip(e);
        lemma_before_closing_is_plain(t);
        let a2 = closing_start(t);
        let a = a2 + e;
        assert(closing_start(s) == a);
        assert(e == first_newline(s) + 1) by {
            if first_newline(s) == s.len() {
                assert(t.len() == 0);
            }
        }
        lemma_closing_bounds(t);
        let block = s.take(a);
        assert(first_newline(s.take(e)) == e - 1) by {
            lemma_first_newline(s.take(e));
            assert(s.take(e)[e - 1] == '\n');
            if first_newline(s.take(e)) < e - 1 {
                assert(s.take(e)[first_newline(s.take(e))] == s[first_newline(s.take(e))]);
            }
        }
        lemma_first_newline_prefix(s.take(e), t.take(a2));
        assert(block =~= s.take(e) + t.take(a2));
        assert(block.take(e) =~= s.take(e));
        assert(block.skip(e) =~= t.take(a2));
    } else {
        assert(s.take(0) =~= Seq::<char>::empty());
    }
}

/// No `\r\r\n` in `s`: no line of it keeps a `\r` once `str::lines`
/// has taken its line ending off.
pub open spec fn no_stray_cr(s: Seq<char>) -> bool {
    forall|i: int| 0 <= i < s.len() - 2 ==> !(#[trigger] s[i] == '\r' && s[i + 1] == '\r' && s[i + 2] == '\n')
}

proof fn lemma_trim_suffix(l: Seq<char>, suffix: Seq<char>)
    requires
        forall|k: int| 0 <= k < suffix.len() ==> suffix[k] == '\r' || suffix[k] == '\n',
    ensures
        trim_end_newlines(l + suffix) == trim_end_newlines(l),
    decreases suffix.len(),
{
    if suffix.len() > 0 {
        assert((l + suffix).drop_last() =~= l + suffix.drop_last());
        assert((l + suffix).last() == suffix.last());
        lemma_trim_suffix(l, suffix.drop_last());
    } else {
        assert(l + suffix =~= l);
    }
}

proof fn lemma_kept_is_untouched(block: Seq<char>, fields: Seq<Seq<char>>)
    requires
        plain_lines(block),
        no_stray_cr(block),
    ensures
        untouched_block(filter_block(block, fields).0, fields),
    decreases block.len(),
{
    if block.len() > 0 {
        lemma_first_newline(block);
        let j = first_newline(block);
        let line = first_line(block);
        assert(after_first_line(block) == block.skip(j + 1));
        let rest = block.skip(j + 1);
        assert forall|i: int| 0 <= i < rest.len() - 2 implies !(#[trigger] rest[i] == '\r' && rest[i + 1] == '\r'
            && rest[i + 2] == '\n') by {
            assert(rest[i] == block[i + j + 1] && rest[i + 1] == block[i + j + 2] && rest[i + 2] == block[i + j + 3]);
        }
        lemma_kept_is_untouched(rest, fields);
        let kept_rest = filter_block(rest, fields).0;
        if !is_removed_line(line, fields) {
            let k = line + seq!['\n'] + kept_rest;
            let cr = j > 0 && block[j - 1] == '\r';
            let suffix = if cr {
                seq!['\r', '\n']
            } else {
                seq!['\n']
            };
            if cr {
                assert(line =~= block.take(j - 1));
                if j >= 2 {
                    assert(block[j - 2] != '\r') by {
                        if block[j - 2] == '\r' {
                            assert(block[j - 2] == '\r' && block[j - 1] == '\r' && block[j] == '\n');
                        }
                    }
                    assert(line.last() == block[j - 2]);
                }
                assert(block.take(j + 1) =~= line + suffix);
            } else {
                assert(line =~= block.take(j));
                if j > 0 {
                    assert(line.last() == block[j - 1]);
                }
                assert(block.take(j + 1) =~= line + suffix);
            }
            assert forall|i: int| 0 <= i < line.len() implies line[i] != '\n' by {
                assert(line[i] == block[i]);
            }
            lemma_trim_suffix(line, suffix);
            assert(line.push('\n') =~= line + seq!['\n']);
            lemma_trim_suffix(line, seq!['\n']);
            lemma_trim_plain_line(line);
            lemma_first_newline_at(k, line.len() as int);
            assert(k.take(line.len() as int) =~= line);
            assert(k.skip(line.len() as int + 1) =~= kept_rest);
        }
    }
}

/// Whether no line of the frontmatter block of `raw` (between its
/// delimiter lines) keeps a `\r` once its line ending is taken off.
pub open spec fn block_without_stray_cr(raw: Seq<char>) -> bool {
    match after_opening(raw) {
        Some(rest) => match closing_delimiter(rest) {
            Some((a, _)) => no_stray_cr(rest.take(a)),
            None => true,
        },
        None => true,
    }
}

/// Stripping twice is stripping once: a second strip of the same fields
/// removes nothing and changes nothing, unless a line of the frontmatter
/// block ends in `\r\r\n` (its kept copy then loses one more `\r`).
pub proof fn stripping_twice_is_stripping_once(raw: Seq<char>, fields: Seq<Seq<char>>)
    requires
        block_without_stray_cr(raw),
    ensures
        stripped(stripped(raw, fields).0, fields) == (stripped(raw, fields).0, Seq::<Seq<char>>::empty()),
{
    match after_opening(raw) {
        None => {},
        Some(rest) => match closing_delimiter(rest) {
            None => {},
            Some((a, b)) => {
                lemma_before_closing_is_plain(rest);
                let block = rest.take(a);
                lemma_closing_bounds(rest);
                lemma_kept_is_untouched(block, fields);
                let kept = filter_block(block, fields).0;
                stripping_absent_fields_changes_nothing(kept, rest.skip(b), fields);
            },
        },
    }
}

proof fn lemma_closing_bounds(s: Seq<char>)
    requires
        closing_delimiter(s) is Some,
    ensures
        0 <= closing_start(s) <= closing_end(s) <= s.len(),
    decreases s.len(),
{
    lemma_first_newline(s);
    let e = line_end(s);
    if !is_delimiter_line(s.take(e)) {
        lemma_closing_bounds(s.skip(e));
    }
}

/// Names joined by `/`, first to last.
pub open spec fn slash_join(items: Seq<Seq<char>>) -> Seq<char>
    decreases items.len(),
{
    if items.len() == 0 {
        Seq::empty()
    } else if items.len() == 1 {
        items[0]
    } else {
        items[0] + seq!['/'] + slash_join(items.drop_first())
    }
}

proof fn lemma_find_slash_from(s: Seq<char>, n: int, i: int)
    requires
        0 <= i <= n <= s.len(),
        forall|k: int| 0 <= k < n ==> s[k] != '/',
    ensures
        n < s.len() && s[n] == '/' ==> find_from(s, seq!['/'], i) == Some(n),
        n == s.len() ==> find_from(s, seq!['/'], i) is None,
    decreases n - i,
{
    if i < n {
        assert(!matches_at(s, seq!['/'], i)) by {
            if matches_at(s, seq!['/'], i) {
                assert(s.subrange(i, i + 1)[0] == s[i]);
            }
        }
        lemma_find_slash_from(s, n, i + 1);
    } else if n < s.len() && s[n] == '/' {
        assert(s.subrange(n, n + 1) =~= seq!['/']);
    }
}

proof fn lemma_split_no_slash(a: Seq<char>)
    requires
        no_slash(a),
    ensures
        split_on(a, seq!['/']) == seq![a],
{
    lemma_find_slash_from(a, a.len() as int, 0);
}

proof fn lemma_split_cons(a: Seq<char>, b: Seq<char>)
    requires
        no_slash(a),
    ensures
        split_on(a + seq!['/'] + b, seq!['/']) == seq![a] + split_on(b, seq!['/']),
{
    let s = a + seq!['/'] + b;
    lemma_find_slash_from(s, a.len() as int, 0);
    assert(s.take(a.len() as int) =~= a);
    assert(s.skip(a.len() as int + 1) =~= b);
}

/// No `/` in `c`.
pub open spec fn no_slash(c: Seq<char>) -> bool {
    forall|k: int| 0 <= k < c.len() ==> c[k] != '/'
}

/// A name as a path component: not empty, no `/`, neither `.` nor `..`.
pub open spec fn is_name(c: Seq<char>) -> bool {
    &&& c.len() > 0
    &&& no_slash(c)
    &&& c != seq!['.']
    &&& c != seq!['.', '.']
}

proof fn lemma_split_join(items: Seq<Seq<char>>)
    requires
        items.len() > 0,
        forall|i: int| 0 <= i < items.len() ==> no_slash(#[trigger] items[i]),
    ensures
        split_on(slash_join(items), seq!['/']) == items,
    decreases items.len(),
{
    if items.len() == 1 {
        lemma_split_no_slash(items[0]);
        assert(seq![items[0]] =~= items);
    } else {
        let rest = items.drop_first();
        assert forall|i: int| 0 <= i < rest.len() implies no_slash(#[trigger] rest[i]) by {
            assert(rest[i] == items[i + 1]);
        }
        lemma_split_join(rest);
        assert(no_slash(items[0]));
        lemma_split_cons(items[0], slash_join(rest));
        assert(seq![items[0]] + rest =~= items);
    }
}

/// A lexically normal component list: an optional root first, then
/// names, with `..` only in a leading run (so never after the root or a
/// name).
pub open spec fn clean_ok(out: Seq<Seq<char>>) -> bool {
    &&& forall|i: int|
        0 <= i < out.len() ==> (i == 0 && out[i] == seq!['/']) || is_name(#[trigger] out[i]) || out[i]
            == seq!['.', '.']
    &&& forall|i: int, j: int|
        #![trigger out[i], out[j]]
        0 <= i < j < out.len() && out[j] == seq!['.', '.'] ==> out[i] == seq!['.', '.']
}

/// The components `Path::components` gives: the root or `.` only first,
/// then names and `..`.
pub open spec fn comps_ok(cs: Seq<Seq<char>>) -> bool {
    forall|i: int|
        0 <= i < cs.len() ==> (i == 0 && (cs[i] == seq!['/'] || cs[i] == seq!['.'])) || is_name(
            #[trigger] cs[i],
        ) || cs[i] == seq!['.', '.']
}

proof fn lemma_component_literals()
    ensures
        !is_name(seq!['/']),
        !is_name(seq!['.']),
        !is_name(seq!['.', '.']),
        seq!['/'] != seq!['.'],
        seq!['/'] != seq!['.', '.'],
        seq!['.'] != seq!['.', '.'],
{
    assert(seq!['/'][0] == '/');
    assert(seq!['/'][0] != seq!['.'][0]);
    assert(seq!['/'].len() != seq!['.', '.'].len());
    assert(seq!['.'].len() != seq!['.', '.'].len());
}

proof fn lemma_clean_ok_drop_last(out: Seq<Seq<char>>)
    requires
        clean_ok(out),
        out.len() > 0,
    ensures
        clean_ok(out.drop_last()),
{
    let d = out.drop_last();
    assert forall|i: int| 0 <= i < d.len() implies (i == 0 && d[i] == seq!['/']) || is_name(#[trigger] d[i])
        || d[i] == seq!['.', '.'] by {
        assert(d[i] == out[i]);
    }
    assert forall|i: int, j: int| #![trigger d[i], d[j]] 0 <= i < j < d.len() && d[j] == seq!['.', '.'] implies d[i] == seq![
        '.',
        '.',
    ] by {
        assert(d[i] == out[i] && d[j] == out[j]);
    }
}

proof fn lemma_clean_stack_fixed(out: Seq<Seq<char>>)
    requires
        clean_ok(out),
    ensures
        clean_stack(out) == out,
    decreases out.len(),
{
    if out.len() > 0 {
        let d = out.drop_last();
        lemma_clean_ok_drop_last(out);
        lemma_clean_stack_fixed(d);
        let c = out.last();
        assert(out[out.len() - 1] == c);
        lemma_component_literals();
        assert(clean_stack(out) == clean_step(clean_stack(d), c));
        if c == seq!['/'] {
            assert(out.len() - 1 == 0);
        }
        if c == seq!['.', '.'] && d.len() > 0 {
            assert(out[d.len() - 1] == seq!['.', '.']);
            assert(d.last() == out[d.len() - 1]);
        }
        if c == seq!['.'] {
            assert(!is_name(c));
        }
        assert(d.push(c) =~= out);
    }
}

proof fn lemma_clean_stack_ok(cs: Seq<Seq<char>>)
    requires
        comps_ok(cs),
    ensures
        clean_ok(clean_stack(cs)),
        cs.len() > 0 && cs[0] == seq!['/'] ==> clean_stack(cs).len() > 0 && clean_stack(cs)[0] == seq!['/'],
    decreases cs.len(),
{
    if cs.len() > 0 {
        let init = cs.drop_last();
        assert forall|i: int| 0 <= i < init.len() implies (i == 0 && (init[i] == seq!['/'] || init[i] == seq![
            '.',
        ])) || is_name(#[trigger] init[i]) || init[i] == seq!['.', '.'] by {
            assert(init[i] == cs[i]);
        }
        lemma_clean_stack_ok(init);
        if init.len() > 0 {
            assert(init[0] == cs[0]);
        }
        let out = clean_stack(init);
        let c = cs.last();
        assert(cs[cs.len() - 1] == c);
        lemma_component_literals();
        let next = clean_step(out, c);
        assert(clean_stack(cs) == next);
        if c == seq!['.'] {
        } else if c == seq!['.', '.'] {
            if out.len() > 0 && out.last() == seq!['/'] {
            } else if out.len() > 0 && out.last() != seq!['.', '.'] && out.last() != seq!['.'] {
                assert(out[out.len() - 1] == out.last());
                lemma_clean_ok_drop_last(out);
                if cs[0] == seq!['/'] && cs.len() > 1 {
                    assert(out.len() > 1);
                    assert(out.drop_last()[0] == out[0]);
                }
            } else {
                if out.len() > 0 {
                    assert(out[out.len() - 1] == seq!['.', '.']);
                    assert forall|i: int| 0 <= i < out.len() implies #[trigger] out[i] == seq!['.', '.'] by {
                        if i < out.len() - 1 {
                            assert(out[i] == seq!['.', '.']);
                        }
                    }
                    if cs[0] == seq!['/'] {
                        assert(out[0] == seq!['/']);
                        assert(false);
                    }
                }
                assert forall|i: int| 0 <= i < next.len() implies (i == 0 && next[i] == seq!['/']) || is_name(
                    #[trigger] next[i],
                ) || next[i] == seq!['.', '.'] by {
                    if i < out.len() {
                        assert(next[i] == out[i]);
                    }
                }
                assert forall|i: int, j: int| #![trigger next[i], next[j]] 0 <= i < j < next.len() && next[j] == seq!['.', '.'] implies next[i]
                    == seq!['.', '.'] by {
                    assert(next[i] == out[i]);
                }
            }
        } else {
            if c == seq!['/'] {
                assert(cs.len() - 1 == 0);
                assert(init.len() == 0);
            }
            assert forall|i: int| 0 <= i < next.len() implies (i == 0 && next[i] == seq!['/']) || is_name(
                #[trigger] next[i],
            ) || next[i] == seq!['.', '.'] by {
                if i < out.len() {
                    assert(next[i] == out[i]);
                }
            }
            assert forall|i: int, j: int| #![trigger next[i], next[j]] 0 <= i < j < next.len() && next[j] == seq!['.', '.'] implies next[i]
                == seq!['.', '.'] by {
                assert(next[i] == out[i]);
                if j < out.len() {
                    assert(next[j] == out[j]);
                }
            }
            if cs[0] == seq!['/'] && out.len() > 0 {
                assert(next[0] == out[0]);
            }
        }
    }
}

proof fn lemma_slash_join_push(s: Seq<Seq<char>>, x: Seq<char>)
    requires
        s.len() > 0,
    ensures
        slash_join(s.push(x)) == slash_join(s) + seq!['/'] + x,
    decreases s.len(),
{
    assert(s.push(x)[0] == s[0]);
    if s.len() == 1 {
        assert(s.push(x).drop_first() =~= seq![x]);
        assert(slash_join(seq![x]) == x);
    } else {
        assert(s.push(x).drop_first() =~= s.drop_first().push(x));
        lemma_slash_join_push(s.drop_first(), x);
        let j = slash_join(s.drop_first());
        assert(s[0] + seq!['/'] + (j + seq!['/'] + x) =~= (s[0] + seq!['/'] + j) + seq!['/'] + x);
    }
}

proof fn lemma_slash_join_ends(s: Seq<Seq<char>>)
    requires
        s.len() > 0,
        s.last().len() > 0,
    ensures
        slash_join(s).len() > 0,
        slash_join(s).last() == s.last().last(),
{
    if s.len() > 1 {
        lemma_slash_join_push(s.drop_last(), s.last());
        assert(s.drop_last().push(s.last()) =~= s);
    }
}

proof fn lemma_slash_join_starts(s: Seq<Seq<char>>)
    requires
        s.len() > 0,
    ensures
        slash_join(s).len() >= s[0].len(),
        forall|k: int| 0 <= k < s[0].len() ==> slash_join(s)[k] == s[0][k],
        s.len() > 1 ==> slash_join(s).len() > s[0].len() && slash_join(s)[s[0].len() as int] == '/',
        s.len() == 1 ==> slash_join(s) == s[0],
{
}

/// Each item a non-empty name without `/`.
pub open spec fn plain_items(items: Seq<Seq<char>>) -> bool {
    forall|i: int| 0 <= i < items.len() ==> (#[trigger] items[i]).len() > 0 && no_slash(items[i])
}

proof fn lemma_collected_relative(out: Seq<Seq<char>>)
    requires
        out.len() > 0,
        plain_items(out),
    ensures
        collected(out) == slash_join(out),
    decreases out.len(),
{
    let x = out.last();
    assert(out[out.len() - 1] == x);
    assert(collected(out) == pushed(collected(out.drop_last()), x));
    if out.len() == 1 {
        assert(out.drop_last() =~= Seq::<Seq<char>>::empty());
        assert(collected(out.drop_last()) == Seq::<char>::empty());
        assert(x[0] != '/');
        assert(Seq::<char>::empty() + x =~= x);
        assert(out =~= seq![x]);
        assert(slash_join(out) == x);
    } else {
        let d = out.drop_last();
        assert forall|i: int| 0 <= i < d.len() implies (#[trigger] d[i]).len() > 0 && no_slash(d[i]) by {
            assert(d[i] == out[i]);
        }
        lemma_collected_relative(d);
        assert(d.last() == out[d.len() - 1]);
        lemma_slash_join_ends(d);
        assert(d.last()[d.last().len() - 1] != '/');
        assert(x[0] != '/');
        lemma_slash_join_push(d, x);
        assert(d.push(x) =~= out);
    }
}

proof fn lemma_collected_absolute(names: Seq<Seq<char>>)
    requires
        plain_items(names),
    ensures
        collected(seq![seq!['/']] + names) == if names.len() == 0 {
            seq!['/']
        } else {
            seq!['/'] + slash_join(names)
        },
    decreases names.len(),
{
    let out = seq![seq!['/']] + names;
    if names.len() == 0 {
        assert(out =~= seq![seq!['/']]);
        assert(out.drop_last() =~= Seq::<Seq<char>>::empty());
        assert(out.last() == seq!['/']);
    } else {
        let nd = names.drop_last();
        let x = names.last();
        assert(names[names.len() - 1] == x);
        assert forall|i: int| 0 <= i < nd.len() implies (#[trigger] nd[i]).len() > 0 && no_slash(nd[i]) by {
            assert(nd[i] == names[i]);
        }
        lemma_collected_absolute(nd);
        assert(out.drop_last() =~= seq![seq!['/']] + nd);
        assert(out.last() == x);
        assert(x[0] != '/');
        if nd.len() == 0 {
            assert(seq!['/'] + x =~= seq!['/'] + slash_join(names));
        } else {
            assert(nd.last() == names[nd.len() - 1]);
            lemma_slash_join_ends(nd);
            assert(nd.last()[nd.last().len() - 1] != '/');
            lemma_slash_join_push(nd, x);
            assert(nd.push(x) =~= names);
            assert(seq!['/'] + slash_join(nd) + seq!['/'] + x =~= seq!['/'] + slash_join(names));
        }
    }
}

proof fn lemma_filter_singleton_dropped(e: Seq<char>, pred: spec_fn(Seq<char>) -> bool)
    requires
        !pred(e),
    ensures
        seq![e].filter(pred) == Seq::<Seq<char>>::empty(),
{
    reveal(Seq::filter);
    let emp = Seq::<Seq<char>>::empty();
    assert(emp.filter(pred) =~= emp);
    emp.lemma_filter_push(e, pred);
    assert(emp.push(e) =~= seq![e]);
}

proof fn lemma_components_of_collected(out: Seq<Seq<char>>)
    requires
        clean_ok(out),
        out.len() > 0,
    ensures
        path_components(collected(out)) == out,
{
    lemma_component_literals();
    let pred = |s: Seq<char>| s.len() > 0 && s != seq!['.'];
    if out[0] == seq!['/'] {
        let names = out.drop_first();
        assert forall|i: int| 0 <= i < names.len() implies is_name(#[trigger] names[i]) by {
            assert(names[i] == out[i + 1]);
            if names[i] == seq!['.', '.'] {
                assert(out[0] == seq!['.', '.']);
            }
        }
        assert(plain_items(names));
        lemma_collected_absolute(names);
        assert(seq![seq!['/']] + names =~= out);
        let p = collected(out);
        lemma_filter_singleton_dropped(Seq::<char>::empty(), pred);
        if names.len() == 0 {
            lemma_split_no_slash(Seq::<char>::empty());
            lemma_split_cons(Seq::<char>::empty(), Seq::<char>::empty());
            assert(Seq::<char>::empty() + seq!['/'] + Seq::<char>::empty() =~= p);
            let sp = seq![Seq::<char>::empty()] + seq![Seq::<char>::empty()];
            Seq::filter_distributes_over_add(seq![Seq::<char>::empty()], seq![Seq::<char>::empty()], pred);
            assert(sp.filter(pred) =~= Seq::<Seq<char>>::empty());
            assert(p[0] == '/');
            assert(path_components(p) =~= seq![seq!['/']]);
            assert(out =~= seq![seq!['/']]);
        } else {
            assert forall|i: int| 0 <= i < names.len() implies no_slash(#[trigger] names[i]) by {
                assert(is_name(names[i]));
            }
            lemma_split_join(names);
            lemma_split_cons(Seq::<char>::empty(), slash_join(names));
            assert(Seq::<char>::empty() + seq!['/'] + slash_join(names) =~= p);
            Seq::filter_distributes_over_add(seq![Seq::<char>::empty()], names, pred);
            assert forall|i: int| 0 <= i < names.len() implies pred(#[trigger] names[i]) by {
                assert(is_name(names[i]));
            }
            lemma_filter_keeps_all(names, pred);
            assert(Seq::<Seq<char>>::empty() + names =~= names);
            assert(p[0] == '/');
            assert(path_components(p) =~= seq![seq!['/']] + names);
        }
    } else {
        assert forall|i: int| 0 <= i < out.len() implies (#[trigger] out[i]).len() > 0 && no_slash(out[i]) by {
            if out[i] == seq!['.', '.'] {
                assert(out[i][0] == '.' && out[i][1] == '.');
            } else {
                assert(is_name(out[i]));
            }
        }
        lemma_collected_relative(out);
        let p = slash_join(out);
        lemma_split_join(out);
        assert forall|i: int| 0 <= i < out.len() implies pred(#[trigger] out[i]) by {
            if out[i] == seq!['.', '.'] {
                assert(out[i][0] == '.' && out[i][1] == '.');
            } else {
                assert(is_name(out[i]));
            }
        }
        lemma_filter_keeps_all(out, pred);
        lemma_slash_join_starts(out);
        assert(out[0].len() > 0);
        assert(p[0] == out[0][0]);
        assert(p[0] != '/');
        let cur = p == seq!['.'] || (p.len() >= 2 && p[0] == '.' && p[1] == '/');
        if cur {
            if out[0].len() == 1 {
                assert(out[0][0] == '.');
                assert(out[0] =~= seq!['.']);
            } else {
                assert(p[1] == out[0][1]);
                assert(out[0][1] != '/');
                if p == seq!['.'] {
                    assert(p.len() >= out[0].len());
                }
            }
        }
        assert(path_components(p) =~= out);
    }
}

proof fn lemma_find_slash_first(s: Seq<char>, j: int)
    requires
        0 <= j,
    ensures
        match find_from(s, seq!['/'], j) {
            Some(n) => forall|k: int| j <= k < n ==> s[k] != '/',
            None => forall|k: int| j <= k < s.len() ==> s[k] != '/',
        },
    decreases s.len() + 1 - j,
{
    if j + 1 <= s.len() {
        if !matches_at(s, seq!['/'], j) {
            lemma_find_slash_first(s, j + 1);
            assert(s[j] != '/') by {
                if s[j] == '/' {
                    assert(s.subrange(j, j + 1) =~= seq!['/']);
                }
            }
        }
    }
}

proof fn lemma_split_pieces(s: Seq<char>)
    ensures
        forall|i: int| 0 <= i < split_on(s, seq!['/']).len() ==> no_slash(#[trigger] split_on(s, seq!['/'])[i]),
    decreases s.len(),
{
    lemma_find_slash_first(s, 0);
    lemma_find_from(s, seq!['/'], 0);
    match find(s, seq!['/']) {
        Some(n) => {
            let rest = s.skip(n + 1);
            lemma_split_pieces(rest);
            let sp = split_on(s, seq!['/']);
            assert(sp == seq![s.take(n)] + split_on(rest, seq!['/']));
            assert forall|i: int| 0 <= i < sp.len() implies no_slash(#[trigger] sp[i]) by {
                if i > 0 {
                    assert(sp[i] == split_on(rest, seq!['/'])[i - 1]);
                }
            }
        },
        None => {},
    }
}

proof fn lemma_components_ok(p: Seq<char>)
    ensures
        comps_ok(path_components(p)),
{
    lemma_component_literals();
    lemma_split_pieces(p);
    let pred = |s: Seq<char>| s.len() > 0 && s != seq!['.'];
    let sp = split_on(p, seq!['/']);
    let segs = sp.filter(pred);
    let cs = path_components(p);
    let root = p.len() > 0 && p[0] == '/';
    let cur = !root && (p == seq!['.'] || (p.len() >= 2 && p[0] == '.' && p[1] == '/'));
    let pre: Seq<Seq<char>> = if root {
        seq![seq!['/']]
    } else if cur {
        seq![seq!['.']]
    } else {
        Seq::empty()
    };
    assert(cs == pre + segs);
    assert forall|i: int| 0 <= i < segs.len() implies (#[trigger] segs[i]).len() > 0 && segs[i] != seq!['.']
        && no_slash(segs[i]) by {
        sp.lemma_filter_pred(pred, i);
        sp.lemma_filter_contains_rev(pred, segs[i]);
        let k = choose|k: int| 0 <= k < sp.len() && sp[k] == segs[i];
        assert(no_slash(sp[k]));
    }
    assert forall|i: int| 0 <= i < cs.len() implies (i == 0 && (cs[i] == seq!['/'] || cs[i] == seq!['.'])) || is_name(
        #[trigger] cs[i],
    ) || cs[i] == seq!['.', '.'] by {
        if i >= pre.len() {
            assert(cs[i] == segs[i - pre.len()]);
        }
    }
}

/// Resolving a path against an absolute directory gives an absolute,
/// lexically normal path (no `.`, no empty component, no `..` after the
/// root or a name), and resolving that again against the same directory
/// changes nothing.
pub proof fn resolved_paths_are_normal(base: Seq<char>, p: Seq<char>)
    requires
        base.len() > 0,
        base[0] == '/',
    ensures
        resolved(base, p).len() > 0,
        resolved(base, p)[0] == '/',
        clean_ok(path_components(resolved(base, p))),
        resolved(base, resolved(base, p)) == resolved(base, p),
{
    lemma_component_literals();
    let x = if p.len() > 0 && p[0] == '/' {
        p
    } else {
        joined_path(base, p)
    };
    assert(resolved(base, p) == cleaned_path(x));
    assert(x.len() > 0 && x[0] == '/');
    let cs = path_components(x);
    lemma_components_ok(x);
    assert(cs[0] == seq!['/']);
    lemma_clean_stack_ok(cs);
    let out = clean_stack(cs);
    let r = collected(out);
    assert(cleaned_path(x) == r);
    let names = out.drop_first();
    assert(seq![seq!['/']] + names =~= out);
    assert forall|i: int| 0 <= i < names.len() implies (#[trigger] names[i]).len() > 0 && no_slash(names[i]) by {
        assert(names[i] == out[i + 1]);
        if names[i] == seq!['.', '.'] {
            assert(out[0] == seq!['.', '.']);
        }
        assert(is_name(out[i + 1]));
    }
    lemma_collected_absolute(names);
    if names.len() > 0 {
        lemma_slash_join_starts(names);
    }
    assert(r[0] == '/');
    lemma_components_of_collected(out);
    lemma_clean_stack_fixed(out);
    assert(resolved(base, r) == cleaned_path(r));
}

proof fn lemma_hyphenated_fixed(s: Seq<char>)
    requires
        slug_shaped(s),
    ensures
        crate::slug::hyphenated(s) == s,
    decreases s.len(),
{
    if s.len() > 0 {
        let d = s.drop_last();
        assert forall|i: int| 0 <= i < d.len() implies crate::slug::is_slug_char(#[trigger] d[i]) || d[i] == '-' by {
            assert(d[i] == s[i]);
        }
        assert forall|i: int| 0 <= i < d.len() - 1 implies !(#[trigger] d[i] == '-' && d[i + 1] == '-') by {
            assert(d[i] == s[i] && d[i + 1] == s[i + 1]);
        }
        lemma_hyphenated_fixed(d);
        assert(s[s.len() - 1] == s.last());
        if !crate::slug::is_slug_char(s.last()) && d.len() > 0 {
            assert(d.last() == s[d.len() - 1]);
        }
        assert(d.push(s.last()) =~= s);
    }
}

/// A slug made from a note's name is its own slug, given that NFKD and
/// lower-casing leave it as it is (`nfkd_of` and `to_lowercase` state
/// this of every text of ASCII lower-case letters, digits and `-`, which
/// every such slug is).
pub proof fn a_slug_is_its_own_slug(text: Seq<char>)
    requires
        crate::slug::nfkd(note_slug(text)) == note_slug(text),
        crate::slug::unicode_lowercase(note_slug(text)) == note_slug(text),
    ensures
        crate::slug::ascii_slug_text(note_slug(text)),
        note_slug(note_slug(text)) == note_slug(text),
{
    let s = note_slug(text);
    slugs_are_lowercase_words_joined_by_single_dashes(text);
    slugs_have_no_outer_dashes(text);
    let comb = |c: char| !crate::slug::is_combining_mark(c);
    assert forall|i: int| 0 <= i < s.len() implies comb(#[trigger] s[i]) by {}
    lemma_filter_keeps_all(s, comb);
    assert(s.map_values(|c: char| crate::slug::fold_letter(c)) =~= s);
    assert(crate::slug::folded(s) == s);
    let apos = |c: char| c != '\'';
    assert forall|i: int| 0 <= i < s.len() implies apos(#[trigger] s[i]) by {}
    lemma_filter_keeps_all(s, apos);
    lemma_hyphenated_fixed(s);
    if s.len() > 0 {
        assert(trim_start_dashes(s) == s);
        assert(trim_end_dashes(s) == s);
    } else {
        assert(trim_start_dashes(s) == s);
        assert(trim_end_dashes(s) == s);
    }
}

/// Saving a Link patch that succeeds gives the Link every value the patch
/// sets, keeps every field the patch leaves out, and touches no other Link
/// or Location. In particular a patch with `hidden: Some(h)` leaves the
/// Link with `hidden == Some(h)`.
pub proof fn a_saved_link_takes_what_the_patch_sets(
    old: ProjectView,
    new: ProjectView,
    location_id: Seq<char>,
    link_id: Seq<char>,
    patch: LinkPatch,
    r: Result<(), MutationError>,
)
    requires
        save_link_spec(old, new, location_id, link_id, patch, r),
        r is Ok,
    ensures
        location_index(old, location_id) matches Some(i) && first_index_of(
            link_ids(old.locations[i].links),
            link_id,
        ) matches Some(k) && {
            let o = old.locations[i].links[k];
            let l = new.locations[i].links[k];
            &&& new.locations.len() == old.locations.len()
            &&& new.locations[i].links.len() == old.locations[i].links.len()
            &&& forall|j: int| 0 <= j < old.locations.len() && j != i ==> new.locations[j] == old.locations[j]
            &&& forall|j: int|
                0 <= j < old.locations[i].links.len() && j != k ==> new.locations[i].links[j]
                    == old.locations[i].links[j]
            &&& new.locations[i].id == old.locations[i].id
            &&& new.locations[i].fog == old.locations[i].fog
            &&& l.hidden == if patch.hidden is Some { Some(patch.hidden->0) } else { o.hidden }
            &&& l.color == if patch.color is Some { patch.color } else { o.color }
            &&& l.icon == if patch.icon is Some { patch.icon } else { o.icon }
            &&& l.x == if patch.x is Some { patch.x->0 } else { o.x }
            &&& l.y == if patch.y is Some { patch.y->0 } else { o.y }
            &&& l.target == if patch.target is Some { patch.target->0 } else { o.target }
            &&& l.link_type == if patch.link_type is Some { patch.link_type->0 } else { o.link_type }
            &&& l.id == if patch.id is Some { patch.id->0 } else { o.id }
        },
{
    lemma_first_index(crate::mutations::location_ids(old), location_id);
    let i = location_index(old, location_id)->0;
    lemma_first_index(link_ids(old.locations[i].links), link_id);
}

/// Setting a Location's fog that succeeds leaves that Location with
/// exactly the given fog (`None` ends the fog: the whole map shows), and
/// changes nothing else.
pub proof fn setting_the_fog_sets_exactly_that_fog(
    old: ProjectView,
    new: ProjectView,
    location_id: Seq<char>,
    fog: Option<Seq<Seq<char>>>,
    r: Result<(), MutationError>,
)
    requires
        set_field_spec(old, new, location_id, r, |l: LocationView| with_fog(l, fog)),
        r is Ok,
    ensures
        location_index(old, location_id) matches Some(i) && {
            &&& new.locations.len() == old.locations.len()
            &&& new.locations[i].fog == fog
            &&& new.locations[i].id == old.locations[i].id
            &&& new.locations[i].links == old.locations[i].links
            &&& new.locations[i].grid == old.locations[i].grid
            &&& new.locations[i].image == old.locations[i].image
            &&& new.locations[i].content == old.locations[i].content
            &&& forall|j: int| 0 <= j < old.locations.len() && j != i ==> new.locations[j] == old.locations[j]
        },
{
    lemma_first_index(crate::mutations::location_ids(old), location_id);
}

/// The browser finds a Location by its id or its title: when the trimmed,
/// lower-cased query is empty or occurs in the Location's lower-cased id
/// or lower-cased title, and the Location passes the map and orphan
/// filters, a row with its id is listed. Conversely every listed row is a
/// Location that passes the filters and whose id or title holds the
/// query.
pub proof fn a_location_is_found_by_its_id_or_title(
    p: ProjectView,
    resolved: Map<Seq<char>, crate::project::ResolvedContent>,
    query: Seq<char>,
    maps_only: bool,
    orphans_only: bool,
    i: int,
)
    requires
        0 <= i < p.locations.len(),
    ensures
        ({
            let l = p.locations[i];
            let q = search_key(query);
            let title = if resolved.dom().contains(l.id) {
                resolved[l.id].title@
            } else {
                l.id
            };
            (q.len() == 0 || find(crate::slug::unicode_lowercase(l.id), q) is Some || find(
                crate::slug::unicode_lowercase(title),
                q,
            ) is Some) && (!maps_only || l.image is Some) && (!orphans_only || (l.id != p.default_location
                && !is_link_target(p, l.id)))
        }) ==> exists|j: int|
            0 <= j < browser_rows(p, resolved, query, maps_only, orphans_only).len() && (#[trigger] browser_rows(
                p,
                resolved,
                query,
                maps_only,
                orphans_only,
            )[j]).id == p.locations[i].id,
        forall|j: int|
            0 <= j < browser_rows(p, resolved, query, maps_only, orphans_only).len() ==> {
                let r = #[trigger] browser_rows(p, resolved, query, maps_only, orphans_only)[j];
                let q = search_key(query);
                &&& (q.len() == 0 || find(crate::slug::unicode_lowercase(r.id), q) is Some || find(
                    crate::slug::unicode_lowercase(r.title),
                    q,
                ) is Some)
                &&& !maps_only || r.has_image
                &&& !orphans_only || r.is_orphan
                &&& exists|m: int| 0 <= m < p.locations.len() && #[trigger] p.locations[m].id == r.id
            },
{
    browser_rows_are_sorted_by_title(p, resolved, query, maps_only, orphans_only);
    let all = p.locations.map_values(|l: LocationView| row_of(p, resolved, l));
    let pred = |r: RowView| row_shown(r, search_key(query), maps_only, orphans_only);
    let shown = all.filter(pred);
    let out = browser_rows(p, resolved, query, maps_only, orphans_only);
    out.to_multiset_ensures();
    shown.to_multiset_ensures();
    let r = all[i];
    assert(r == row_of(p, resolved, p.locations[i]));
    if pred(r) {
        all.lemma_filter_contains(pred, i);
        assert(shown.to_multiset().count(r) > 0);
        assert(out.contains(r));
        let j = choose|j: int| 0 <= j < out.len() && out[j] == r;
        assert(out[j].id == p.locations[i].id);
    }
    assert forall|j: int| 0 <= j < out.len() implies {
        let r2 = #[trigger] out[j];
        let q = search_key(query);
        &&& (q.len() == 0 || find(crate::slug::unicode_lowercase(r2.id), q) is Some || find(
            crate::slug::unicode_lowercase(r2.title),
            q,
        ) is Some)
        &&& !maps_only || r2.has_image
        &&& !orphans_only || r2.is_orphan
        &&& exists|m: int| 0 <= m < p.locations.len() && #[trigger] p.locations[m].id == r2.id
    } by {
        let r2 = out[j];
        assert(out.contains(r2));
        assert(shown.to_multiset().count(r2) > 0);
        assert(shown.contains(r2));
        let k = choose|k: int| 0 <= k < shown.len() && shown[k] == r2;
        all.lemma_filter_pred(pred, k);
        all.lemma_filter_contains_rev(pred, r2);
        let m = choose|m: int| 0 <= m < all.len() && all[m] == r2;
        assert(p.locations[m].id == r2.id);
    }
}

proof fn lemma_pins_on_map_from(linked: Seq<crate::importer::VaultEntry>, ids: Seq<Seq<char>>, map: Seq<char>)
    ensures
        forall|k: int|
            0 <= k < crate::importer::pins_on_map(linked, ids, map).len() ==> linked.contains(
                (#[trigger] crate::importer::pins_on_map(linked, ids, map)[k]).0,
            ),
    decreases linked.len(),
{
    if linked.len() > 0 {
        let d = linked.drop_last();
        lemma_pins_on_map_from(d, ids, map);
        let rest = crate::importer::pins_on_map(d, ids, map);
        let all = crate::importer::pins_on_map(linked, ids, map);
        assert forall|k: int| 0 <= k < all.len() implies linked.contains((#[trigger] all[k]).0) by {
            if k < rest.len() {
                assert(all[k] == rest[k]);
                assert(d.contains(rest[k].0));
                let m = choose|m: int| 0 <= m < d.len() && d[m] == rest[k].0;
                assert(linked[m] == d[m]);
            } else {
                assert(all[k].0 == linked.last());
                assert(linked[linked.len() - 1] == linked.last());
            }
        }
    }
}

/// Every Link the importer puts on a map is the pin of a linked note: it
/// points at that note's Location and carries the note's `map-color`,
/// `map-icon`, position and type (a missing `map-color` gives no colour),
/// and it starts visible.
pub proof fn imported_pins_carry_their_notes_fields(
    p: ProjectView,
    es: Seq<crate::importer::VaultEntry>,
    title: Seq<char>,
    vault_root: Seq<char>,
    images: Seq<(String, crate::project::ImageRef)>,
    ids: Seq<Seq<char>>,
)
    requires
        crate::importer::is_imported_project(p, es, title, vault_root, images, ids),
    ensures
        forall|i: int, k: int|
            #![trigger p.locations[i].links[k]]
            0 <= i < crate::importer::root_entries(es).len() && 0 <= k < p.locations[i].links.len()
                ==> p.locations[i].links[k].hidden == Some(false)
                && exists|e: crate::importer::VaultEntry|
                #![trigger crate::importer::linked_pins(es).contains(e)]
                crate::importer::linked_pins(es).contains(e)
                    && p.locations[i].links[k].target@ == crate::importer::pin_id(e.relative_path@)
                    && p.locations[i].links[k].color == e.frontmatter.map_color
                    && p.locations[i].links[k].icon == e.frontmatter.map_icon
                    && p.locations[i].links[k].x == crate::importer::or_zero(e.frontmatter.map_x)
                    && p.locations[i].links[k].y == crate::importer::or_zero(e.frontmatter.map_y)
                    && p.locations[i].links[k].link_type@ == match e.frontmatter.map_type {
                        Some(t) => t@,
                        None => "waypoint"@,
                    },
{
    assert forall|i: int, k: int|
        #![trigger p.locations[i].links[k]]
        0 <= i < crate::importer::root_entries(es).len() && 0 <= k < p.locations[i].links.len()
            implies p.locations[i].links[k].hidden == Some(false)
            && exists|e: crate::importer::VaultEntry|
            #![trigger crate::importer::linked_pins(es).contains(e)]
            crate::importer::linked_pins(es).contains(e)
                && p.locations[i].links[k].target@ == crate::importer::pin_id(e.relative_path@)
                && p.locations[i].links[k].color == e.frontmatter.map_color
                && p.locations[i].links[k].icon == e.frontmatter.map_icon
                && p.locations[i].links[k].x == crate::importer::or_zero(e.frontmatter.map_x)
                && p.locations[i].links[k].y == crate::importer::or_zero(e.frontmatter.map_y)
                && p.locations[i].links[k].link_type@ == match e.frontmatter.map_type {
                    Some(t) => t@,
                    None => "waypoint"@,
                } by {
        assert(crate::importer::imported_locations(p.locations, es, images, ids));
        assert(crate::importer::is_root_location(p.locations[i], i, es, images, ids));
        let id = crate::importer::chars_or_empty(crate::importer::root_entries(es)[i].frontmatter.map_id);
        let pins = crate::importer::pins_on_map(crate::importer::linked_pins(es), ids, id);
        if crate::mutations::first_index_of(crate::importer::map_ids(es), id) == Some(i) {
            assert(crate::importer::links_match(p.locations[i].links, pins));
            lemma_pins_on_map_from(crate::importer::linked_pins(es), ids, id);
            assert(crate::importer::is_pin_link(p.locations[i].links[k], pins[k].0, pins[k].1));
            assert(crate::importer::linked_pins(es).contains(pins[k].0));
        } else {
            assert(p.locations[i].links.len() == 0);
        }
    }
}


/// Migrating a document respells every Location of its `locations` list,
/// not only some: the `k`th Location after is the `k`th before with the
/// same keys in the same order, its `grid` and `content` respelled as
/// oneofs and every other value unchanged; a Location that is not a
/// mapping is kept as it is.
pub proof fn migration_respells_every_location(before: Yaml, after: Yaml, j: int, k: int)
    requires
        is_migrated_document(before, after),
        before matches Yaml::Mapping(es) && key_index(es@, "locations"@) == Some(j)
            && (es@[j].1 matches Yaml::List(items) && 0 <= k < items@.len()),
    ensures
        after matches Yaml::Mapping(es2) && (es2@[j].1 matches Yaml::List(items2)
            && items2@.len() == before->Mapping_0@[j].1->List_0@.len() && {
            let b = before->Mapping_0@[j].1->List_0@[k];
            let a = items2@[k];
            match b {
                Yaml::Mapping(le) => a matches Yaml::Mapping(le2) && (le2@.len() == le@.len()
                    && forall|m: int|
                    #![trigger le2@[m]]
                    0 <= m < le@.len() ==> le2@[m].0 == le@[m].0 && if key_index(le@, "grid"@)
                        == Some(m) || key_index(le@, "content"@) == Some(m) {
                        is_oneof_of(le@[m].1, le2@[m].1)
                    } else {
                        le2@[m].1 == le@[m].1
                    }),
                _ => a == b,
            }
        }),
{
    let es = before->Mapping_0;
    let es2 = after->Mapping_0;
    lemma_key_index_in_range(es@, "locations"@);
    lemma_key_index_in_range(es@, "content"@);
    assert(after is Mapping);
    assert(es2@.len() == es@.len());
    let e2j = es2@[j];
    assert(e2j.0 == es@[j].0);
    assert(crate::migrate::is_migrated_locations(es@[j].1, es2@[j].1)) by {
        if key_index(es@, "content"@) == Some(j) {
            reveal_strlit("content");
            reveal_strlit("locations");
            assert("content"@.len() != "locations"@.len());
        }
    }
    let items = es@[j].1->List_0;
    let items2 = es2@[j].1->List_0;
    assert(crate::migrate::is_migrated_location(items@[k], items2@[k]));
}

proof fn lemma_key_index_in_range(entries: Seq<(String, Yaml)>, key: Seq<char>)
    ensures
        key_index(entries, key) matches Some(i) ==> 0 <= i < entries.len() && entries[i].0@ == key,
    decreases entries.len(),
{
    if entries.len() > 0 {
        lemma_key_index_in_range(entries.drop_first(), key);
    }
}

} // verus!
