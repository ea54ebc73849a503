//! Pure, transport-agnostic edits of an in-memory project, and the
//! reducer that applies a command to one.

use vstd::prelude::*;

use crate::project::{
    strings_view, FogOfWar, FloatBits, Grid, HexenProject, ImageRef, Link, Location, LocationContent,
    LocationContentKind, LocationView, ProjectContent, ProjectView,
};
use crate::text::{chars_eq, chars_of, extend_from_str, string_from_chars};

verus! {

/// Why a mutation was refused; the project is left as it was.
#[derive(Debug, PartialEq)]
pub enum MutationError {
    /// No Location with this id.
    NoLocation(String),
    /// The Location (first) has no Link with this id (second).
    NoLink(String, String),
    /// The Location's content is of the named other kind, not inline.
    NotInlineContent(String, String),
    /// The Location has no fog of war to change.
    NoFog(String),
    /// A command message that carried no command.
    EmptyCommand,
}

/// What a refusal says.
pub open spec fn mutation_message(e: MutationError) -> Seq<char> {
    match e {
        MutationError::NoLocation(id) => "No location \""@ + id@ + "\" in this project"@,
        MutationError::NoLink(l, k) => "Location \""@ + l@ + "\" has no link \""@ + k@ + "\""@,
        MutationError::NotInlineContent(l, kind) => "Location \""@ + l@ + "\" has "@ + kind@
            + " content, not inline"@,
        MutationError::NoFog(id) => "Location \""@ + id@
            + "\" has no fog of war — start it before toggling a cell"@,
        MutationError::EmptyCommand => "Command message carried no command"@,
    }
}

impl MutationError {
    /// The refusal as a sentence.
    pub fn message(&self) -> (res: String)
        ensures
            res@ == mutation_message(*self),
    {
        let mut out: Vec<char> = Vec::new();
        match self {
            MutationError::NoLocation(id) => {
                extend_from_str(&mut out, "No location \"");
                extend_from_str(&mut out, id.as_str());
                extend_from_str(&mut out, "\" in this project");
            },
            MutationError::NoLink(l, k) => {
                extend_from_str(&mut out, "Location \"");
                extend_from_str(&mut out, l.as_str());
                extend_from_str(&mut out, "\" has no link \"");
                extend_from_str(&mut out, k.as_str());
                extend_from_str(&mut out, "\"");
            },
            MutationError::NotInlineContent(l, kind) => {
                extend_from_str(&mut out, "Location \"");
                extend_from_str(&mut out, l.as_str());
                extend_from_str(&mut out, "\" has ");
                extend_from_str(&mut out, kind.as_str());
                extend_from_str(&mut out, " content, not inline");
            },
            MutationError::NoFog(id) => {
                extend_from_str(&mut out, "Location \"");
                extend_from_str(&mut out, id.as_str());
                extend_from_str(&mut out, "\" has no fog of war — start it before toggling a cell");
            },
            MutationError::EmptyCommand => {
                extend_from_str(&mut out, "Command message carried no command");
            },
        }
        string_from_chars(out.as_slice())
    }
}

/// The fields of a Link that a save replaces; `None` keeps the old value.
#[derive(Debug, PartialEq)]
pub struct LinkPatch {
    pub id: Option<String>,
    pub target: Option<String>,
    pub x: Option<FloatBits>,
    pub y: Option<FloatBits>,
    pub link_type: Option<String>,
    pub icon: Option<String>,
    pub color: Option<String>,
    pub hidden: Option<bool>,
}

/// The fields of inline content that a save replaces.
#[derive(Debug, PartialEq)]
pub struct InlineContentPatch {
    pub title: Option<String>,
    pub body: Option<String>,
}

/// The position of the first of `ids` equal to `id`.
pub open spec fn first_index_of(ids: Seq<Seq<char>>, id: Seq<char>) -> Option<int>
    decreases ids.len(),
{
    if ids.len() == 0 {
        None
    } else if ids[0] == id {
        Some(0)
    } else {
        match first_index_of(ids.drop_first(), id) {
            Some(i) => Some(i + 1),
            None => None,
        }
    }
}

/// The ids of `v`, in order.
pub open spec fn ids_of_locations(v: Seq<Location>) -> Seq<Seq<char>> {
    v.map_values(|l: Location| l.id@)
}

pub open spec fn location_ids(p: ProjectView) -> Seq<Seq<char>> {
    p.locations.map_values(|l: LocationView| l.id)
}

pub open spec fn link_ids(links: Seq<Link>) -> Seq<Seq<char>> {
    links.map_values(|l: Link| l.id@)
}

/// Where the first Location with this id sits, if any.
pub open spec fn location_index(p: ProjectView, id: Seq<char>) -> Option<int> {
    first_index_of(location_ids(p), id)
}

/// `p` with its `i`-th Location replaced.
pub open spec fn with_location(p: ProjectView, i: int, l: LocationView) -> ProjectView {
    ProjectView {
        schema_version: p.schema_version,
        title: p.title,
        default_location: p.default_location,
        content: p.content,
        locations: p.locations.update(i, l),
    }
}

/// `p` with one more Location at the end.
pub open spec fn with_new_location(p: ProjectView, l: LocationView) -> ProjectView {
    ProjectView {
        schema_version: p.schema_version,
        title: p.title,
        default_location: p.default_location,
        content: p.content,
        locations: p.locations.push(l),
    }
}

/// A Location with nothing but its id.
pub open spec fn empty_location(id: Seq<char>) -> LocationView {
    LocationView { id, grid: None, image: None, content: None, links: Seq::empty(), fog: None }
}

pub open spec fn with_links(l: LocationView, links: Seq<Link>) -> LocationView {
    LocationView { links, ..l }
}

pub open spec fn with_grid(l: LocationView, grid: Option<Grid>) -> LocationView {
    LocationView { grid, ..l }
}

pub open spec fn with_image(l: LocationView, image: Option<ImageRef>) -> LocationView {
    LocationView { image, ..l }
}

pub open spec fn with_fog(l: LocationView, fog: Option<Seq<Seq<char>>>) -> LocationView {
    LocationView { fog, ..l }
}

pub open spec fn with_content(l: LocationView, content: Option<LocationContent>) -> LocationView {
    LocationView { content, ..l }
}

/// `link` with every field the patch sets replaced.
pub open spec fn patched_link(link: Link, patch: LinkPatch) -> Link {
    Link {
        id: match patch.id {
            Some(v) => v,
            None => link.id,
        },
        target: match patch.target {
            Some(v) => v,
            None => link.target,
        },
        x: match patch.x {
            Some(v) => v,
            None => link.x,
        },
        y: match patch.y {
            Some(v) => v,
            None => link.y,
        },
        link_type: match patch.link_type {
            Some(v) => v,
            None => link.link_type,
        },
        icon: if patch.icon is Some {
            patch.icon
        } else {
            link.icon
        },
        color: if patch.color is Some {
            patch.color
        } else {
            link.color
        },
        hidden: match patch.hidden {
            Some(h) => Some(h),
            None => link.hidden,
        },
    }
}

pub open spec fn is_no_location(r: Result<(), MutationError>, id: Seq<char>) -> bool {
    r matches Err(MutationError::NoLocation(s)) && s@ == id
}

pub open spec fn is_no_fog(r: Result<(), MutationError>, id: Seq<char>) -> bool {
    r matches Err(MutationError::NoFog(s)) && s@ == id
}

/// What saving a Link's patch does.
pub open spec fn save_link_spec(
    old: ProjectView,
    new: ProjectView,
    location_id: Seq<char>,
    link_id: Seq<char>,
    patch: LinkPatch,
    r: Result<(), MutationError>,
) -> bool {
    match location_index(old, location_id) {
        None => is_no_location(r, location_id) && new == old,
        Some(i) => {
            let links = old.locations[i].links;
            match first_index_of(link_ids(links), link_id) {
                None => {
                    &&& r matches Err(MutationError::NoLink(a, b))
                    &&& a@ == location_id && b@ == link_id
                    &&& new == old
                },
                Some(k) => r is Ok && new == with_location(
                    old,
                    i,
                    with_links(old.locations[i], links.update(k, patched_link(links[k], patch))),
                ),
            }
        },
    }
}

/// The title and body inline content starts from: empty for no content,
/// its own for inline content, `None` for any other content.
pub open spec fn inline_base(c: Option<LocationContent>) -> Option<(Seq<char>, Seq<char>)> {
    match c {
        None => Some((Seq::empty(), Seq::empty())),
        Some(LocationContent { kind: Some(LocationContentKind::Inline(i)) }) => Some(
            (
                i.title@,
                match i.body {
                    Some(b) => b@,
                    None => Seq::empty(),
                },
            ),
        ),
        _ => None,
    }
}

/// Inline content with exactly this title and body.
pub open spec fn is_inline_content(c: Option<LocationContent>, title: Seq<char>, body: Seq<char>) -> bool {
    &&& c matches Some(LocationContent { kind: Some(LocationContentKind::Inline(i)) })
    &&& i.title@ == title
    &&& i.body matches Some(b) && b@ == body
}

/// What saving a Location's inline content does.
pub open spec fn save_location_content_spec(
    old: ProjectView,
    new: ProjectView,
    location_id: Seq<char>,
    patch: InlineContentPatch,
    r: Result<(), MutationError>,
) -> bool {
    match location_index(old, location_id) {
        None => is_no_location(r, location_id) && new == old,
        Some(i) => match inline_base(old.locations[i].content) {
            None => {
                &&& r matches Err(MutationError::NotInlineContent(a, kind))
                &&& a@ == location_id && kind@ == seq!['o', 'b', 's', 'i', 'd', 'i', 'a', 'n']
                &&& new == old
            },
            Some((base_title, base_body)) => {
                &&& r is Ok
                &&& new == with_location(
                    old,
                    i,
                    with_content(old.locations[i], new.locations[i].content),
                )
                &&& is_inline_content(
                    new.locations[i].content,
                    match patch.title {
                        Some(t) => t@,
                        None => base_title,
                    },
                    match patch.body {
                        Some(b) => b@,
                        None => base_body,
                    },
                )
            },
        },
    }
}

/// A freshly added pin: a new id, no icon or colour, not hidden.
pub open spec fn is_new_link(
    l: Link,
    target: Seq<char>,
    x: FloatBits,
    y: FloatBits,
    link_type: String,
) -> bool {
    &&& uuid_v4_text(l.id@)
    &&& l.target@ == target
    &&& l.x == x && l.y == y
    &&& l.link_type == link_type
    &&& l.icon is None && l.color is None
    &&& l.hidden == Some(false)
}

/// `p`, plus an empty Location `id` at the end if it has no such Location.
pub open spec fn ensure_location(p: ProjectView, id: Seq<char>) -> ProjectView {
    if location_index(p, id) is None {
        with_new_location(p, empty_location(id))
    } else {
        p
    }
}

/// What adding a pin for `target` to the map `parent` does: the target
/// Location is created if missing, and the pin gets a fresh id.
pub open spec fn add_location_link_spec(
    old: ProjectView,
    new: ProjectView,
    parent: Seq<char>,
    target: Seq<char>,
    x: FloatBits,
    y: FloatBits,
    link_type: String,
    r: Result<(), MutationError>,
) -> bool {
    match location_index(old, parent) {
        None => is_no_location(r, parent) && new == old,
        Some(i) => {
            let mid = ensure_location(old, target);
            let links = mid.locations[i].links;
            &&& r is Ok
            &&& new.locations[i].links.len() == links.len() + 1
            &&& new == with_location(mid, i, with_links(mid.locations[i], links.push(
                new.locations[i].links.last(),
            )))
            &&& is_new_link(new.locations[i].links.last(), target, x, y, link_type)
        },
    }
}

/// What replacing one field of a Location does.
pub open spec fn set_field_spec(
    old: ProjectView,
    new: ProjectView,
    location_id: Seq<char>,
    r: Result<(), MutationError>,
    updated: spec_fn(LocationView) -> LocationView,
) -> bool {
    match location_index(old, location_id) {
        None => is_no_location(r, location_id) && new == old,
        Some(i) => r is Ok && new == with_location(old, i, updated(old.locations[i])),
    }
}

/// Remove the first occurrence of `cell`, or add it at the end.
pub open spec fn toggled(cells: Seq<Seq<char>>, cell: Seq<char>) -> Seq<Seq<char>> {
    match first_index_of(cells, cell) {
        Some(k) => cells.remove(k),
        None => cells.push(cell),
    }
}

/// `cells` plus each of `more` not already there, in order, once.
pub open spec fn revealed_with(cells: Seq<Seq<char>>, more: Seq<Seq<char>>) -> Seq<Seq<char>>
    decreases more.len(),
{
    if more.len() == 0 {
        cells
    } else {
        let next = if cells.contains(more[0]) {
            cells
        } else {
            cells.push(more[0])
        };
        revealed_with(next, more.drop_first())
    }
}

/// `cells` without any of `hide`.
pub open spec fn hidden_from(cells: Seq<Seq<char>>, hide: Seq<Seq<char>>) -> Seq<Seq<char>> {
    cells.filter(|c: Seq<char>| !hide.contains(c))
}

/// What changing a Location's fog of war does, given the new cell list.
pub open spec fn fog_change_spec(
    old: ProjectView,
    new: ProjectView,
    location_id: Seq<char>,
    r: Result<(), MutationError>,
    change: spec_fn(Seq<Seq<char>>) -> Seq<Seq<char>>,
) -> bool {
    match location_index(old, location_id) {
        None => is_no_location(r, location_id) && new == old,
        Some(i) => match old.locations[i].fog {
            None => is_no_fog(r, location_id) && new == old,
            Some(cells) => r is Ok && new == with_location(
                old,
                i,
                with_fog(old.locations[i], Some(change(cells))),
            ),
        },
    }
}

proof fn lemma_first_index_at(ids: Seq<Seq<char>>, id: Seq<char>, j: int)
    requires
        0 <= j <= ids.len(),
        forall|k: int| 0 <= k < j ==> ids[k] != id,
        j < ids.len() ==> ids[j] == id,
    ensures
        first_index_of(ids, id) == (if j < ids.len() {
            Some(j)
        } else {
            None
        }),
    decreases ids.len(),
{
    if ids.len() > 0 && ids[0] != id {
        let t = ids.drop_first();
        assert forall|k: int| 0 <= k < j - 1 implies t[k] != id by {
            assert(t[k] == ids[k + 1]);
        }
        if j - 1 < t.len() {
            assert(t[j - 1] == ids[j]);
        }
        lemma_first_index_at(t, id, j - 1);
    }
}

/// Ensures the first occurrence found by `first_index_of` really is one.
pub proof fn lemma_first_index(ids: Seq<Seq<char>>, id: Seq<char>)
    ensures
        match first_index_of(ids, id) {
            Some(k) => 0 <= k < ids.len() && ids[k] == id && forall|j: int|
                0 <= j < k ==> ids[j] != id,
            None => forall|j: int| 0 <= j < ids.len() ==> ids[j] != id,
        },
    decreases ids.len(),
{
    if ids.len() > 0 && ids[0] != id {
        let t = ids.drop_first();
        lemma_first_index(t, id);
        match first_index_of(t, id) {
            Some(k) => {
                assert(ids[k + 1] == t[k]);
                assert forall|j: int| 0 <= j < k + 1 implies ids[j] != id by {
                    if j > 0 {
                        assert(ids[j] == t[j - 1]);
                    }
                }
            },
            None => {
                assert forall|j: int| 0 <= j < ids.len() implies ids[j] != id by {
                    if j > 0 {
                        assert(ids[j] == t[j - 1]);
                    }
                }
            },
        }
    }
}

/// Position of the first Location with this id.
pub fn find_location_index(locations: &Vec<Location>, id: &str) -> (res: Option<usize>)
    ensures
        match res {
            Some(k) => first_index_of(ids_of_locations(locations@), id@) == Some(k as int),
            None => first_index_of(ids_of_locations(locations@), id@) is None,
        },
{
    let ghost ids = ids_of_locations(locations@);
    let target = chars_of(id);
    let mut i: usize = 0;
    while i < locations.len()
        invariant
            i <= locations@.len(),
            target@ == id@,
            ids == ids_of_locations(locations@),
            forall|k: int| 0 <= k < i ==> ids[k] != id@,
        decreases locations@.len() - i,
    {
        let here = chars_of(locations[i].id.as_str());
        if chars_eq(here.as_slice(), target.as_slice()) {
            proof {
                lemma_first_index_at(ids, id@, i as int);
            }
            return Some(i);
        }
        i = i + 1;
    }
    proof {
        lemma_first_index_at(ids, id@, i as int);
    }
    None
}

/// Position of the first Link with this id.
pub fn find_link_index(links: &Vec<Link>, id: &str) -> (res: Option<usize>)
    ensures
        match res {
            Some(k) => first_index_of(link_ids(links@), id@) == Some(k as int),
            None => first_index_of(link_ids(links@), id@) is None,
        },
{
    let ghost ids = link_ids(links@);
    let target = chars_of(id);
    let mut i: usize = 0;
    while i < links.len()
        invariant
            i <= links@.len(),
            target@ == id@,
            ids == link_ids(links@),
            forall|k: int| 0 <= k < i ==> ids[k] != id@,
        decreases links@.len() - i,
    {
        let here = chars_of(links[i].id.as_str());
        if chars_eq(here.as_slice(), target.as_slice()) {
            proof {
                lemma_first_index_at(ids, id@, i as int);
            }
            return Some(i);
        }
        i = i + 1;
    }
    proof {
        lemma_first_index_at(ids, id@, i as int);
    }
    None
}

/// Position of the first of `cells` equal to `cell`.
pub fn find_string_index(cells: &Vec<String>, cell: &str) -> (res: Option<usize>)
    ensures
        match res {
            Some(k) => first_index_of(strings_view(cells@), cell@) == Some(k as int),
            None => first_index_of(strings_view(cells@), cell@) is None,
        },
{
    let ghost ids = strings_view(cells@);
    let target = chars_of(cell);
    let mut i: usize = 0;
    while i < cells.len()
        invariant
            i <= cells@.len(),
            target@ == cell@,
            ids == strings_view(cells@),
            forall|k: int| 0 <= k < i ==> ids[k] != cell@,
        decreases cells@.len() - i,
    {
        let here = chars_of(cells[i].as_str());
        if chars_eq(here.as_slice(), target.as_slice()) {
            proof {
                lemma_first_index_at(ids, cell@, i as int);
            }
            return Some(i);
        }
        i = i + 1;
    }
    proof {
        lemma_first_index_at(ids, cell@, i as int);
    }
    None
}

proof fn lemma_location_ids(p: HexenProject)
    ensures
        location_ids(p@) == ids_of_locations(p.locations@),
{
    assert(location_ids(p@) =~= ids_of_locations(p.locations@));
}

/// The location at `location_id`, or the error naming it.
fn locate(project: &HexenProject, location_id: &str) -> (res: Result<usize, MutationError>)
    ensures
        res is Ok <==> location_index(project@, location_id@) is Some,
        res matches Ok(i) ==> location_index(project@, location_id@) == Some(i as int) && i
            < project.locations@.len(),
        res matches Err(e) ==> e matches MutationError::NoLocation(s) && s@ == location_id@,
{
    proof {
        lemma_location_ids(*project);
        lemma_first_index(location_ids(project@), location_id@);
        assert(location_ids(project@).len() == project.locations@.len());
    }
    match find_location_index(&project.locations, location_id) {
        Some(i) => {
            proof {
                assert(location_ids(project@) == ids_of_locations(project.locations@));
                assert(first_index_of(ids_of_locations(project.locations@), location_id@) == Some(
                    i as int,
                ));
            }
            Ok(i)
        },
        None => Err(MutationError::NoLocation(location_id.to_owned())),
    }
}

/// A new project holding one empty Location, which is also its default.
pub fn create_minimal_project(title: String, default_location_id: String, content: ProjectContent) -> (res:
    HexenProject)
    ensures
        res@ == (ProjectView {
            schema_version: 1,
            title: title@,
            default_location: default_location_id@,
            content: Some(content),
            locations: seq![empty_location(default_location_id@)],
        }),
{
    let id = default_location_id.clone();
    let res = HexenProject {
        schema_version: 1,
        title,
        default_location: default_location_id,
        content: Some(content),
        locations: vec![
            Location {
                id,
                grid: None,
                image: None,
                content: None,
                links: Vec::new(),
                fog: None,
            },
        ],
    };
    proof {
        assert(res@.locations =~= seq![empty_location(res.default_location@)]);
    }
    res
}


proof fn lemma_replace_location(old: HexenProject, new: HexenProject, i: int)
    requires
        0 <= i < old.locations@.len(),
        new.locations@ == old.locations@.update(i, new.locations@[i]),
        new.schema_version == old.schema_version,
        new.title == old.title,
        new.default_location == old.default_location,
        new.content == old.content,
    ensures
        new@ == with_location(old@, i, new.locations@[i]@),
{
    assert(new@.locations =~= old@.locations.update(i, new.locations@[i]@));
}

/// Replaces the fields of the Link `link_id` on Location `location_id`
/// that `patch` sets.
pub fn save_link(project: &mut HexenProject, location_id: &str, link_id: &str, patch: LinkPatch) -> (r:
    Result<(), MutationError>)
    ensures
        save_link_spec(old(project)@, final(project)@, location_id@, link_id@, patch, r),
        r is Ok ==> (location_index(old(project)@, location_id@) matches Some(i) && first_index_of(
            link_ids(old(project)@.locations[i].links),
            link_id@,
        ) matches Some(k) && {
            let o = old(project)@.locations[i].links[k];
            let l = final(project)@.locations[i].links[k];
            &&& l.hidden == if patch.hidden is Some { Some(patch.hidden->0) } else { o.hidden }
            &&& l.color == if patch.color is Some { patch.color } else { o.color }
            &&& l.icon == if patch.icon is Some { patch.icon } else { o.icon }
            &&& l.x == if patch.x is Some { patch.x->0 } else { o.x }
            &&& l.y == if patch.y is Some { patch.y->0 } else { o.y }
            &&& l.target == if patch.target is Some { patch.target->0 } else { o.target }
            &&& l.link_type == if patch.link_type is Some { patch.link_type->0 } else { o.link_type }
            &&& l.id == if patch.id is Some { patch.id->0 } else { o.id }
        }),
{
    let i = match locate(project, location_id) {
        Ok(i) => i,
        Err(e) => {
            return Err(e);
        },
    };
    let ghost links = project.locations@[i as int].links@;
    let k = match find_link_index(&project.locations[i].links, link_id) {
        Some(k) => k,
        None => {
            return Err(MutationError::NoLink(location_id.to_owned(), link_id.to_owned()));
        },
    };
    proof {
        lemma_first_index(link_ids(links), link_id@);
    }
    let cur = project.locations[i].links[k].clone();
    let LinkPatch { id, target, x, y, link_type, icon, color, hidden } = patch;
    let new_link = Link {
        id: match id {
            Some(v) => v,
            None => cur.id,
        },
        target: match target {
            Some(v) => v,
            None => cur.target,
        },
        x: match x {
            Some(v) => v,
            None => cur.x,
        },
        y: match y {
            Some(v) => v,
            None => cur.y,
        },
        link_type: match link_type {
            Some(v) => v,
            None => cur.link_type,
        },
        icon: if icon.is_some() {
            icon
        } else {
            cur.icon
        },
        color: if color.is_some() {
            color
        } else {
            cur.color
        },
        hidden: match hidden {
            Some(h) => Some(h),
            None => cur.hidden,
        },
    };
    let ghost before = *project;
    project.locations[i].links[k] = new_link;
    proof {
        lemma_replace_location(before, *project, i as int);
        assert(project.locations@[i as int]@ == with_links(
            before.locations@[i as int]@,
            links.update(k as int, patched_link(links[k as int], patch)),
        ));
        crate::laws::a_saved_link_takes_what_the_patch_sets(
            before@,
            project@,
            location_id@,
            link_id@,
            patch,
            Ok(()),
        );
    }
    Ok(())
}

/// Sets the inline title and body of Location `location_id`; a Location
/// with no content gets inline content, one with vault content is refused.
pub fn save_location_content(project: &mut HexenProject, location_id: &str, patch:
    InlineContentPatch) -> (r: Result<(), MutationError>)
    ensures
        save_location_content_spec(old(project)@, final(project)@, location_id@, patch, r),
{
    let i = match locate(project, location_id) {
        Ok(i) => i,
        Err(e) => {
            return Err(e);
        },
    };
    let (base_title, base_body) = match &project.locations[i].content {
        None => (String::new(), String::new()),
        Some(LocationContent { kind: Some(LocationContentKind::Inline(inline)) }) => (
            inline.title.clone(),
            match &inline.body {
                Some(b) => b.clone(),
                None => String::new(),
            },
        ),
        Some(_) => {
            let kind = "obsidian".to_owned();
            proof {
                reveal_strlit("obsidian");
                assert(kind@ =~= seq!['o', 'b', 's', 'i', 'd', 'i', 'a', 'n']);
            }
            return Err(MutationError::NotInlineContent(location_id.to_owned(), kind));
        },
    };
    let InlineContentPatch { title, body } = patch;
    let new_content = LocationContent {
        kind: Some(
            LocationContentKind::Inline(
                crate::project::InlineLocationContent {
                    title: match title {
                        Some(t) => t,
                        None => base_title,
                    },
                    body: Some(
                        match body {
                            Some(b) => b,
                            None => base_body,
                        },
                    ),
                },
            ),
        ),
    };
    let ghost before = *project;
    project.locations[i].content = Some(new_content);
    proof {
        lemma_replace_location(before, *project, i as int);
    }
    Ok(())
}

/// A lower-case hexadecimal digit.
pub open spec fn is_hex_lower(c: char) -> bool {
    ('0' <= c <= '9') || ('a' <= c <= 'f')
}

/// The hyphenated text of a version-4 UUID: 8-4-4-4-12 lower-case hex
/// digits, the version digit `4`, and a variant digit of `8`, `9`, `a` or
/// `b`.
pub open spec fn uuid_v4_text(s: Seq<char>) -> bool {
    &&& s.len() == 36
    &&& forall|i: int|
        0 <= i < 36 ==> if i == 8 || i == 13 || i == 18 || i == 23 {
            #[trigger] s[i] == '-'
        } else {
            is_hex_lower(s[i])
        }
    &&& s[14] == '4'
    &&& s[19] == '8' || s[19] == '9' || s[19] == 'a' || s[19] == 'b'
}

/// A fresh random id for a new Link: `uuid::Uuid::new_v4`, written by its
/// `Display` (lower-case hex, hyphenated). Claims only the shape of that
/// text; the digits are random.
#[verifier::external_body]
pub(crate) fn new_link_id() -> (id: String)
    ensures
        uuid_v4_text(id@),
{
    uuid::Uuid::new_v4().to_string()
}

/// Adds a pin at (x, y) on map `parent_location_id` pointing at
/// `target_location_id`, creating that Location first if it is missing.
pub fn add_location_link(
    project: &mut HexenProject,
    parent_location_id: &str,
    target_location_id: &str,
    x: FloatBits,
    y: FloatBits,
    link_type: String,
) -> (r: Result<(), MutationError>)
    ensures
        add_location_link_spec(
            old(project)@,
            final(project)@,
            parent_location_id@,
            target_location_id@,
            x,
            y,
            link_type,
            r,
        ),
{
    let i = match locate(project, parent_location_id) {
        Ok(i) => i,
        Err(e) => {
            return Err(e);
        },
    };
    let ghost start = *project;
    add_location(project, target_location_id);
    let ghost mid = *project;
    assert(mid.locations@.len() >= start.locations@.len()) by {
        assert(mid@.locations.len() == mid.locations@.len());
        assert(start@.locations.len() == start.locations@.len());
    }
    let link = Link {
        id: new_link_id(),
        target: target_location_id.to_owned(),
        x,
        y,
        link_type,
        icon: None,
        color: None,
        hidden: Some(false),
    };
    project.locations[i].links.push(link);
    proof {
        lemma_replace_location(mid, *project, i as int);
        assert(project.locations@[i as int].links@ =~= mid.locations@[i as int].links@.push(link));
    }
    Ok(())
}

/// Replaces the grid of Location `location_id`.
pub fn save_grid(project: &mut HexenProject, location_id: &str, grid: Option<Grid>) -> (r: Result<
    (),
    MutationError,
>)
    ensures
        set_field_spec(
            old(project)@,
            final(project)@,
            location_id@,
            r,
            |l: LocationView| with_grid(l, grid),
        ),
{
    let i = match locate(project, location_id) {
        Ok(i) => i,
        Err(e) => {
            return Err(e);
        },
    };
    let ghost before = *project;
    project.locations[i].grid = grid;
    proof {
        lemma_replace_location(before, *project, i as int);
    }
    Ok(())
}

/// Replaces the base image of Location `location_id`.
pub fn save_image(project: &mut HexenProject, location_id: &str, image: Option<ImageRef>) -> (r:
    Result<(), MutationError>)
    ensures
        set_field_spec(
            old(project)@,
            final(project)@,
            location_id@,
            r,
            |l: LocationView| with_image(l, image),
        ),
{
    let i = match locate(project, location_id) {
        Ok(i) => i,
        Err(e) => {
            return Err(e);
        },
    };
    let ghost before = *project;
    project.locations[i].image = image;
    proof {
        lemma_replace_location(before, *project, i as int);
    }
    Ok(())
}

/// Starts, replaces or (with `None`) ends the fog of war of Location
/// `location_id`.
pub fn set_fog(project: &mut HexenProject, location_id: &str, fog: Option<FogOfWar>) -> (r: Result<
    (),
    MutationError,
>)
    ensures
        set_field_spec(
            old(project)@,
            final(project)@,
            location_id@,
            r,
            |l: LocationView|
                with_fog(
                    l,
                    match fog {
                        Some(f) => Some(f@),
                        None => None,
                    },
                ),
        ),
        r is Ok ==> (location_index(old(project)@, location_id@) matches Some(i)
            && final(project)@.locations[i].fog == match fog {
            Some(f) => Some(f@),
            None => None,
        }),
{
    let i = match locate(project, location_id) {
        Ok(i) => i,
        Err(e) => {
            return Err(e);
        },
    };
    let ghost before = *project;
    project.locations[i].fog = fog;
    proof {
        lemma_replace_location(before, *project, i as int);
    }
    Ok(())
}

/// Reveals `cell` on Location `location_id` if hidden, hides it if revealed.
pub fn toggle_fog_cell(project: &mut HexenProject, location_id: &str, cell: &str) -> (r: Result<
    (),
    MutationError,
>)
    ensures
        fog_change_spec(
            old(project)@,
            final(project)@,
            location_id@,
            r,
            |cells: Seq<Seq<char>>| toggled(cells, cell@),
        ),
{
    let i = match locate(project, location_id) {
        Ok(i) => i,
        Err(e) => {
            return Err(e);
        },
    };
    let mut cells = match &project.locations[i].fog {
        None => {
            return Err(MutationError::NoFog(location_id.to_owned()));
        },
        Some(f) => f.revealed_cells.clone(),
    };
    let ghost old_cells = strings_view(project.locations@[i as int].fog.unwrap().revealed_cells@);
    proof {
        assert(strings_view(cells@) =~= old_cells);
        lemma_first_index(old_cells, cell@);
    }
    match find_string_index(&cells, cell) {
        Some(k) => {
            cells.remove(k);
            proof {
                assert(strings_view(cells@) =~= old_cells.remove(k as int));
            }
        },
        None => {
            cells.push(cell.to_owned());
            proof {
                assert(strings_view(cells@) =~= old_cells.push(cell@));
            }
        },
    }
    let ghost before = *project;
    project.locations[i].fog = Some(FogOfWar { revealed_cells: cells });
    proof {
        lemma_replace_location(before, *project, i as int);
    }
    Ok(())
}

proof fn lemma_revealed_step(cells: Seq<Seq<char>>, more: Seq<Seq<char>>, k: int)
    requires
        0 <= k < more.len(),
    ensures
        revealed_with(cells, more.take(k + 1)) == (if revealed_with(cells, more.take(k)).contains(
            more[k],
        ) {
            revealed_with(cells, more.take(k))
        } else {
            revealed_with(cells, more.take(k)).push(more[k])
        }),
    decreases k,
{
    reveal_with_fuel(revealed_with, 2);
    if k == 0 {
        assert(more.take(1)[0] == more[0]);
        assert(more.take(1).drop_first() =~= Seq::<Seq<char>>::empty());
        assert(more.take(0) =~= Seq::<Seq<char>>::empty());
    } else {
        let next = if cells.contains(more[0]) {
            cells
        } else {
            cells.push(more[0])
        };
        let rest = more.drop_first();
        assert(more.take(k + 1)[0] == more[0]);
        assert(more.take(k)[0] == more[0]);
        lemma_revealed_step(next, rest, k - 1);
        assert(more.take(k + 1).drop_first() =~= rest.take(k));
        assert(more.take(k).drop_first() =~= rest.take(k - 1));
        assert(rest[k - 1] == more[k]);
    }
}

/// Reveals (with `revealed`) or hides every one of `cells` on Location
/// `location_id` at once; revealing a cell twice keeps one entry.
pub fn set_fog_cells(project: &mut HexenProject, location_id: &str, cells: &Vec<String>, revealed: bool) -> (r:
    Result<(), MutationError>)
    ensures
        fog_change_spec(
            old(project)@,
            final(project)@,
            location_id@,
            r,
            |old_cells: Seq<Seq<char>>|
                if revealed {
                    revealed_with(old_cells, strings_view(cells@))
                } else {
                    hidden_from(old_cells, strings_view(cells@))
                },
        ),
{
    let i = match locate(project, location_id) {
        Ok(i) => i,
        Err(e) => {
            return Err(e);
        },
    };
    let current = match &project.locations[i].fog {
        None => {
            return Err(MutationError::NoFog(location_id.to_owned()));
        },
        Some(f) => f.revealed_cells.clone(),
    };
    let ghost old_cells = strings_view(project.locations@[i as int].fog.unwrap().revealed_cells@);
    let ghost more = strings_view(cells@);
    proof {
        assert(strings_view(current@) =~= old_cells);
    }
    let mut next: Vec<String> = Vec::new();
    if revealed {
        next = current;
        let mut k: usize = 0;
        while k < cells.len()
            invariant
                k <= cells@.len(),
                more == strings_view(cells@),
                strings_view(next@) == revealed_with(old_cells, more.take(k as int)),
            decreases cells@.len() - k,
        {
            proof {
                lemma_revealed_step(old_cells, more, k as int);
                lemma_first_index(strings_view(next@), more[k as int]);
            }
            let ghost prev = strings_view(next@);
            match find_string_index(&next, cells[k].as_str()) {
                Some(_) => {
                    proof {
                        assert(prev.contains(more[k as int]));
                    }
                },
                None => {
                    next.push(cells[k].clone());
                    proof {
                        assert(strings_view(next@) =~= prev.push(more[k as int]));
                    }
                },
            }
            k = k + 1;
        }
        proof {
            assert(more.take(cells@.len() as int) =~= more);
        }
    } else {
        let mut k: usize = 0;
        while k < current.len()
            invariant
                k <= current@.len(),
                more == strings_view(cells@),
                strings_view(current@) == old_cells,
                strings_view(next@) == hidden_from(old_cells.take(k as int), more),
            decreases current@.len() - k,
        {
            let ghost prev = strings_view(next@);
            proof {
                lemma_first_index(more, old_cells[k as int]);
                assert(old_cells.take(k + 1) =~= old_cells.take(k as int).push(old_cells[k as int]));
                old_cells.take(k as int).lemma_filter_push(old_cells[k as int], |c: Seq<char>| !more.contains(c));
            }
            match find_string_index(cells, current[k].as_str()) {
                Some(_) => {
                },
                None => {
                    next.push(current[k].clone());
                    proof {
                        assert(strings_view(next@) =~= prev.push(old_cells[k as int]));
                    }
                },
            }
            k = k + 1;
        }
        proof {
            assert(old_cells.take(current@.len() as int) =~= old_cells);
        }
    }
    let ghost before = *project;
    project.locations[i].fog = Some(FogOfWar { revealed_cells: next });
    proof {
        lemma_replace_location(before, *project, i as int);
    }
    Ok(())
}

/// Adds an empty Location `location_id` (not yet linked from anywhere)
/// unless the project already has one with that id.
pub fn add_location(project: &mut HexenProject, location_id: &str) -> (r: Result<(), MutationError>)
    ensures
        r is Ok,
        final(project)@ == ensure_location(old(project)@, location_id@),
{
    proof {
        lemma_location_ids(*project);
    }
    match find_location_index(&project.locations, location_id) {
        Some(_) => {
        },
        None => {
            let ghost before = *project;
            project.locations.push(
                Location {
                    id: location_id.to_owned(),
                    grid: None,
                    image: None,
                    content: None,
                    links: Vec::new(),
                    fog: None,
                },
            );
            proof {
                assert(project@.locations =~= before@.locations.push(empty_location(location_id@)));
            }
        },
    }
    Ok(())
}

} // verus!
