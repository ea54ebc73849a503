//! The Obsidian vault importer's core: each note's frontmatter (already
//! read) and each map's image in, the Location/Link graph out. A map-root
//! note becomes a Location with a hex grid; each pinned note becomes a
//! Location of its own (for its content) and a Link on its map's Location
//! (for its position).

use vstd::prelude::*;

use crate::content::{
    last_segment, note_parts, rfind_in, split_frontmatter, yaml_bool_field, yaml_bool_field_of,
    yaml_f64_field, yaml_f64_field_of, yaml_string_field, yaml_string_field_of,
};
use crate::mutations::{find_string_index, first_index_of, new_link_id, uuid_v4_text};
use crate::project::{
    strings_view, FloatBits, Grid, GridKind, GridStyle, HexGrid, HexenProject, ImageRef, Link,
    Location, LocationContent, LocationContentKind, LocationView, ObsidianLocationContent,
    ObsidianProjectContent, Point, ProjectContent, ProjectContentKind, ProjectView,
};
use crate::paths::joined_path;
use crate::resolver::join;
use crate::slug::{note_slug, slugify, to_lowercase, unicode_lowercase};
use crate::text::{chars_of, extend_from_str, string_from_chars, string_from_range};
use crate::urls::{decimal, push_decimal};

verus! {

/// What the importer reads off a note's frontmatter, each key as YAML
/// gives it: `map-root` as a boolean, the texts as strings, the numbers
/// as `f64` (held as their bits); absent where the key is missing or of
/// another type.
#[derive(Debug, Default, PartialEq)]
pub struct NoteFields {
    pub map_root: Option<bool>,
    pub map_id: Option<String>,
    pub hex_origin_x: Option<FloatBits>,
    pub hex_origin_y: Option<FloatBits>,
    pub hex_b1_x: Option<FloatBits>,
    pub hex_b1_y: Option<FloatBits>,
    pub hex_b2_x: Option<FloatBits>,
    pub hex_b2_y: Option<FloatBits>,
    pub km_per_hex: Option<FloatBits>,
    pub hex_color: Option<String>,
    pub hex_weight: Option<FloatBits>,
    pub hex_opacity: Option<FloatBits>,
    pub map: Option<String>,
    pub map_x: Option<FloatBits>,
    pub map_y: Option<FloatBits>,
    pub map_type: Option<String>,
    pub map_icon: Option<String>,
    pub map_color: Option<String>,
}

/// One note of the vault.
#[derive(Debug, Default, PartialEq)]
pub struct VaultEntry {
    /// Path to the note, relative to the vault root, `/`-separated.
    pub relative_path: String,
    pub frontmatter: NoteFields,
}

/// The bits of `1.0`, a grid line's default weight.
pub const DEFAULT_WEIGHT_BITS: u64 = 0x3ff0_0000_0000_0000;

/// The bits of `0.45`, a grid line's default opacity.
pub const DEFAULT_OPACITY_BITS: u64 = 0x3fdc_cccc_cccc_cccd;

/// A text field's characters, empty when absent.
pub open spec fn chars_or_empty(o: Option<String>) -> Seq<char> {
    match o {
        Some(s) => s@,
        None => Seq::empty(),
    }
}

/// A number field, `0.0` when absent.
pub open spec fn or_zero(v: Option<FloatBits>) -> FloatBits {
    match v {
        Some(b) => b,
        None => FloatBits { bits: 0 },
    }
}

/// A note that declares a map: `map-root: true` and a `map-id`.
pub open spec fn is_map_root(f: NoteFields) -> bool {
    f.map_root == Some(true) && f.map_id is Some
}

/// A note pinned on a map: a `map` and both coordinates.
pub open spec fn is_pin(f: NoteFields) -> bool {
    f.map is Some && f.map_x is Some && f.map_y is Some
}

pub open spec fn root_entries(es: Seq<VaultEntry>) -> Seq<VaultEntry> {
    es.filter(|e: VaultEntry| is_map_root(e.frontmatter))
}

pub open spec fn pin_entries(es: Seq<VaultEntry>) -> Seq<VaultEntry> {
    es.filter(|e: VaultEntry| is_pin(e.frontmatter))
}

/// The map ids the map-root notes declare, in order.
pub open spec fn map_ids(es: Seq<VaultEntry>) -> Seq<Seq<char>> {
    root_entries(es).map_values(|e: VaultEntry| chars_or_empty(e.frontmatter.map_id))
}

/// The pins whose map some map-root note declares, in order: each gets a
/// Link, and with it the next fresh link id.
pub open spec fn linked_pins(es: Seq<VaultEntry>) -> Seq<VaultEntry> {
    pin_entries(es).filter(|e: VaultEntry| map_ids(es).contains(chars_or_empty(e.frontmatter.map)))
}

/// The image given for map `id`, if any.
pub open spec fn image_for(images: Seq<(String, ImageRef)>, id: Seq<char>) -> Option<ImageRef>
    decreases images.len(),
{
    if images.len() == 0 {
        None
    } else if images[0].0@ == id {
        Some(images[0].1)
    } else {
        image_for(images.drop_first(), id)
    }
}

/// A map is calibrated when its origin and both basis vectors have an x.
pub open spec fn calibrated(f: NoteFields) -> bool {
    f.hex_origin_x is Some && f.hex_b1_x is Some && f.hex_b2_x is Some
}

pub open spec fn point_of(x: Option<FloatBits>, y: Option<FloatBits>) -> Point {
    Point { x: or_zero(x), y: or_zero(y) }
}

pub open spec fn default_grid_color() -> Seq<char> {
    "#c19a5f"@
}

/// The grid a map-root note's calibration gives: none when uncalibrated,
/// else a hex grid with the note's geometry and style, defaults filled in.
pub open spec fn is_imported_grid(g: Option<Grid>, f: NoteFields) -> bool {
    if !calibrated(f) {
        g is None
    } else {
        &&& g matches Some(Grid { kind: Some(GridKind::Hex(h)) })
        &&& h.origin == Some(point_of(f.hex_origin_x, f.hex_origin_y))
        &&& h.b1 == Some(point_of(f.hex_b1_x, f.hex_b1_y))
        &&& h.b2 == Some(point_of(f.hex_b2_x, f.hex_b2_y))
        &&& h.distance_per_cell == f.km_per_hex
        &&& h.style matches Some(s)
        &&& s.color@ == match f.hex_color {
            Some(c) => c@,
            None => default_grid_color(),
        }
        &&& s.weight == Some(
            match f.hex_weight {
                Some(w) => w,
                None => FloatBits { bits: DEFAULT_WEIGHT_BITS },
            },
        )
        &&& s.opacity == Some(
            match f.hex_opacity {
                Some(o) => o,
                None => FloatBits { bits: DEFAULT_OPACITY_BITS },
            },
        )
    }
}

/// Content read from the vault note at `reference`.
pub open spec fn is_note_content(c: Option<LocationContent>, reference: Seq<char>) -> bool {
    c matches Some(LocationContent { kind: Some(LocationContentKind::Obsidian(o) ) })
        && o.reference@ == reference
}

/// A note's file name without its `.md` (or `.MD`) suffix.
pub open spec fn note_stem(path: Seq<char>) -> Seq<char> {
    let seg = last_segment(path);
    let n = seg.len();
    if n >= 3 && seg[n - 3] == '.' && ((seg[n - 2] == 'm' && seg[n - 1] == 'd') || (seg[n - 2]
        == 'M' && seg[n - 1] == 'D')) {
        seg.take(n - 3)
    } else {
        seg
    }
}

/// The Location id of the pinned note at `path`.
pub open spec fn pin_id(path: Seq<char>) -> Seq<char> {
    note_slug(note_stem(path))
}

pub open spec fn default_link_type() -> Seq<char> {
    "waypoint"@
}

/// The Link a pinned note puts on its map.
pub open spec fn is_pin_link(l: Link, e: VaultEntry, id: Seq<char>) -> bool {
    let f = e.frontmatter;
    &&& l.id@ == id
    &&& l.target@ == pin_id(e.relative_path@)
    &&& l.x == or_zero(f.map_x)
    &&& l.y == or_zero(f.map_y)
    &&& l.link_type@ == match f.map_type {
        Some(t) => t@,
        None => default_link_type(),
    }
    &&& l.icon == f.map_icon
    &&& l.color == f.map_color
    &&& l.hidden == Some(false)
}

/// The linked pins on map `map`, each with its link id, in order.
pub open spec fn pins_on_map(linked: Seq<VaultEntry>, ids: Seq<Seq<char>>, map: Seq<char>) -> Seq<
    (VaultEntry, Seq<char>),
>
    decreases linked.len(),
{
    if linked.len() == 0 {
        Seq::empty()
    } else {
        let rest = pins_on_map(linked.drop_last(), ids, map);
        if chars_or_empty(linked.last().frontmatter.map) == map {
            rest.push((linked.last(), ids[linked.len() - 1]))
        } else {
            rest
        }
    }
}

pub open spec fn links_match(links: Seq<Link>, pins: Seq<(VaultEntry, Seq<char>)>) -> bool {
    &&& links.len() == pins.len()
    &&& forall|k: int|
        0 <= k < links.len() ==> #[trigger] is_pin_link(links[k], pins[k].0, pins[k].1)
}

/// A map-root note's Location apart from its Links: its map's id, grid,
/// image and note.
pub open spec fn is_root_base(l: LocationView, e: VaultEntry, images: Seq<(String, ImageRef)>) -> bool {
    let id = chars_or_empty(e.frontmatter.map_id);
    &&& l.id == id
    &&& is_imported_grid(l.grid, e.frontmatter)
    &&& l.image == image_for(images, id)
    &&& is_note_content(l.content, e.relative_path@)
    &&& l.fog is None
}

/// The `i`th map-root Location: its map's id, grid, image and note; the
/// Links of its map's pins go to the first map-root of that id only.
pub open spec fn is_root_location(
    l: LocationView,
    i: int,
    es: Seq<VaultEntry>,
    images: Seq<(String, ImageRef)>,
    ids: Seq<Seq<char>>,
) -> bool {
    let id = chars_or_empty(root_entries(es)[i].frontmatter.map_id);
    &&& is_root_base(l, root_entries(es)[i], images)
    &&& if first_index_of(map_ids(es), id) == Some(i) {
        links_match(l.links, pins_on_map(linked_pins(es), ids, id))
    } else {
        l.links.len() == 0
    }
}

/// A pinned note's own Location: its id and its note, nothing else.
pub open spec fn is_pin_location(l: LocationView, e: VaultEntry) -> bool {
    &&& l.id == pin_id(e.relative_path@)
    &&& l.grid is None
    &&& l.image is None
    &&& is_note_content(l.content, e.relative_path@)
    &&& l.links.len() == 0
    &&& l.fog is None
}

/// The map-root Locations in note order, then the pinned notes' own
/// Locations in note order.
pub open spec fn imported_locations(
    locs: Seq<LocationView>,
    es: Seq<VaultEntry>,
    images: Seq<(String, ImageRef)>,
    ids: Seq<Seq<char>>,
) -> bool {
    let nr = root_entries(es).len();
    let pins = pin_entries(es);
    let pin_locs = locs.skip(nr as int);
    &&& locs.len() == nr + pins.len()
    &&& forall|i: int| 0 <= i < nr ==> #[trigger] is_root_location(locs[i], i, es, images, ids)
    &&& forall|j: int| 0 <= j < pins.len() ==> #[trigger] is_pin_location(pin_locs[j], pins[j])
}

/// The default Location: the first map's, else the first Location's, else
/// empty.
pub open spec fn default_location_for(es: Seq<VaultEntry>) -> Seq<char> {
    if root_entries(es).len() > 0 {
        map_ids(es)[0]
    } else if pin_entries(es).len() > 0 {
        pin_id(pin_entries(es)[0].relative_path@)
    } else {
        Seq::empty()
    }
}

/// The whole project the importer builds.
pub open spec fn is_imported_project(
    p: ProjectView,
    es: Seq<VaultEntry>,
    title: Seq<char>,
    vault_root: Seq<char>,
    images: Seq<(String, ImageRef)>,
    ids: Seq<Seq<char>>,
) -> bool {
    &&& p.schema_version == 1
    &&& p.title == title
    &&& p.default_location == default_location_for(es)
    &&& p.content matches Some(ProjectContent { kind: Some(ProjectContentKind::Obsidian(o)) })
        && o.vault_root@ == vault_root
    &&& imported_locations(p.locations, es, images, ids)
}

pub open spec fn missing_image_message(map: Seq<char>) -> Seq<char> {
    "No resolved image for map \""@ + map + "\" — image will be null."@
}

pub open spec fn orphan_pin_message(path: Seq<char>, map: Seq<char>) -> Seq<char> {
    "\""@ + path + "\" has map: \""@ + map
        + "\", but no map-root note declares that map-id — dropping its pin."@
}

pub open spec fn no_root_message() -> Seq<char> {
    "No map-root note found — defaultLocation will be a guess."@
}

pub open spec fn many_roots_message(n: nat, id: Seq<char>) -> Seq<char> {
    decimal(n) + " map-root notes found; using \""@ + id + "\" as defaultLocation."@
}

/// One warning per map-root note whose map has no image, in order.
pub open spec fn missing_image_warnings(roots: Seq<VaultEntry>, images: Seq<(String, ImageRef)>) -> Seq<
    Seq<char>,
>
    decreases roots.len(),
{
    if roots.len() == 0 {
        Seq::empty()
    } else {
        let id = chars_or_empty(roots.last().frontmatter.map_id);
        missing_image_warnings(roots.drop_last(), images) + if image_for(images, id) is None {
            seq![missing_image_message(id)]
        } else {
            Seq::empty()
        }
    }
}

/// One warning per pin whose map no map-root note declares, in order.
pub open spec fn orphan_pin_warnings(pins: Seq<VaultEntry>, maps: Seq<Seq<char>>) -> Seq<Seq<char>>
    decreases pins.len(),
{
    if pins.len() == 0 {
        Seq::empty()
    } else {
        let map = chars_or_empty(pins.last().frontmatter.map);
        orphan_pin_warnings(pins.drop_last(), maps) + if maps.contains(map) {
            Seq::empty()
        } else {
            seq![orphan_pin_message(pins.last().relative_path@, map)]
        }
    }
}

/// The warning about how the default Location was picked, if any.
pub open spec fn default_warnings(es: Seq<VaultEntry>) -> Seq<Seq<char>> {
    let n = root_entries(es).len();
    if n == 0 {
        seq![no_root_message()]
    } else if n > 1 {
        seq![many_roots_message(n, map_ids(es)[0])]
    } else {
        Seq::empty()
    }
}

/// Every warning of an import, in the order they arise.
pub open spec fn import_warnings(es: Seq<VaultEntry>, images: Seq<(String, ImageRef)>) -> Seq<
    Seq<char>,
> {
    missing_image_warnings(root_entries(es), images) + orphan_pin_warnings(
        pin_entries(es),
        map_ids(es),
    ) + default_warnings(es)
}

/// Whether `f` declares a map.
pub fn note_is_map_root(f: &NoteFields) -> (res: bool)
    ensures
        res == is_map_root(*f),
{
    f.map_root == Some(true) && f.map_id.is_some()
}

/// Whether `f` pins its note on a map.
pub fn note_is_pin(f: &NoteFields) -> (res: bool)
    ensures
        res == is_pin(*f),
{
    f.map.is_some() && f.map_x.is_some() && f.map_y.is_some()
}

fn number_or(v: Option<FloatBits>, bits: u64) -> (res: FloatBits)
    ensures
        res == match v {
            Some(b) => b,
            None => FloatBits { bits },
        },
{
    match v {
        Some(b) => b,
        None => FloatBits { bits },
    }
}

/// The grid a map-root note's calibration gives.
pub fn imported_grid(f: &NoteFields) -> (res: Option<Grid>)
    ensures
        is_imported_grid(res, *f),
{
    if !(f.hex_origin_x.is_some() && f.hex_b1_x.is_some() && f.hex_b2_x.is_some()) {
        return None;
    }
    let color = match &f.hex_color {
        Some(c) => c.clone(),
        None => {
            let mut v: Vec<char> = Vec::new();
            extend_from_str(&mut v, "#c19a5f");
            string_from_chars(v.as_slice())
        },
    };
    let style = GridStyle {
        color,
        weight: Some(number_or(f.hex_weight, DEFAULT_WEIGHT_BITS)),
        opacity: Some(number_or(f.hex_opacity, DEFAULT_OPACITY_BITS)),
    };
    let hex = HexGrid {
        origin: Some(Point { x: number_or(f.hex_origin_x, 0), y: number_or(f.hex_origin_y, 0) }),
        b1: Some(Point { x: number_or(f.hex_b1_x, 0), y: number_or(f.hex_b1_y, 0) }),
        b2: Some(Point { x: number_or(f.hex_b2_x, 0), y: number_or(f.hex_b2_y, 0) }),
        distance_per_cell: f.km_per_hex,
        style: Some(style),
    };
    Some(Grid { kind: Some(GridKind::Hex(hex)) })
}

/// Content read from the vault note at `path`.
pub fn note_location_content(path: &str) -> (res: Option<LocationContent>)
    ensures
        is_note_content(res, path@),
{
    let reference = string_from_chars(chars_of(path).as_slice());
    Some(
        LocationContent {
            kind: Some(LocationContentKind::Obsidian(ObsidianLocationContent { reference })),
        },
    )
}

/// The Location id of the pinned note at `path`: its file name, without
/// `.md`, slugified.
pub fn pin_location_id(path: &str) -> (res: String)
    ensures
        res@ == pin_id(path@),
{
    let v = chars_of(path);
    let n = v.len();
    proof {
        assert(v@.subrange(0, n as int) =~= v@);
    }
    let start = match rfind_in(v.as_slice(), 0, n, '/') {
        Some(i) => i + 1,
        None => 0,
    };
    let ghost seg = last_segment(path@);
    proof {
        assert(seg =~= v@.subrange(start as int, n as int));
    }
    let len = n - start;
    let end = if len >= 3 && v[n - 3] == '.' && ((v[n - 2] == 'm' && v[n - 1] == 'd') || (v[n
        - 2] == 'M' && v[n - 1] == 'D')) {
        n - 3
    } else {
        n
    };
    proof {
        if len >= 3 {
            assert(seg[len - 3] == v@[n - 3]);
            assert(seg[len - 2] == v@[n - 2]);
            assert(seg[len - 1] == v@[n - 1]);
        }
        assert(note_stem(path@) =~= v@.subrange(start as int, end as int));
    }
    slugify(string_from_range(v.as_slice(), start, end).as_str())
}

/// The image given for map `id`: the first entry keyed `id`.
pub fn map_image(images: &[(String, ImageRef)], id: &str) -> (res: Option<ImageRef>)
    ensures
        res == image_for(images@, id@),
{
    let key = chars_of(id);
    let mut i: usize = 0;
    proof {
        assert(images@.skip(0) =~= images@);
    }
    while i < images.len()
        invariant
            i <= images@.len(),
            key@ == id@,
            image_for(images@, id@) == image_for(images@.skip(i as int), id@),
        decreases images@.len() - i,
    {
        let ghost rest = images@.skip(i as int);
        proof {
            assert(rest[0] == images@[i as int]);
            assert(rest.drop_first() =~= images@.skip(i + 1));
        }
        if crate::text::chars_eq(chars_of(images[i].0.as_str()).as_slice(), key.as_slice()) {
            return Some(images[i].1.clone());
        }
        i = i + 1;
    }
    proof {
        assert(images@.skip(i as int) =~= Seq::<(String, ImageRef)>::empty());
    }
    None
}

/// The Link the pinned note `e` puts on its map, with link id `id`.
fn pin_link(e: &VaultEntry, id: String, target: String) -> (res: Link)
    requires
        target@ == pin_id(e.relative_path@),
    ensures
        is_pin_link(res, *e, id@),
{
    let f = &e.frontmatter;
    let link_type = match &f.map_type {
        Some(t) => t.clone(),
        None => {
            let mut v: Vec<char> = Vec::new();
            extend_from_str(&mut v, "waypoint");
            string_from_chars(v.as_slice())
        },
    };
    Link {
        id,
        target,
        x: number_or(f.map_x, 0),
        y: number_or(f.map_y, 0),
        link_type,
        icon: crate::project::clone_opt_string(&f.map_icon),
        color: crate::project::clone_opt_string(&f.map_color),
        hidden: Some(false),
    }
}

proof fn lemma_take_filter_step(es: Seq<VaultEntry>, i: int, pred: spec_fn(VaultEntry) -> bool)
    requires
        0 <= i < es.len(),
    ensures
        es.take(i + 1).filter(pred) == if pred(es[i]) {
            es.take(i).filter(pred).push(es[i])
        } else {
            es.take(i).filter(pred)
        },
{
    assert(es.take(i + 1) =~= es.take(i).push(es[i]));
    es.take(i).lemma_filter_push(es[i], pred);
}

proof fn lemma_contains_first(ids: Seq<Seq<char>>, id: Seq<char>)
    ensures
        ids.contains(id) <==> first_index_of(ids, id) is Some,
{
    crate::mutations::lemma_first_index(ids, id);
    if ids.contains(id) {
        let k = choose|k: int| 0 <= k < ids.len() && ids[k] == id;
        assert(ids[k] == id);
    }
}

fn missing_image_text(id: &str) -> (res: String)
    ensures
        res@ == missing_image_message(id@),
{
    let mut v: Vec<char> = Vec::new();
    extend_from_str(&mut v, "No resolved image for map \"");
    extend_from_str(&mut v, id);
    extend_from_str(&mut v, "\" — image will be null.");
    string_from_chars(v.as_slice())
}

fn orphan_pin_text(path: &str, map: &str) -> (res: String)
    ensures
        res@ == orphan_pin_message(path@, map@),
{
    let mut v: Vec<char> = Vec::new();
    extend_from_str(&mut v, "\"");
    extend_from_str(&mut v, path);
    extend_from_str(&mut v, "\" has map: \"");
    extend_from_str(&mut v, map);
    extend_from_str(&mut v, "\", but no map-root note declares that map-id — dropping its pin.");
    string_from_chars(v.as_slice())
}

/// The map-root Locations (Links not yet added), their map ids, and the
/// missing-image warnings.
fn import_roots(entries: &[VaultEntry], map_images: &[(String, ImageRef)]) -> (res: (
    Vec<Location>,
    Vec<String>,
    Vec<String>,
))
    ensures
        strings_view(res.1@) == map_ids(entries@),
        res.0@.len() == res.1@.len(),
        forall|r: int|
            0 <= r < res.0@.len() ==> #[trigger] is_root_base(
                res.0@[r]@,
                root_entries(entries@)[r],
                map_images@,
            ) && res.0@[r]@.links.len() == 0,
        strings_view(res.2@) == missing_image_warnings(root_entries(entries@), map_images@),
{
    let ghost es = entries@;
    let ghost pred = |e: VaultEntry| is_map_root(e.frontmatter);
    let mut locations: Vec<Location> = Vec::new();
    let mut ids: Vec<String> = Vec::new();
    let mut warnings: Vec<String> = Vec::new();
    let n = entries.len();
    let mut i: usize = 0;
    while i < n
        invariant
            n == es.len(),
            es == entries@,
            i <= n,
            pred == (|e: VaultEntry| is_map_root(e.frontmatter)),
            strings_view(ids@) == root_entries(es.take(i as int)).map_values(
                |e: VaultEntry| chars_or_empty(e.frontmatter.map_id),
            ),
            locations@.len() == ids@.len(),
            forall|r: int|
                0 <= r < locations@.len() ==> #[trigger] is_root_base(
                    locations@[r]@,
                    root_entries(es.take(i as int))[r],
                    map_images@,
                ) && locations@[r]@.links.len() == 0,
            strings_view(warnings@) == missing_image_warnings(
                root_entries(es.take(i as int)),
                map_images@,
            ),
        decreases n - i,
    {
        let e = &entries[i];
        proof {
            lemma_take_filter_step(es, i as int, pred);
        }
        let ghost before = root_entries(es.take(i as int));
        if note_is_map_root(&e.frontmatter) {
            let id = match &e.frontmatter.map_id {
                Some(m) => m.clone(),
                None => String::new(),
            };
            let image = map_image(map_images, id.as_str());
            let ghost prev_w = strings_view(warnings@);
            if image.is_none() {
                warnings.push(missing_image_text(id.as_str()));
            }
            proof {
                let after = before.push(*e);
                assert(after.drop_last() =~= before);
                if image.is_none() {
                    assert(strings_view(warnings@) =~= prev_w + seq![missing_image_message(id@)]);
                } else {
                    assert(strings_view(warnings@) =~= prev_w + Seq::<Seq<char>>::empty());
                }
            }
            let ghost prev_locs = locations@;
            let ghost prev_ids = strings_view(ids@);
            let loc = Location {
                id: id.clone(),
                grid: imported_grid(&e.frontmatter),
                image,
                content: note_location_content(e.relative_path.as_str()),
                links: Vec::new(),
                fog: None,
            };
            proof {
                assert(loc@.id == chars_or_empty(e.frontmatter.map_id));
                assert(is_root_base(loc@, *e, map_images@));
                assert(loc@.links.len() == 0);
            }
            locations.push(loc);
            ids.push(id);
            proof {
                let after = before.push(*e);
                assert(root_entries(es.take(i + 1)) == after);
                assert(strings_view(ids@) =~= prev_ids.push(chars_or_empty(e.frontmatter.map_id)));
                assert(strings_view(ids@) =~= after.map_values(
                    |e: VaultEntry| chars_or_empty(e.frontmatter.map_id),
                ));
                assert forall|r: int| 0 <= r < locations@.len() implies #[trigger] is_root_base(
                    locations@[r]@,
                    after[r],
                    map_images@,
                ) && locations@[r]@.links.len() == 0 by {
                    if r < prev_locs.len() {
                        assert(locations@[r] == prev_locs[r]);
                        assert(after[r] == before[r]);
                    } else {
                        assert(after[r] == *e);
                        assert(locations@[r] == loc);
                    }
                }
            }
        } else {
            proof {
                assert(root_entries(es.take(i + 1)) == before);
            }
        }
        i = i + 1;
    }
    proof {
        assert(es.take(n as int) =~= es);
    }
    (locations, ids, warnings)
}

/// The pins on the first `j` notes that have a known map.
pub open spec fn linked_prefix(es: Seq<VaultEntry>, j: int) -> Seq<VaultEntry> {
    pin_entries(es.take(j)).filter(
        |e: VaultEntry| map_ids(es).contains(chars_or_empty(e.frontmatter.map)),
    )
}

proof fn lemma_linked_prefix_step(es: Seq<VaultEntry>, j: int)
    requires
        0 <= j < es.len(),
    ensures
        linked_prefix(es, j + 1) == if is_pin(es[j].frontmatter) && map_ids(es).contains(
            chars_or_empty(es[j].frontmatter.map),
        ) {
            linked_prefix(es, j).push(es[j])
        } else {
            linked_prefix(es, j)
        },
{
    let has_map = |e: VaultEntry| map_ids(es).contains(chars_or_empty(e.frontmatter.map));
    lemma_take_filter_step(es, j, |e: VaultEntry| is_pin(e.frontmatter));
    if is_pin(es[j].frontmatter) {
        pin_entries(es.take(j)).lemma_filter_push(es[j], has_map);
    }
}

proof fn lemma_linked_prefix_len(es: Seq<VaultEntry>, j: int)
    requires
        0 <= j <= es.len(),
    ensures
        linked_prefix(es, j).len() <= linked_pins(es).len(),
    decreases es.len() - j,
{
    if j < es.len() {
        lemma_linked_prefix_len(es, j + 1);
        lemma_linked_prefix_step(es, j);
    } else {
        assert(es.take(j) =~= es);
    }
}

/// Adds each pinned note's own Location, and its Link to the first
/// map-root Location of its map (the next of `link_ids` as its id), or a
/// warning when no map-root note declares its map.
fn import_pins(
    entries: &[VaultEntry],
    Ghost(images): Ghost<Seq<(String, ImageRef)>>,
    locations: &mut Vec<Location>,
    root_ids: &Vec<String>,
    link_ids: &[String],
    warnings: &mut Vec<String>,
)
    requires
        strings_view(root_ids@) == map_ids(entries@),
        old(locations)@.len() == root_ids@.len(),
        forall|r: int|
            0 <= r < old(locations)@.len() ==> #[trigger] is_root_base(
                old(locations)@[r]@,
                root_entries(entries@)[r],
                images,
            ) && old(locations)@[r]@.links.len() == 0,
        link_ids@.len() == linked_pins(entries@).len(),
    ensures
        final(locations)@.len() == root_ids@.len() + pin_entries(entries@).len(),
        forall|r: int|
            0 <= r < root_ids@.len() ==> #[trigger] is_root_location(
                final(locations)@[r]@,
                r,
                entries@,
                images,
                strings_view(link_ids@),
            ),
        forall|j: int|
            0 <= j < pin_entries(entries@).len() ==> is_pin_location(
                final(locations)@[root_ids@.len() + j]@,
                #[trigger] pin_entries(entries@)[j],
            ),
        strings_view(final(warnings)@) == strings_view(old(warnings)@) + orphan_pin_warnings(
            pin_entries(entries@),
            map_ids(entries@),
        ),
{
    let ghost es = entries@;
    let ghost mids = map_ids(es);
    let ghost ids = strings_view(link_ids@);
    let ghost roots = root_entries(es);
    let ghost init_w = strings_view(warnings@);
    let ghost pin_pred = |e: VaultEntry| is_pin(e.frontmatter);
    let nr = root_ids.len();
    let n = entries.len();
    let mut used: usize = 0;
    let mut i: usize = 0;
    proof {
        assert(es.take(0) =~= Seq::<VaultEntry>::empty());
        reveal(Seq::filter);
        assert(pin_entries(es.take(0)) =~= Seq::<VaultEntry>::empty());
        assert(linked_prefix(es, 0) =~= Seq::<VaultEntry>::empty());
        assert(strings_view(warnings@) =~= init_w + Seq::<Seq<char>>::empty());
        assert forall|r: int| #![trigger locations@[r]] 0 <= r < nr implies is_root_base(
            locations@[r]@,
            roots[r],
            images,
        ) && if first_index_of(mids, mids[r]) == Some(r) {
            links_match(locations@[r]@.links, pins_on_map(linked_prefix(es, 0), ids, mids[r]))
        } else {
            locations@[r]@.links.len() == 0
        } by {
            assert(is_root_base(old(locations)@[r]@, root_entries(entries@)[r], images));
            assert(pins_on_map(linked_prefix(es, 0), ids, mids[r]) =~= Seq::<(VaultEntry, Seq<char>)>::empty());
        }
    }
    while i < n
        invariant
            n == es.len(),
            es == entries@,
            i <= n,
            nr == root_ids@.len(),
            mids == map_ids(es),
            mids == strings_view(root_ids@),
            roots == root_entries(es),
            ids == strings_view(link_ids@),
            ids.len() == linked_pins(es).len(),
            pin_pred == (|e: VaultEntry| is_pin(e.frontmatter)),
            locations@.len() == nr + pin_entries(es.take(i as int)).len(),
            used == linked_prefix(es, i as int).len(),
            forall|r: int|
                #![trigger locations@[r]]
                0 <= r < nr ==> is_root_base(locations@[r]@, roots[r], images) && if first_index_of(
                    mids,
                    mids[r],
                ) == Some(r) {
                    links_match(locations@[r]@.links, pins_on_map(linked_prefix(es, i as int), ids, mids[r]))
                } else {
                    locations@[r]@.links.len() == 0
                },
            forall|j: int|
                0 <= j < pin_entries(es.take(i as int)).len() ==> #[trigger] is_pin_location(
                    locations@[nr + j]@,
                    pin_entries(es.take(i as int))[j],
                ),
            strings_view(warnings@) == init_w + orphan_pin_warnings(pin_entries(es.take(i as int)), mids),
        decreases n - i,
    {
        let e = &entries[i];
        proof {
            lemma_take_filter_step(es, i as int, pin_pred);
            lemma_linked_prefix_step(es, i as int);
            lemma_linked_prefix_len(es, i + 1);
        }
        let ghost pins_before = pin_entries(es.take(i as int));
        let ghost linked_before = linked_prefix(es, i as int);
        if note_is_pin(&e.frontmatter) {
            if let Some(map) = &e.frontmatter.map {
                let pid = pin_location_id(e.relative_path.as_str());
                let ghost prev_locs = locations@;
                let loc = Location {
                    id: pid.clone(),
                    grid: None,
                    image: None,
                    content: note_location_content(e.relative_path.as_str()),
                    links: Vec::new(),
                    fog: None,
                };
                locations.push(loc);
                let ghost pushed_locs = locations@;
                proof {
                    let after = pins_before.push(*e);
                    assert forall|j: int| 0 <= j < after.len() implies #[trigger] is_pin_location(
                        locations@[nr + j]@,
                        after[j],
                    ) by {
                        if j < pins_before.len() {
                            assert(after[j] == pins_before[j]);
                            assert(locations@[nr + j] == prev_locs[nr + j]);
                        }
                    }
                    assert forall|r: int| 0 <= r < nr implies locations@[r] == prev_locs[r] by {}
                    assert(after.drop_last() =~= pins_before);
                    lemma_contains_first(mids, map@);
                }
                let ghost prev_w = strings_view(warnings@);
                match find_string_index(root_ids, map.as_str()) {
                    Some(r) => {
                        proof {
                            crate::mutations::lemma_first_index(mids, map@);
                        }
                        let link = pin_link(e, link_ids[used].clone(), pid);
                        locations[r].links.push(link);
                        used = used + 1;
                        proof {
                            let after = linked_before.push(*e);
                            assert(after.drop_last() =~= linked_before);
                            assert(ids[after.len() - 1] == link_ids@[(used - 1) as int]@);
                            assert(locations@[r as int]@.links =~= pushed_locs[r as int]@.links.push(link));
                            assert forall|q: int| #![trigger locations@[q]] 0 <= q < nr implies is_root_base(
                                locations@[q]@,
                                roots[q],
                                images,
                            ) && if first_index_of(mids, mids[q]) == Some(q) {
                                links_match(locations@[q]@.links, pins_on_map(after, ids, mids[q]))
                            } else {
                                locations@[q]@.links.len() == 0
                            } by {
                                if q != r {
                                    assert(locations@[q] == pushed_locs[q]);
                                    if mids[q] == map@ {
                                        assert(first_index_of(mids, mids[q]) == Some(r as int));
                                    }
                                } else {
                                    assert(mids[q] == map@);
                                    let expected = pins_on_map(after, ids, mids[q]);
                                    assert(expected =~= pins_on_map(linked_before, ids, mids[q]).push((*e, ids[after.len() - 1])));
                                    assert forall|k: int| 0 <= k < locations@[q]@.links.len() implies #[trigger] is_pin_link(
                                        locations@[q]@.links[k],
                                        expected[k].0,
                                        expected[k].1,
                                    ) by {
                                        if k < pushed_locs[q]@.links.len() {
                                            assert(locations@[q]@.links[k] == pushed_locs[q]@.links[k]);
                                        }
                                    }
                                }
                            }
                            assert(strings_view(warnings@) =~= prev_w + Seq::<Seq<char>>::empty());
                        }
                    },
                    None => {
                        warnings.push(orphan_pin_text(e.relative_path.as_str(), map.as_str()));
                        proof {
                            assert(strings_view(warnings@) =~= prev_w + seq![orphan_pin_message(e.relative_path@, map@)]);
                        }
                    },
                }
            }
        } else {
            proof {
                assert(strings_view(warnings@) == init_w + orphan_pin_warnings(pins_before, mids));
            }
        }
        i = i + 1;
    }
    proof {
        assert(es.take(n as int) =~= es);
        assert forall|r: int| 0 <= r < nr implies #[trigger] is_root_location(
            locations@[r]@,
            r,
            es,
            images,
            ids,
        ) by {
            assert(mids[r] == chars_or_empty(roots[r].frontmatter.map_id));
        }
    }
}

/// The map ids the map-root notes declare, in order.
pub fn root_map_ids(entries: &[VaultEntry]) -> (res: Vec<String>)
    ensures
        strings_view(res@) == map_ids(entries@),
{
    let ghost es = entries@;
    let ghost pred = |e: VaultEntry| is_map_root(e.frontmatter);
    let mut ids: Vec<String> = Vec::new();
    let n = entries.len();
    let mut i: usize = 0;
    while i < n
        invariant
            n == es.len(),
            es == entries@,
            i <= n,
            pred == (|e: VaultEntry| is_map_root(e.frontmatter)),
            strings_view(ids@) == root_entries(es.take(i as int)).map_values(
                |e: VaultEntry| chars_or_empty(e.frontmatter.map_id),
            ),
        decreases n - i,
    {
        let e = &entries[i];
        proof {
            lemma_take_filter_step(es, i as int, pred);
        }
        let ghost before = root_entries(es.take(i as int));
        if note_is_map_root(&e.frontmatter) {
            if let Some(m) = &e.frontmatter.map_id {
                let ghost prev = strings_view(ids@);
                ids.push(m.clone());
                proof {
                    let after = before.push(*e);
                    assert(root_entries(es.take(i + 1)) == after);
                    assert(strings_view(ids@) =~= prev.push(m@));
                    assert(strings_view(ids@) =~= after.map_values(
                        |e: VaultEntry| chars_or_empty(e.frontmatter.map_id),
                    ));
                }
            }
        } else {
            proof {
                assert(root_entries(es.take(i + 1)) == before);
            }
        }
        i = i + 1;
    }
    proof {
        assert(es.take(n as int) =~= es);
    }
    ids
}

/// How many pins have a map some map-root note declares: the number of
/// link ids an import hands out.
pub fn linked_pin_count(entries: &[VaultEntry]) -> (res: usize)
    ensures
        res == linked_pins(entries@).len(),
{
    let ghost es = entries@;
    let ids = root_map_ids(entries);
    let n = entries.len();
    let mut count: usize = 0;
    let mut i: usize = 0;
    proof {
        assert(es.take(0) =~= Seq::<VaultEntry>::empty());
        reveal(Seq::filter);
        assert(pin_entries(es.take(0)) =~= Seq::<VaultEntry>::empty());
        assert(linked_prefix(es, 0) =~= Seq::<VaultEntry>::empty());
    }
    while i < n
        invariant
            n == es.len(),
            es == entries@,
            i <= n,
            count <= i,
            strings_view(ids@) == map_ids(es),
            count == linked_prefix(es, i as int).len(),
        decreases n - i,
    {
        let e = &entries[i];
        proof {
            lemma_linked_prefix_step(es, i as int);
        }
        if note_is_pin(&e.frontmatter) {
            if let Some(map) = &e.frontmatter.map {
                proof {
                    lemma_contains_first(map_ids(es), map@);
                }
                if find_string_index(&ids, map.as_str()).is_some() {
                    count = count + 1;
                }
            }
        }
        i = i + 1;
    }
    proof {
        assert(es.take(n as int) =~= es);
    }
    count
}

fn no_root_text() -> (res: String)
    ensures
        res@ == no_root_message(),
{
    let mut v: Vec<char> = Vec::new();
    extend_from_str(&mut v, "No map-root note found — defaultLocation will be a guess.");
    string_from_chars(v.as_slice())
}

fn many_roots_text(n: usize, id: &str) -> (res: String)
    ensures
        res@ == many_roots_message(n as nat, id@),
{
    let mut v: Vec<char> = Vec::new();
    push_decimal(&mut v, n as u64);
    extend_from_str(&mut v, " map-root notes found; using \"");
    extend_from_str(&mut v, id);
    extend_from_str(&mut v, "\" as defaultLocation.");
    string_from_chars(v.as_slice())
}

/// The project and warnings of an import, with `link_ids` handed out in
/// order to the pins that get a Link.
pub fn build_project_with_link_ids(
    entries: &[VaultEntry],
    title: &str,
    vault_root: &str,
    map_images: &[(String, ImageRef)],
    link_ids: &[String],
) -> (res: (HexenProject, Vec<String>))
    requires
        link_ids@.len() == linked_pins(entries@).len(),
    ensures
        is_imported_project(
            res.0@,
            entries@,
            title@,
            vault_root@,
            map_images@,
            strings_view(link_ids@),
        ),
        strings_view(res.1@) == import_warnings(entries@, map_images@),
{
    let ghost es = entries@;
    let (mut locations, root_ids, mut warnings) = import_roots(entries, map_images);
    import_pins(entries, Ghost(map_images@), &mut locations, &root_ids, link_ids, &mut warnings);
    let ghost before_default = strings_view(warnings@);
    let nr = root_ids.len();
    let default_location = if nr == 0 {
        warnings.push(no_root_text());
        if locations.len() > 0 {
            proof {
                assert(is_pin_location(locations@[0int]@, pin_entries(es)[0int]));
            }
            locations[0].id.clone()
        } else {
            String::new()
        }
    } else {
        if nr > 1 {
            warnings.push(many_roots_text(nr, root_ids[0].as_str()));
        }
        root_ids[0].clone()
    };
    proof {
        assert(root_entries(es).len() == nr) by {
            assert(map_ids(es).len() == root_entries(es).len());
        }
        assert(strings_view(warnings@) =~= before_default + default_warnings(es));
    }
    let project = HexenProject {
        schema_version: 1,
        title: string_from_chars(chars_of(title).as_slice()),
        default_location,
        content: Some(
            ProjectContent {
                kind: Some(
                    ProjectContentKind::Obsidian(
                        ObsidianProjectContent {
                            vault_root: string_from_chars(chars_of(vault_root).as_slice()),
                        },
                    ),
                ),
            },
        ),
        locations,
    };
    proof {
        let locs = project@.locations;
        let ids = strings_view(link_ids@);
        assert forall|r: int| 0 <= r < nr implies #[trigger] is_root_location(
            locs[r],
            r,
            es,
            map_images@,
            ids,
        ) by {
            assert(locs[r] == project.locations@[r]@);
        }
        assert forall|j: int| 0 <= j < pin_entries(es).len() implies #[trigger] is_pin_location(
            locs.skip(nr as int)[j],
            pin_entries(es)[j],
        ) by {
            assert(locs.skip(nr as int)[j] == project.locations@[nr + j]@);
        }
    }
    (project, warnings)
}

/// Builds the project of a vault import. Each pin on a declared map gets
/// a fresh random link id; all else is determined by the arguments.
pub fn build_hexen_project(
    entries: &[VaultEntry],
    title: &str,
    vault_root: &str,
    map_images: &[(String, ImageRef)],
) -> (res: (HexenProject, Vec<String>))
    ensures
        exists|ids: Seq<Seq<char>>|
            {
                &&& ids.len() == linked_pins(entries@).len()
                &&& forall|k: int| 0 <= k < ids.len() ==> uuid_v4_text(#[trigger] ids[k])
                &&& is_imported_project(res.0@, entries@, title@, vault_root@, map_images@, ids)
            },
        strings_view(res.1@) == import_warnings(entries@, map_images@),
{
    let count = linked_pin_count(entries);
    let mut ids: Vec<String> = Vec::new();
    while ids.len() < count
        invariant
            ids@.len() <= count,
            forall|k: int| 0 <= k < ids@.len() ==> uuid_v4_text((#[trigger] ids@[k])@),
        decreases count - ids@.len(),
    {
        ids.push(new_link_id());
    }
    let res = build_project_with_link_ids(entries, title, vault_root, map_images, ids.as_slice());
    proof {
        let w = strings_view(ids@);
        assert(forall|k: int| 0 <= k < w.len() ==> uuid_v4_text(#[trigger] w[k]));
    }
    res
}

/// Every frontmatter key the importer reads off a map-root note: also
/// exactly what the stripper removes from one.
pub open spec fn map_root_fields() -> Seq<Seq<char>> {
    seq![
        "map-root"@,
        "map-id"@,
        "map-hex-origin-x"@,
        "map-hex-origin-y"@,
        "map-hex-b1-x"@,
        "map-hex-b1-y"@,
        "map-hex-b2-x"@,
        "map-hex-b2-y"@,
        "map-hex-km-per-hex"@,
        "map-hex-color"@,
        "map-hex-weight"@,
        "map-hex-opacity"@,
        "map-img"@,
        "map-base"@,
    ]
}

/// Every frontmatter key the importer reads off a pinned note.
pub open spec fn pin_fields() -> Seq<Seq<char>> {
    seq!["map"@, "map-x"@, "map-y"@, "map-type"@, "map-icon"@, "map-color"@]
}

pub open spec fn strs_view(v: Seq<&str>) -> Seq<Seq<char>> {
    v.map_values(|s: &str| s@)
}

/// The keys to strip from a note once it is imported: a map-root note's
/// map keys, a pinned note's pin keys; `None` for any other note.
pub fn strip_fields_for(f: &NoteFields) -> (res: Option<Vec<&'static str>>)
    ensures
        match res {
            Some(v) => if f.map_root == Some(true) {
                strs_view(v@) == map_root_fields()
            } else {
                f.map is Some && strs_view(v@) == pin_fields()
            },
            None => f.map_root != Some(true) && f.map is None,
        },
{
    if f.map_root == Some(true) {
        let v = vec![
            "map-root",
            "map-id",
            "map-hex-origin-x",
            "map-hex-origin-y",
            "map-hex-b1-x",
            "map-hex-b1-y",
            "map-hex-b2-x",
            "map-hex-b2-y",
            "map-hex-km-per-hex",
            "map-hex-color",
            "map-hex-weight",
            "map-hex-opacity",
            "map-img",
            "map-base",
        ];
        proof {
            assert(strs_view(v@) =~= map_root_fields());
        }
        Some(v)
    } else if f.map.is_some() {
        let v = vec!["map", "map-x", "map-y", "map-type", "map-icon", "map-color"];
        proof {
            assert(strs_view(v@) =~= pin_fields());
        }
        Some(v)
    } else {
        None
    }
}

/// A file the importer reads as a note: its name ends in `.md`, in any
/// case.
pub fn is_note_file(name: &str) -> (res: bool)
    ensures
        res == {
            let l = unicode_lowercase(name@);
            l.len() >= 3 && l.skip(l.len() - 3) == ".md"@
        },
{
    let l = chars_of(to_lowercase(name).as_str());
    let n = l.len();
    proof {
        reveal_strlit(".md");
    }
    if n < 3 {
        return false;
    }
    let res = l[n - 3] == '.' && l[n - 2] == 'm' && l[n - 1] == 'd';
    proof {
        let t = l@.skip(n - 3);
        if res {
            assert(t =~= ".md"@);
        } else if t == ".md"@ {
            assert(t[0] == l@[n - 3] && t[1] == l@[n - 2] && t[2] == l@[n - 1]);
        }
    }
    res
}

/// Where a map's base image lives in the vault: always
/// `_maps/<id>/map.png`, whatever the note itself says.
pub fn map_image_source(vault: &str, map_id: &str) -> (res: String)
    ensures
        res@ == joined_path(joined_path(joined_path(vault@, "_maps"@), map_id@), "map.png"@),
{
    join(join(join(vault, "_maps").as_str(), map_id).as_str(), "map.png")
}

/// Where a map's image is copied: `<id>.png` in the assets directory next
/// to the project file.
pub fn map_image_dest(out_dir: &str, assets_dir: &str, map_id: &str) -> (res: String)
    ensures
        res@ == joined_path(joined_path(out_dir@, assets_dir@), map_id@ + ".png"@),
{
    let mut name: Vec<char> = Vec::new();
    extend_from_str(&mut name, map_id);
    extend_from_str(&mut name, ".png");
    join(join(out_dir, assets_dir).as_str(), string_from_chars(name.as_slice()).as_str())
}

/// How many Locations of `p` have a grid of their own.
pub open spec fn grid_count(locs: Seq<LocationView>) -> nat
    decreases locs.len(),
{
    if locs.len() == 0 {
        0
    } else {
        grid_count(locs.drop_last()) + if locs.last().grid is Some {
            1nat
        } else {
            0nat
        }
    }
}

/// How many Locations of `project` have a grid of their own.
pub fn maps_with_grid(project: &HexenProject) -> (res: usize)
    ensures
        res == grid_count(project@.locations),
{
    let ghost locs = project@.locations;
    let mut count: usize = 0;
    let mut i: usize = 0;
    while i < project.locations.len()
        invariant
            i <= project.locations@.len(),
            locs == project@.locations,
            count <= i,
            count == grid_count(locs.take(i as int)),
        decreases project.locations@.len() - i,
    {
        proof {
            assert(locs.take(i + 1).drop_last() =~= locs.take(i as int));
            assert(locs.take(i + 1).last() == project.locations@[i as int]@);
        }
        if project.locations[i].grid.is_some() {
            count = count + 1;
        }
        i = i + 1;
    }
    proof {
        assert(locs.take(i as int) =~= locs);
    }
    count
}

/// An optional string, as a value.
pub open spec fn opt_text(o: Option<String>) -> Option<Seq<char>> {
    match o {
        Some(s) => Some(s@),
        None => None,
    }
}

/// An optional float, as its bit pattern.
pub open spec fn opt_bits(o: Option<FloatBits>) -> Option<u64> {
    match o {
        Some(f) => Some(f.bits),
        None => None,
    }
}

/// The fields read off frontmatter text `fm`.
pub open spec fn fields_read(res: NoteFields, fm: Seq<char>) -> bool {
    &&& res.map_root == yaml_bool_field(fm, "map-root"@)
    &&& opt_text(res.map_id) == yaml_string_field(fm, "map-id"@)
    &&& opt_bits(res.hex_origin_x) == yaml_f64_field(fm, "map-hex-origin-x"@)
    &&& opt_bits(res.hex_origin_y) == yaml_f64_field(fm, "map-hex-origin-y"@)
    &&& opt_bits(res.hex_b1_x) == yaml_f64_field(fm, "map-hex-b1-x"@)
    &&& opt_bits(res.hex_b1_y) == yaml_f64_field(fm, "map-hex-b1-y"@)
    &&& opt_bits(res.hex_b2_x) == yaml_f64_field(fm, "map-hex-b2-x"@)
    &&& opt_bits(res.hex_b2_y) == yaml_f64_field(fm, "map-hex-b2-y"@)
    &&& opt_bits(res.km_per_hex) == yaml_f64_field(fm, "map-hex-km-per-hex"@)
    &&& opt_text(res.hex_color) == yaml_string_field(fm, "map-hex-color"@)
    &&& opt_bits(res.hex_weight) == yaml_f64_field(fm, "map-hex-weight"@)
    &&& opt_bits(res.hex_opacity) == yaml_f64_field(fm, "map-hex-opacity"@)
    &&& opt_text(res.map) == yaml_string_field(fm, "map"@)
    &&& opt_bits(res.map_x) == yaml_f64_field(fm, "map-x"@)
    &&& opt_bits(res.map_y) == yaml_f64_field(fm, "map-y"@)
    &&& opt_text(res.map_type) == yaml_string_field(fm, "map-type"@)
    &&& opt_text(res.map_icon) == yaml_string_field(fm, "map-icon"@)
    &&& opt_text(res.map_color) == yaml_string_field(fm, "map-color"@)
}

/// No field at all.
pub open spec fn no_fields(res: NoteFields) -> bool {
    &&& res.map_root is None && res.map_id is None && res.hex_origin_x is None
    &&& res.hex_origin_y is None && res.hex_b1_x is None && res.hex_b1_y is None
    &&& res.hex_b2_x is None && res.hex_b2_y is None && res.km_per_hex is None
    &&& res.hex_color is None && res.hex_weight is None && res.hex_opacity is None
    &&& res.map is None && res.map_x is None && res.map_y is None && res.map_type is None
    &&& res.map_icon is None && res.map_color is None
}

fn text_field(fm: &str, key: &str) -> (res: Option<String>)
    ensures
        opt_text(res) == yaml_string_field(fm@, key@),
{
    yaml_string_field_of(fm, key)
}

fn number_field(fm: &str, key: &str) -> (res: Option<FloatBits>)
    ensures
        opt_bits(res) == yaml_f64_field(fm@, key@),
{
    match yaml_f64_field_of(fm, key) {
        Some(bits) => Some(FloatBits { bits }),
        None => None,
    }
}

/// What the importer reads off a note: the map fields of its frontmatter
/// block, each as the block's YAML mapping gives it; none when the note
/// has no frontmatter block.
pub fn note_fields_of(raw: &str) -> (res: NoteFields)
    ensures
        match note_parts(raw@) {
            Some((fm, _)) => fields_read(res, fm),
            None => no_fields(res),
        },
{
    let (block, _) = split_frontmatter(raw);
    match block {
        None => NoteFields {
            map_root: None,
            map_id: None,
            hex_origin_x: None,
            hex_origin_y: None,
            hex_b1_x: None,
            hex_b1_y: None,
            hex_b2_x: None,
            hex_b2_y: None,
            km_per_hex: None,
            hex_color: None,
            hex_weight: None,
            hex_opacity: None,
            map: None,
            map_x: None,
            map_y: None,
            map_type: None,
            map_icon: None,
            map_color: None,
        },
        Some(text) => {
            let fm = text.as_str();
            NoteFields {
                map_root: yaml_bool_field_of(fm, "map-root"),
                map_id: text_field(fm, "map-id"),
                hex_origin_x: number_field(fm, "map-hex-origin-x"),
                hex_origin_y: number_field(fm, "map-hex-origin-y"),
                hex_b1_x: number_field(fm, "map-hex-b1-x"),
                hex_b1_y: number_field(fm, "map-hex-b1-y"),
                hex_b2_x: number_field(fm, "map-hex-b2-x"),
                hex_b2_y: number_field(fm, "map-hex-b2-y"),
                km_per_hex: number_field(fm, "map-hex-km-per-hex"),
                hex_color: text_field(fm, "map-hex-color"),
                hex_weight: number_field(fm, "map-hex-weight"),
                hex_opacity: number_field(fm, "map-hex-opacity"),
                map: text_field(fm, "map"),
                map_x: number_field(fm, "map-x"),
                map_y: number_field(fm, "map-y"),
                map_type: text_field(fm, "map-type"),
                map_icon: text_field(fm, "map-icon"),
                map_color: text_field(fm, "map-color"),
            }
        },
    }
}

} // verus!
