//! The `.hexen.yml` document model: a project is a list of Locations,
//! each optionally a map (image + grid) carrying Links to other
//! Locations, with content resolved from inline text or a vault note.
//!
//! Floating-point fields (coordinates, grid geometry) are held as their
//! IEEE-754 bit patterns: this library only ever stores and moves them.

use vstd::prelude::*;

verus! {

/// A 64-bit floating-point value, held as its IEEE-754 bit pattern.
#[derive(Clone, Copy, Debug, PartialEq, Eq, Structural)]
pub struct FloatBits {
    pub bits: u64,
}

#[derive(Clone, Copy, Debug, PartialEq, Eq, Structural)]
pub struct Point {
    pub x: FloatBits,
    pub y: FloatBits,
}

#[derive(Debug, PartialEq)]
pub struct GridStyle {
    pub color: String,
    pub weight: Option<FloatBits>,
    pub opacity: Option<FloatBits>,
}

#[derive(Debug, PartialEq)]
pub struct HexGrid {
    pub origin: Option<Point>,
    pub b1: Option<Point>,
    pub b2: Option<Point>,
    pub distance_per_cell: Option<FloatBits>,
    pub style: Option<GridStyle>,
}

#[derive(Debug, PartialEq)]
pub struct SquareGrid {
    pub origin: Option<Point>,
    pub cell_size: Option<Point>,
    pub style: Option<GridStyle>,
}

#[derive(Debug, PartialEq)]
pub enum GridKind {
    Hex(HexGrid),
    Square(SquareGrid),
}

#[derive(Debug, PartialEq)]
pub struct Grid {
    pub kind: Option<GridKind>,
}

#[derive(Debug, PartialEq)]
pub struct ImageRef {
    pub file: String,
    pub width: i32,
    pub height: i32,
}

#[derive(Debug, PartialEq)]
pub struct InlineLocationContent {
    pub title: String,
    pub body: Option<String>,
}

#[derive(Debug, PartialEq)]
pub struct ObsidianLocationContent {
    /// The note's path, relative to the vault root.
    pub reference: String,
}

#[derive(Debug, PartialEq)]
pub enum LocationContentKind {
    Inline(InlineLocationContent),
    Obsidian(ObsidianLocationContent),
}

#[derive(Debug, PartialEq)]
pub struct LocationContent {
    pub kind: Option<LocationContentKind>,
}

#[derive(Debug, PartialEq)]
pub struct InlineProjectContent {}

#[derive(Debug, PartialEq)]
pub struct ObsidianProjectContent {
    pub vault_root: String,
}

#[derive(Debug, PartialEq)]
pub enum ProjectContentKind {
    Inline(InlineProjectContent),
    Obsidian(ObsidianProjectContent),
}

#[derive(Debug, PartialEq)]
pub struct ProjectContent {
    pub kind: Option<ProjectContentKind>,
}

/// A pin on a map Location pointing at another Location.
#[derive(Debug, PartialEq)]
pub struct Link {
    pub id: String,
    pub target: String,
    pub x: FloatBits,
    pub y: FloatBits,
    pub link_type: String,
    pub icon: Option<String>,
    pub color: Option<String>,
    pub hidden: Option<bool>,
}

#[derive(Debug, PartialEq)]
pub struct FogOfWar {
    pub revealed_cells: Vec<String>,
}

#[derive(Debug, PartialEq)]
pub struct Location {
    pub id: String,
    pub grid: Option<Grid>,
    pub image: Option<ImageRef>,
    pub content: Option<LocationContent>,
    pub links: Vec<Link>,
    pub fog: Option<FogOfWar>,
}

#[derive(Debug, PartialEq)]
pub struct HexenProject {
    pub schema_version: i32,
    pub title: String,
    pub default_location: String,
    pub content: Option<ProjectContent>,
    pub locations: Vec<Location>,
}

/// A Location's content resolved into what a reader sees.
#[derive(Debug, PartialEq)]
pub struct ResolvedContent {
    pub title: String,
    pub summary: Option<String>,
    pub body: String,
}

/// The mathematical value of a [`Location`].
pub struct LocationView {
    pub id: Seq<char>,
    pub grid: Option<Grid>,
    pub image: Option<ImageRef>,
    pub content: Option<LocationContent>,
    pub links: Seq<Link>,
    pub fog: Option<Seq<Seq<char>>>,
}

/// The mathematical value of a [`HexenProject`].
pub struct ProjectView {
    pub schema_version: i32,
    pub title: Seq<char>,
    pub default_location: Seq<char>,
    pub content: Option<ProjectContent>,
    pub locations: Seq<LocationView>,
}

/// The characters of each string in `v`.
pub open spec fn strings_view(v: Seq<String>) -> Seq<Seq<char>> {
    v.map_values(|s: String| s@)
}

impl View for FogOfWar {
    type V = Seq<Seq<char>>;

    open spec fn view(&self) -> Seq<Seq<char>> {
        strings_view(self.revealed_cells@)
    }
}

impl View for Location {
    type V = LocationView;

    open spec fn view(&self) -> LocationView {
        LocationView {
            id: self.id@,
            grid: self.grid,
            image: self.image,
            content: self.content,
            links: self.links@,
            fog: match self.fog {
                Some(f) => Some(f@),
                None => None,
            },
        }
    }
}

impl View for HexenProject {
    type V = ProjectView;

    open spec fn view(&self) -> ProjectView {
        ProjectView {
            schema_version: self.schema_version,
            title: self.title@,
            default_location: self.default_location@,
            content: self.content,
            locations: self.locations@.map_values(|l: Location| l@),
        }
    }
}

/// Clones an optional string exactly.
pub fn clone_opt_string(s: &Option<String>) -> (res: Option<String>)
    ensures
        res == *s,
{
    match s {
        Some(v) => Some(v.clone()),
        None => None,
    }
}

impl Clone for GridStyle {
    fn clone(&self) -> (res: Self)
        ensures
            res == *self,
    {
        GridStyle { color: self.color.clone(), weight: self.weight, opacity: self.opacity }
    }
}

fn clone_opt_style(s: &Option<GridStyle>) -> (res: Option<GridStyle>)
    ensures
        res == *s,
{
    match s {
        Some(v) => Some(v.clone()),
        None => None,
    }
}

impl Clone for Grid {
    fn clone(&self) -> (res: Self)
        ensures
            res == *self,
    {
        let kind = match &self.kind {
            None => None,
            Some(GridKind::Hex(h)) => Some(
                GridKind::Hex(
                    HexGrid {
                        origin: h.origin,
                        b1: h.b1,
                        b2: h.b2,
                        distance_per_cell: h.distance_per_cell,
                        style: clone_opt_style(&h.style),
                    },
                ),
            ),
            Some(GridKind::Square(s)) => Some(
                GridKind::Square(
                    SquareGrid {
                        origin: s.origin,
                        cell_size: s.cell_size,
                        style: clone_opt_style(&s.style),
                    },
                ),
            ),
        };
        Grid { kind }
    }
}

impl Clone for ImageRef {
    fn clone(&self) -> (res: Self)
        ensures
            res == *self,
    {
        ImageRef { file: self.file.clone(), width: self.width, height: self.height }
    }
}

impl Clone for LocationContent {
    fn clone(&self) -> (res: Self)
        ensures
            res == *self,
    {
        let kind = match &self.kind {
            None => None,
            Some(LocationContentKind::Inline(i)) => Some(
                LocationContentKind::Inline(
                    InlineLocationContent { title: i.title.clone(), body: clone_opt_string(&i.body) },
                ),
            ),
            Some(LocationContentKind::Obsidian(o)) => Some(
                LocationContentKind::Obsidian(
                    ObsidianLocationContent { reference: o.reference.clone() },
                ),
            ),
        };
        LocationContent { kind }
    }
}

impl Clone for ProjectContent {
    fn clone(&self) -> (res: Self)
        ensures
            res == *self,
    {
        let kind = match &self.kind {
            None => None,
            Some(ProjectContentKind::Inline(_)) => Some(
                ProjectContentKind::Inline(InlineProjectContent {  }),
            ),
            Some(ProjectContentKind::Obsidian(o)) => Some(
                ProjectContentKind::Obsidian(
                    ObsidianProjectContent { vault_root: o.vault_root.clone() },
                ),
            ),
        };
        ProjectContent { kind }
    }
}

impl Clone for Link {
    fn clone(&self) -> (res: Self)
        ensures
            res == *self,
    {
        Link {
            id: self.id.clone(),
            target: self.target.clone(),
            x: self.x,
            y: self.y,
            link_type: self.link_type.clone(),
            icon: clone_opt_string(&self.icon),
            color: clone_opt_string(&self.color),
            hidden: self.hidden,
        }
    }
}

impl Clone for FogOfWar {
    fn clone(&self) -> (res: Self)
        ensures
            res@ == self@,
    {
        let cells = self.revealed_cells.clone();
        proof {
            assert(cells@ =~= self.revealed_cells@);
        }
        FogOfWar { revealed_cells: cells }
    }
}

impl Clone for Location {
    fn clone(&self) -> (res: Self)
        ensures
            res@ == self@,
    {
        let links = self.links.clone();
        proof {
            assert(links@ =~= self.links@);
        }
        let grid = match &self.grid {
            Some(g) => Some(g.clone()),
            None => None,
        };
        let image = match &self.image {
            Some(i) => Some(i.clone()),
            None => None,
        };
        let content = match &self.content {
            Some(c) => Some(c.clone()),
            None => None,
        };
        let fog = match &self.fog {
            Some(f) => Some(f.clone()),
            None => None,
        };
        Location { id: self.id.clone(), grid, image, content, links, fog }
    }
}

impl Clone for HexenProject {
    fn clone(&self) -> (res: Self)
        ensures
            res@ == self@,
    {
        let mut locations: Vec<Location> = Vec::new();
        let mut i: usize = 0;
        while i < self.locations.len()
            invariant
                i <= self.locations@.len(),
                locations@.len() == i,
                forall|k: int| 0 <= k < i ==> #[trigger] locations@[k]@ == self.locations@[k]@,
            decreases self.locations@.len() - i,
        {
            let l = self.locations[i].clone();
            locations.push(l);
            i = i + 1;
        }
        proof {
            assert(locations@.map_values(|l: Location| l@) =~= self.locations@.map_values(
                |l: Location| l@,
            ));
        }
        let content = match &self.content {
            Some(c) => Some(c.clone()),
            None => None,
        };
        HexenProject {
            schema_version: self.schema_version,
            title: self.title.clone(),
            default_location: self.default_location.clone(),
            content,
            locations,
        }
    }
}

impl Clone for ResolvedContent {
    fn clone(&self) -> (res: Self)
        ensures
            res == *self,
    {
        ResolvedContent {
            title: self.title.clone(),
            summary: clone_opt_string(&self.summary),
            body: self.body.clone(),
        }
    }
}

} // verus!
