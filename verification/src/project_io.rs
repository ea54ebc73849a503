//! Checks on a freshly parsed project: the schema version it must carry,
//! and the cross-reference warnings (duplicate ids, dangling references).

use vstd::prelude::*;

use crate::content::resolve_inline_content;
use crate::keyed::KeyedMap;
use crate::mutations::{first_index_of, ids_of_locations, lemma_first_index, find_location_index};
use crate::paths::joined_path;
use crate::project::{
    strings_view, HexenProject, InlineLocationContent, Link, Location, LocationContent,
    LocationContentKind, LocationView, ProjectContent, ProjectContentKind, ProjectView,
    ResolvedContent,
};
use crate::resolver::{ObsidianResolver, ObsidianResolverConfig};
use crate::text::{chars_of, extend_from_str, string_from_chars};

verus! {

/// A project that parsed, with its cross-reference warnings.
#[derive(Debug, PartialEq)]
pub struct ParsedHexenProject {
    pub project: HexenProject,
    pub warnings: Vec<String>,
}

/// A parsed document whose `schemaVersion` is not 1.
#[derive(Debug, PartialEq)]
pub struct UnsupportedSchemaVersion {
    pub version: i32,
}

pub open spec fn duplicate_message(id: Seq<char>) -> Seq<char> {
    "Duplicate location id \""@ + id + "\""@
}

pub open spec fn unknown_default_message(id: Seq<char>) -> Seq<char> {
    "defaultLocation \""@ + id + "\" isn't a known location id"@
}

pub open spec fn unknown_target_message(location: Seq<char>, target: Seq<char>) -> Seq<char> {
    "Location \""@ + location + "\" links to unknown location id \""@ + target + "\""@
}

/// One warning for each id that an earlier one already used, in order.
pub open spec fn duplicate_warnings(ids: Seq<Seq<char>>) -> Seq<Seq<char>>
    decreases ids.len(),
{
    if ids.len() == 0 {
        Seq::empty()
    } else {
        duplicate_warnings(ids.drop_last()) + if ids.drop_last().contains(ids.last()) {
            seq![duplicate_message(ids.last())]
        } else {
            Seq::empty()
        }
    }
}

/// One warning for each of `links` whose target is none of `ids`.
pub open spec fn unknown_target_warnings(location: Seq<char>, links: Seq<Link>, ids: Seq<Seq<char>>) -> Seq<
    Seq<char>,
>
    decreases links.len(),
{
    if links.len() == 0 {
        Seq::empty()
    } else {
        unknown_target_warnings(location, links.drop_last(), ids) + if ids.contains(
            links.last().target@,
        ) {
            Seq::empty()
        } else {
            seq![unknown_target_message(location, links.last().target@)]
        }
    }
}

/// The dangling-link warnings of every Location, in order.
pub open spec fn link_warnings(locations: Seq<LocationView>, ids: Seq<Seq<char>>) -> Seq<Seq<char>>
    decreases locations.len(),
{
    if locations.len() == 0 {
        Seq::empty()
    } else {
        link_warnings(locations.drop_last(), ids) + unknown_target_warnings(
            locations.last().id,
            locations.last().links,
            ids,
        )
    }
}

/// Every cross-reference problem of a project: duplicate Location ids,
/// then an unknown defaultLocation, then Links to unknown Locations.
pub open spec fn reference_warnings(p: ProjectView) -> Seq<Seq<char>> {
    let ids = p.locations.map_values(|l: LocationView| l.id);
    duplicate_warnings(ids) + (if ids.contains(p.default_location) {
        Seq::empty()
    } else {
        seq![unknown_default_message(p.default_location)]
    }) + link_warnings(p.locations, ids)
}

proof fn lemma_contains_first_index(ids: Seq<Seq<char>>, id: Seq<char>)
    ensures
        ids.contains(id) <==> first_index_of(ids, id) is Some,
{
    lemma_first_index(ids, id);
    if ids.contains(id) {
        let k = choose|k: int| 0 <= k < ids.len() && ids[k] == id;
        assert(ids[k] == id);
    }
}

/// Whether some Location has id `id`.
fn has_location(locations: &Vec<Location>, id: &str) -> (res: bool)
    ensures
        res == ids_of_locations(locations@).contains(id@),
{
    proof {
        lemma_contains_first_index(ids_of_locations(locations@), id@);
    }
    find_location_index(locations, id).is_some()
}

/// The cross-reference warnings of `project`.
pub fn validate_references(project: &HexenProject) -> (warnings: Vec<String>)
    ensures
        strings_view(warnings@) == reference_warnings(project@),
{
    let ghost ids = ids_of_locations(project.locations@);
    proof {
        assert(ids =~= project@.locations.map_values(|l: LocationView| l.id));
    }
    let mut warnings: Vec<String> = Vec::new();
    let n = project.locations.len();
    let mut i: usize = 0;
    while i < n
        invariant
            n == project.locations@.len(),
            i <= n,
            ids == ids_of_locations(project.locations@),
            strings_view(warnings@) == duplicate_warnings(ids.take(i as int)),
        decreases n - i,
    {
        let id = project.locations[i].id.as_str();
        let ghost prev = strings_view(warnings@);
        proof {
            assert(ids.take(i + 1).drop_last() =~= ids.take(i as int));
            assert(ids.take(i + 1).last() == ids[i as int]);
            lemma_first_index(ids, ids[i as int]);
            lemma_contains_first_index(ids.take(i as int), ids[i as int]);
            lemma_first_index(ids.take(i as int), ids[i as int]);
        }
        let first = find_location_index(&project.locations, id);
        match first {
            Some(k) => {
                proof {
                    assert(ids[i as int] == id@);
                    if k < i {
                        assert(ids.take(i as int)[k as int] == ids[i as int]);
                    } else {
                        // no earlier occurrence
                        assert forall|m: int| 0 <= m < i implies ids.take(i as int)[m] != ids[i as int] by {
                            assert(ids.take(i as int)[m] == ids[m]);
                        }
                    }
                }
                if k < i {
                    let mut msg: Vec<char> = Vec::new();
                    extend_from_str(&mut msg, "Duplicate location id \"");
                    extend_from_str(&mut msg, id);
                    extend_from_str(&mut msg, "\"");
                    warnings.push(string_from_chars(msg.as_slice()));
                    proof {
                        assert(strings_view(warnings@) =~= prev + seq![duplicate_message(ids[i as int])]);
                    }
                } else {
                    proof {
                        assert(strings_view(warnings@) =~= prev + Seq::<Seq<char>>::empty());
                    }
                }
            },
            None => {
                proof {
                    assert(ids[i as int] == id@);
                }
            },
        }
        i = i + 1;
    }
    proof {
        assert(ids.take(n as int) =~= ids);
    }
    let ghost dup = strings_view(warnings@);
    if !has_location(&project.locations, project.default_location.as_str()) {
        let mut msg: Vec<char> = Vec::new();
        extend_from_str(&mut msg, "defaultLocation \"");
        extend_from_str(&mut msg, project.default_location.as_str());
        extend_from_str(&mut msg, "\" isn't a known location id");
        warnings.push(string_from_chars(msg.as_slice()));
        proof {
            assert(strings_view(warnings@) =~= dup + seq![
                unknown_default_message(project.default_location@),
            ]);
        }
    } else {
        proof {
            assert(strings_view(warnings@) =~= dup + Seq::<Seq<char>>::empty());
        }
    }
    let ghost head = strings_view(warnings@);
    let ghost locs = project@.locations;
    let mut i: usize = 0;
    while i < n
        invariant
            n == project.locations@.len(),
            i <= n,
            ids == ids_of_locations(project.locations@),
            locs == project@.locations,
            strings_view(warnings@) == head + link_warnings(locs.take(i as int), ids),
        decreases n - i,
    {
        let loc = &project.locations[i];
        let ghost before = strings_view(warnings@);
        let m = loc.links.len();
        let mut k: usize = 0;
        while k < m
            invariant
                m == loc.links@.len(),
                k <= m,
                ids == ids_of_locations(project.locations@),
                strings_view(warnings@) == before + unknown_target_warnings(
                    loc.id@,
                    loc.links@.take(k as int),
                    ids,
                ),
            decreases m - k,
        {
            let target = loc.links[k].target.as_str();
            let ghost prev = strings_view(warnings@);
            proof {
                assert(loc.links@.take(k + 1).drop_last() =~= loc.links@.take(k as int));
                assert(loc.links@.take(k + 1).last() == loc.links@[k as int]);
            }
            if !has_location(&project.locations, target) {
                let mut msg: Vec<char> = Vec::new();
                extend_from_str(&mut msg, "Location \"");
                extend_from_str(&mut msg, loc.id.as_str());
                extend_from_str(&mut msg, "\" links to unknown location id \"");
                extend_from_str(&mut msg, target);
                extend_from_str(&mut msg, "\"");
                warnings.push(string_from_chars(msg.as_slice()));
                proof {
                    assert(strings_view(warnings@) =~= prev + seq![
                        unknown_target_message(loc.id@, target@),
                    ]);
                }
            } else {
                proof {
                    assert(strings_view(warnings@) =~= prev + Seq::<Seq<char>>::empty());
                }
            }
            k = k + 1;
        }
        proof {
            assert(loc.links@.take(m as int) =~= loc.links@);
            assert(locs.take(i + 1).drop_last() =~= locs.take(i as int));
            assert(locs.take(i + 1).last() == loc@);
        }
        i = i + 1;
    }
    proof {
        assert(locs.take(n as int) =~= locs);
    }
    warnings
}

/// A parsed project accepted as schema version 1, with its warnings.
pub fn accept_parsed_project(project: HexenProject) -> (res: Result<
    ParsedHexenProject,
    UnsupportedSchemaVersion,
>)
    ensures
        match res {
            Ok(p) => project.schema_version == 1 && p.project == project && strings_view(
                p.warnings@,
            ) == reference_warnings(project@),
            Err(e) => project.schema_version != 1 && e.version == project.schema_version,
        },
{
    if project.schema_version != 1 {
        return Err(UnsupportedSchemaVersion { version: project.schema_version });
    }
    let warnings = validate_references(&project);
    Ok(ParsedHexenProject { project, warnings })
}

/// A project as opened: parsed, checked, and each Location's content
/// resolved, or the reason it could not be.
pub struct OpenedProject {
    pub project: HexenProject,
    pub warnings: Vec<String>,
    /// Location id to resolved content, for every Location whose content
    /// resolved cleanly.
    pub resolved_content: KeyedMap<ResolvedContent>,
    /// Location id to the error message, for every Location whose content
    /// failed to resolve.
    pub resolve_errors: KeyedMap<String>,
}

/// Text that an optional string holds, empty when absent.
pub open spec fn body_chars(o: Option<String>) -> Seq<char> {
    match o {
        Some(s) => s@,
        None => Seq::empty(),
    }
}

/// `r` is what inline content `c` reads as.
pub open spec fn is_inline_resolution(r: ResolvedContent, c: InlineLocationContent) -> bool {
    &&& r.title == c.title
    &&& r.summary is None
    &&& r.body@ == body_chars(c.body)
}

pub open spec fn no_vault_message(id: Seq<char>) -> Seq<char> {
    "Location \""@ + id + "\" has obsidian content, but this project has no vault configured"@
}

/// How a Location's content resolves.
pub enum ContentSource {
    /// The Location has no content to resolve.
    Nothing,
    /// Inline content, resolved already.
    Inline(ResolvedContent),
    /// A vault note, to be read from this file.
    Note(String),
    /// A vault note in a project without a vault.
    Unavailable(String),
}

/// A freshly parsed project, nothing resolved yet.
pub fn opened_project(parsed: ParsedHexenProject) -> (res: OpenedProject)
    ensures
        res.project == parsed.project,
        res.warnings == parsed.warnings,
        res.resolved_content.map() == Map::<Seq<char>, ResolvedContent>::empty(),
        res.resolve_errors.map() == Map::<Seq<char>, String>::empty(),
{
    OpenedProject {
        project: parsed.project,
        warnings: parsed.warnings,
        resolved_content: KeyedMap::new(),
        resolve_errors: KeyedMap::new(),
    }
}

/// The project's vault, when its content block names one: `vault_root`
/// inside `project_dir`.
pub fn vault_for(project: &HexenProject, project_dir: &str) -> (res: Option<ObsidianResolver>)
    ensures
        match project.content {
            Some(ProjectContent { kind: Some(ProjectContentKind::Obsidian(o)) }) => res matches Some(
                r,
            ) && r.vault() == joined_path(project_dir@, o.vault_root@),
            _ => res is None,
        },
{
    match &project.content {
        Some(pc) => match &pc.kind {
            Some(ProjectContentKind::Obsidian(o)) => Some(
                ObsidianResolver::new(
                    ObsidianResolverConfig {
                        project_dir: string_from_chars(chars_of(project_dir).as_slice()),
                        vault_root: o.vault_root.clone(),
                    },
                ),
            ),
            _ => None,
        },
        None => None,
    }
}

/// How `location`'s content resolves in a project with vault `vault`.
pub fn content_source(location: &Location, vault: &Option<ObsidianResolver>) -> (res: ContentSource)
    ensures
        match location.content {
            Some(LocationContent { kind: Some(LocationContentKind::Inline(c)) }) => res matches ContentSource::Inline(
                r,
            ) && is_inline_resolution(r, c),
            Some(LocationContent { kind: Some(LocationContentKind::Obsidian(o)) }) => match vault {
                Some(v) => res matches ContentSource::Note(p) && p@ == joined_path(
                    v.vault(),
                    o.reference@,
                ),
                None => res matches ContentSource::Unavailable(m) && m@ == no_vault_message(
                    location.id@,
                ),
            },
            _ => res is Nothing,
        },
{
    match &location.content {
        Some(c) => match &c.kind {
            Some(LocationContentKind::Inline(inline)) => ContentSource::Inline(
                resolve_inline_content(inline),
            ),
            Some(LocationContentKind::Obsidian(o)) => match vault {
                Some(v) => ContentSource::Note(v.note_path(o)),
                None => {
                    let mut m: Vec<char> = Vec::new();
                    extend_from_str(&mut m, "Location \"");
                    extend_from_str(&mut m, location.id.as_str());
                    extend_from_str(
                        &mut m,
                        "\" has obsidian content, but this project has no vault configured",
                    );
                    ContentSource::Unavailable(string_from_chars(m.as_slice()))
                },
            },
            None => ContentSource::Nothing,
        },
        None => ContentSource::Nothing,
    }
}

/// Files the outcome of resolving Location `id`'s content.
pub fn record_resolution(opened: &mut OpenedProject, id: String, result: Result<ResolvedContent, String>)
    ensures
        final(opened).project == old(opened).project,
        final(opened).warnings == old(opened).warnings,
        match result {
            Ok(r) => final(opened).resolved_content.map() == old(opened).resolved_content.map().insert(
                id@,
                r,
            ) && final(opened).resolve_errors.map() == old(opened).resolve_errors.map(),
            Err(e) => final(opened).resolve_errors.map() == old(opened).resolve_errors.map().insert(
                id@,
                e,
            ) && final(opened).resolved_content.map() == old(opened).resolved_content.map(),
        },
{
    match result {
        Ok(r) => opened.resolved_content.insert(id, r),
        Err(e) => opened.resolve_errors.insert(id, e),
    }
}

} // verus!
