use hexen::commands::{AddLocationCommand, Command, CommandKind, SaveLocationContentCommand, SetFogCellsCommand};
use hexen::history::History;
use hexen::keyed::KeyedMap;
use hexen::mutations::{
    add_location, add_location_link, create_minimal_project, save_grid, save_image, save_link,
    save_location_content, set_fog, set_fog_cells, toggle_fog_cell, InlineContentPatch, LinkPatch,
    MutationError,
};
use hexen::project::{
    FloatBits, FogOfWar, HexenProject, ImageRef, InlineLocationContent, InlineProjectContent, Link,
    Location, LocationContent, LocationContentKind, ObsidianLocationContent, ProjectContent,
    ProjectContentKind, ResolvedContent,
};
use hexen::project_io::{
    accept_parsed_project, content_source, opened_project, record_resolution, validate_references,
    vault_for, ContentSource,
};
use hexen::session::{apply_and_broadcast, redo, undo, ProjectSession};

fn bits(x: f64) -> FloatBits {
    FloatBits { bits: x.to_bits() }
}

fn inline(title: &str, body: Option<&str>) -> Option<LocationContent> {
    Some(LocationContent {
        kind: Some(LocationContentKind::Inline(InlineLocationContent {
            title: title.into(),
            body: body.map(str::to_string),
        })),
    })
}

fn note(reference: &str) -> Option<LocationContent> {
    Some(LocationContent {
        kind: Some(LocationContentKind::Obsidian(ObsidianLocationContent {
            reference: reference.into(),
        })),
    })
}

fn link(id: &str, target: &str) -> Link {
    Link {
        id: id.into(),
        target: target.into(),
        x: bits(1.0),
        y: bits(2.0),
        link_type: "waypoint".into(),
        icon: None,
        color: None,
        hidden: Some(false),
    }
}

fn location(id: &str) -> Location {
    Location { id: id.into(), grid: None, image: None, content: None, links: vec![], fog: None }
}

fn demo() -> HexenProject {
    let mut town = location("town");
    town.links = vec![link("front-door", "inn")];
    town.content = inline("Town", Some("A town."));
    town.fog = Some(FogOfWar { revealed_cells: vec!["0,0".into()] });
    let mut inn = location("inn");
    inn.content = note("inn.md");
    HexenProject {
        schema_version: 1,
        title: "Demo Realm".into(),
        default_location: "town".into(),
        content: Some(ProjectContent {
            kind: Some(ProjectContentKind::Obsidian(hexen::project::ObsidianProjectContent {
                vault_root: "_vault".into(),
            })),
        }),
        locations: vec![town, inn],
    }
}

#[test]
fn a_minimal_project_has_its_default_location() {
    let p = create_minimal_project(
        "T".into(),
        "start".into(),
        ProjectContent { kind: Some(ProjectContentKind::Inline(InlineProjectContent {})) },
    );
    assert_eq!(p.schema_version, 1);
    assert_eq!(p.locations.len(), 1);
    assert_eq!(p.locations[0], location("start"));
    assert_eq!(p.default_location, "start");
}

#[test]
fn saving_a_link_patches_only_the_given_fields() {
    let mut p = demo();
    let patch = LinkPatch {
        id: None,
        target: None,
        x: Some(bits(5.0)),
        y: None,
        link_type: Some("settlement".into()),
        icon: Some("village".into()),
        color: None,
        hidden: None,
    };
    save_link(&mut p, "town", "front-door", patch).unwrap();
    let l = &p.locations[0].links[0];
    assert_eq!((l.x, l.y), (bits(5.0), bits(2.0)));
    assert_eq!(l.link_type, "settlement");
    assert_eq!(l.icon.as_deref(), Some("village"));
    assert_eq!(l.target, "inn");
}

#[test]
fn every_refusal_names_what_is_missing_and_changes_nothing() {
    let mut p = demo();
    let empty = || LinkPatch {
        id: None,
        target: None,
        x: None,
        y: None,
        link_type: None,
        icon: None,
        color: None,
        hidden: None,
    };
    let e = save_link(&mut p, "nowhere", "x", empty()).unwrap_err();
    assert_eq!(e, MutationError::NoLocation("nowhere".into()));
    assert_eq!(e.message(), "No location \"nowhere\" in this project");
    let e = save_link(&mut p, "town", "back-door", empty()).unwrap_err();
    assert_eq!(e.message(), "Location \"town\" has no link \"back-door\"");
    let e = save_location_content(&mut p, "inn", InlineContentPatch { title: Some("X".into()), body: None })
        .unwrap_err();
    assert_eq!(e.message(), "Location \"inn\" has obsidian content, not inline");
    let e = toggle_fog_cell(&mut p, "inn", "1,1").unwrap_err();
    assert_eq!(e.message(), "Location \"inn\" has no fog of war — start it before toggling a cell");
    assert_eq!(MutationError::EmptyCommand.message(), "Command message carried no command");
    assert_eq!(p, demo());
}

#[test]
fn saving_content_keeps_what_the_patch_leaves_out() {
    let mut p = demo();
    save_location_content(&mut p, "town", InlineContentPatch { title: Some("Big Town".into()), body: None })
        .unwrap();
    assert_eq!(p.locations[0].content, inline("Big Town", Some("A town.")));
    let mut q = demo();
    q.locations.push(location("blank"));
    save_location_content(&mut q, "blank", InlineContentPatch { title: None, body: Some("Hi".into()) })
        .unwrap();
    assert_eq!(q.locations[2].content, inline("", Some("Hi")));
}

#[test]
fn adding_a_pin_creates_its_target_once() {
    let mut p = demo();
    add_location_link(&mut p, "town", "cellar", bits(3.0), bits(4.0), "ruin".into()).unwrap();
    assert_eq!(p.locations.len(), 3);
    assert_eq!(p.locations[2], location("cellar"));
    let l = p.locations[0].links.last().unwrap();
    assert_eq!((l.target.as_str(), l.x, l.link_type.as_str(), l.hidden), ("cellar", bits(3.0), "ruin", Some(false)));
    assert_eq!(l.id.len(), 36);
    for (i, c) in l.id.chars().enumerate() {
        if [8, 13, 18, 23].contains(&i) {
            assert_eq!(c, '-');
        } else {
            assert!(c.is_ascii_digit() || ('a'..='f').contains(&c), "{}", l.id);
        }
    }
    assert_eq!(l.id.as_bytes()[14], b'4');
    assert!(b"89ab".contains(&l.id.as_bytes()[19]));
    add_location_link(&mut p, "town", "cellar", bits(0.0), bits(0.0), "ruin".into()).unwrap();
    assert_eq!(p.locations.len(), 3);
    add_location(&mut p, "cellar").unwrap();
    assert_eq!(p.locations.len(), 3);
    add_location(&mut p, "attic").unwrap();
    assert_eq!(p.locations[3], location("attic"));
}

#[test]
fn grid_image_and_fog_replace_their_field() {
    let mut p = demo();
    save_image(&mut p, "inn", Some(ImageRef { file: "a.png".into(), width: 3, height: 4 })).unwrap();
    assert_eq!(p.locations[1].image.as_ref().unwrap().width, 3);
    save_grid(&mut p, "inn", None).unwrap();
    assert!(p.locations[1].grid.is_none());
    set_fog(&mut p, "inn", Some(FogOfWar { revealed_cells: vec![] })).unwrap();
    toggle_fog_cell(&mut p, "inn", "1,1").unwrap();
    assert_eq!(p.locations[1].fog.as_ref().unwrap().revealed_cells, ["1,1"]);
    toggle_fog_cell(&mut p, "inn", "1,1").unwrap();
    assert!(p.locations[1].fog.as_ref().unwrap().revealed_cells.is_empty());
    assert_eq!(save_image(&mut p, "nowhere", None), Err(MutationError::NoLocation("nowhere".into())));
}

#[test]
fn painting_fog_reveals_once_and_hides_all() {
    let mut p = demo();
    let cells = vec!["2,3".to_string(), "2,4".to_string(), "0,0".to_string()];
    set_fog_cells(&mut p, "town", &cells, true).unwrap();
    assert_eq!(p.locations[0].fog.as_ref().unwrap().revealed_cells, ["0,0", "2,3", "2,4"]);
    set_fog_cells(&mut p, "town", &cells, true).unwrap();
    assert_eq!(p.locations[0].fog.as_ref().unwrap().revealed_cells, ["0,0", "2,3", "2,4"]);
    set_fog_cells(&mut p, "town", &vec!["2,3".to_string(), "0,0".to_string()], false).unwrap();
    assert_eq!(p.locations[0].fog.as_ref().unwrap().revealed_cells, ["2,4"]);
}

#[test]
fn history_undoes_and_redoes_whole_commands() {
    let mut h = History::new(demo());
    assert!(!h.can_undo() && !h.can_redo());
    let cmd = Command { kind: Some(CommandKind::AddLocation(AddLocationCommand { location_id: "staged".into() })) };
    h.execute(cmd).unwrap();
    assert_eq!(h.current().locations.len(), 3);
    assert!(h.undo());
    assert_eq!(h.current(), &demo());
    assert!(!h.undo());
    assert!(h.redo());
    assert_eq!(h.current().locations.len(), 3);
    assert!(!h.redo());
    let bad = Command { kind: None };
    assert_eq!(h.execute(bad), Err(MutationError::EmptyCommand));
    assert_eq!(h.current().locations.len(), 3);
    assert!(h.undo());
    let again = Command { kind: Some(CommandKind::AddLocation(AddLocationCommand { location_id: "other".into() })) };
    h.execute(again).unwrap();
    assert!(!h.can_redo());
}

fn session() -> ProjectSession {
    let parsed = accept_parsed_project(demo()).unwrap();
    let mut opened = opened_project(parsed);
    record_resolution(&mut opened, "inn".into(), Err("inn.md: not found".into()));
    ProjectSession::open("/tmp/demo.hexen.yml".into(), opened)
}

#[test]
fn a_landed_command_re_resolves_inline_content() {
    let mut s = session();
    let cmd = Command {
        kind: Some(CommandKind::SaveLocationContent(SaveLocationContentCommand {
            location_id: "town".into(),
            patch: Some(InlineContentPatch { title: Some("Updated Town".into()), body: None }),
        })),
    };
    apply_and_broadcast(&mut s, cmd).unwrap();
    assert_eq!(s.resolved_content.get("town").unwrap().title, "Updated Town");
    assert_eq!(s.project, *s.history.current());
    assert!(s.resolve_errors.get("inn").is_some());
    assert!(undo(&mut s));
    assert_eq!(s.resolved_content.get("town").unwrap().title, "Town");
    assert!(redo(&mut s));
    assert_eq!(s.resolved_content.get("town").unwrap().title, "Updated Town");
    assert!(!redo(&mut s));
}

#[test]
fn a_failed_command_changes_no_session_state() {
    let mut s = session();
    let before = s.project.clone();
    let cmd = Command {
        kind: Some(CommandKind::SetFogCells(SetFogCellsCommand {
            location_id: "inn".into(),
            cells: vec!["1,1".into()],
            revealed: true,
        })),
    };
    assert_eq!(apply_and_broadcast(&mut s, cmd), Err(MutationError::NoFog("inn".into())));
    assert_eq!(s.project, before);
    assert!(!s.history.can_undo());
}

#[test]
fn opening_resolves_inline_content_and_finds_notes_in_the_vault() {
    let p = demo();
    let vault = vault_for(&p, "/maps");
    assert_eq!(vault.as_ref().unwrap().vault_dir(), "/maps/_vault");
    match content_source(&p.locations[0], &vault) {
        ContentSource::Inline(r) => {
            assert_eq!(r, ResolvedContent { title: "Town".into(), summary: None, body: "A town.".into() })
        }
        _ => panic!("expected inline content"),
    }
    match content_source(&p.locations[1], &vault) {
        ContentSource::Note(path) => assert_eq!(path, "/maps/_vault/inn.md"),
        _ => panic!("expected a note"),
    }
    match content_source(&p.locations[1], &None) {
        ContentSource::Unavailable(m) => assert_eq!(
            m,
            "Location \"inn\" has obsidian content, but this project has no vault configured"
        ),
        _ => panic!("expected no vault"),
    }
    assert!(matches!(content_source(&location("x"), &vault), ContentSource::Nothing));
}

#[test]
fn validation_reports_duplicates_and_dangling_references() {
    assert!(validate_references(&demo()).is_empty());
    let mut p = demo();
    p.locations.push(location("town"));
    p.default_location = "nowhere".into();
    p.locations[1].links.push(link("l", "ghost"));
    assert_eq!(
        validate_references(&p),
        [
            "Duplicate location id \"town\"",
            "defaultLocation \"nowhere\" isn't a known location id",
            "Location \"inn\" links to unknown location id \"ghost\"",
        ]
    );
    let mut old = demo();
    old.schema_version = 2;
    assert_eq!(accept_parsed_project(old).unwrap_err().version, 2);
}

#[test]
fn a_keyed_map_holds_each_key_once() {
    let mut m = KeyedMap::new();
    m.insert("a".to_string(), 1);
    m.insert("b".to_string(), 2);
    m.insert("a".to_string(), 3);
    assert_eq!(m.get("a"), Some(&3));
    m.remove("a");
    assert_eq!(m.get("a"), None);
    assert_eq!(m.into_entries(), vec![("b".to_string(), 2)]);
}
