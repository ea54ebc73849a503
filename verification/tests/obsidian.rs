use hexen::frontmatter::strip_frontmatter_fields;
use hexen::importer::{
    build_hexen_project, build_project_with_link_ids, linked_pin_count, NoteFields, VaultEntry,
};
use hexen::paths::{relative_path_between, relative_to};
use hexen::project::{
    FloatBits, GridKind, ImageRef, LocationContent, LocationContentKind, ObsidianLocationContent,
    ProjectContentKind,
};
use hexen::project_io::accept_parsed_project;
use hexen::slug::slugify;

#[test]
fn slugify_cases() {
    assert_eq!(slugify("An Unnamed Chapel"), "an-unnamed-chapel");
    assert_eq!(slugify("Willard's Hideout"), "willards-hideout");
    assert_eq!(slugify("Frøsselanding"), "frosselanding");
    assert_eq!(
        slugify("The Temple of 1,000 Swords"),
        "the-temple-of-1-000-swords"
    );
    assert_eq!(slugify("Café Noël"), "cafe-noel");
}

fn num(x: f64) -> Option<FloatBits> {
    Some(FloatBits { bits: x.to_bits() })
}

fn text(s: &str) -> Option<String> {
    Some(s.to_string())
}

fn map_root() -> VaultEntry {
    VaultEntry {
        relative_path: "Locations/Vilheim.md".into(),
        frontmatter: NoteFields {
            map_root: Some(true),
            map_id: text("vilheim-crace"),
            hex_origin_x: num(0.0),
            hex_origin_y: num(0.0),
            hex_b1_x: num(10.0),
            hex_b1_y: num(0.0),
            hex_b2_x: num(0.0),
            hex_b2_y: num(10.0),
            km_per_hex: num(9.0),
            hex_color: text("#c19a5f"),
            ..Default::default()
        },
    }
}

fn pin(path: &str, map_type: Option<&str>, map_icon: Option<&str>) -> VaultEntry {
    VaultEntry {
        relative_path: path.into(),
        frontmatter: NoteFields {
            map: text("vilheim-crace"),
            map_x: num(10.0),
            map_y: num(20.0),
            map_type: map_type.map(str::to_string),
            map_icon: map_icon.map(str::to_string),
            ..Default::default()
        },
    }
}

fn image() -> ImageRef {
    ImageRef {
        file: "_assets/vilheim-crace.png".into(),
        width: 100,
        height: 100,
    }
}

fn images() -> Vec<(String, ImageRef)> {
    vec![("vilheim-crace".to_string(), image())]
}

fn obsidian_content(reference: &str) -> Option<LocationContent> {
    Some(LocationContent {
        kind: Some(LocationContentKind::Obsidian(ObsidianLocationContent {
            reference: reference.to_string(),
        })),
    })
}

#[test]
fn builds_a_map_location_plus_a_pin_location_and_link() {
    let entries = [
        map_root(),
        pin("Locations/Pentegil Manor.md", Some("settlement"), Some("village")),
    ];
    let (project, warnings) = build_hexen_project(&entries, "Test", ".", &images());
    assert!(warnings.is_empty(), "{warnings:?}");
    assert_eq!(project.default_location, "vilheim-crace");

    let map = project
        .locations
        .iter()
        .find(|l| l.id == "vilheim-crace")
        .unwrap();
    assert!(
        matches!(map.grid.as_ref().and_then(|g| g.kind.as_ref()), Some(GridKind::Hex(h)) if h.distance_per_cell == num(9.0))
    );
    assert_eq!(map.image, Some(image()));
    assert_eq!(map.content, obsidian_content("Locations/Vilheim.md"));
    let link = &map.links[0];
    assert_eq!(
        (
            link.target.as_str(),
            f64::from_bits(link.x.bits),
            f64::from_bits(link.y.bits),
            link.link_type.as_str(),
            link.icon.as_deref(),
            &link.color,
            link.hidden
        ),
        (
            "pentegil-manor",
            10.0,
            20.0,
            "settlement",
            Some("village"),
            &None,
            Some(false)
        )
    );
    assert!(!link.id.is_empty());

    let pin = project
        .locations
        .iter()
        .find(|l| l.id == "pentegil-manor")
        .unwrap();
    assert!(pin.grid.is_none());
    assert_eq!(pin.content, obsidian_content("Locations/Pentegil Manor.md"));
}

#[test]
fn a_pin_on_an_unknown_map_keeps_its_location_but_drops_the_link() {
    let mut orphan = pin("Locations/Orphan.md", None, None);
    orphan.frontmatter = NoteFields {
        map: text("nowhere"),
        map_x: num(1.0),
        map_y: num(2.0),
        ..Default::default()
    };
    let (project, warnings) = build_hexen_project(&[map_root(), orphan], "Test", ".", &images());
    assert!(warnings.iter().any(|w| w.contains("nowhere")));
    assert!(project
        .locations
        .iter()
        .find(|l| l.id == "vilheim-crace")
        .unwrap()
        .links
        .is_empty());
    assert!(project.locations.iter().any(|l| l.id == "orphan"));
}

#[test]
fn a_map_without_an_image_warns() {
    let (project, warnings) = build_hexen_project(&[map_root()], "Test", ".", &[]);
    assert!(warnings.iter().any(|w| w.contains("vilheim-crace")));
    assert!(project.locations[0].image.is_none());
}

#[test]
fn pin_type_icon_and_color_default() {
    let (project, _) = build_hexen_project(
        &[map_root(), pin("Locations/Bare.md", None, None)],
        "Test",
        ".",
        &images(),
    );
    let link = &project.locations[0].links[0];
    assert_eq!(
        (link.link_type.as_str(), &link.icon, &link.color),
        ("waypoint", &None, &None)
    );
}

#[test]
fn the_result_is_readable_by_hexend() {
    let (project, _) = build_hexen_project(
        &[map_root(), pin("Locations/Bare.md", None, None)],
        "Test",
        ".",
        &images(),
    );
    let parsed = accept_parsed_project(project.clone()).unwrap();
    assert!(parsed.warnings.is_empty(), "{:?}", parsed.warnings);
    assert_eq!(parsed.project, project);
}

#[test]
fn link_ids_go_to_linked_pins_in_order() {
    let entries = [
        map_root(),
        pin("A.md", None, None),
        pin("Notes/B.MD", None, None),
        VaultEntry {
            relative_path: "C.md".into(),
            frontmatter: NoteFields {
                map: text("elsewhere"),
                map_x: num(1.0),
                map_y: num(1.0),
                ..Default::default()
            },
        },
    ];
    assert_eq!(linked_pin_count(&entries), 2);
    let ids = vec!["first".to_string(), "second".to_string()];
    let (project, warnings) = build_project_with_link_ids(&entries, "T", "vault", &images(), &ids);
    let links = &project.locations[0].links;
    assert_eq!(links.len(), 2);
    assert_eq!((links[0].id.as_str(), links[0].target.as_str()), ("first", "a"));
    assert_eq!((links[1].id.as_str(), links[1].target.as_str()), ("second", "b"));
    let ids: Vec<&str> = project.locations.iter().map(|l| l.id.as_str()).collect();
    assert_eq!(ids, ["vilheim-crace", "a", "b", "c"]);
    assert_eq!(
        warnings,
        ["\"C.md\" has map: \"elsewhere\", but no map-root note declares that map-id — dropping its pin."]
    );
    assert!(matches!(
        project.content.and_then(|c| c.kind),
        Some(ProjectContentKind::Obsidian(o)) if o.vault_root == "vault"
    ));
    assert_eq!(project.schema_version, 1);
    assert_eq!(project.title, "T");
}

#[test]
fn default_location_warnings() {
    let (project, warnings) =
        build_project_with_link_ids(&[pin("Loose Note.md", None, None)], "T", ".", &[], &[]);
    assert_eq!(project.default_location, "loose-note");
    assert_eq!(
        warnings,
        [
            "\"Loose Note.md\" has map: \"vilheim-crace\", but no map-root note declares that map-id — dropping its pin.",
            "No map-root note found — defaultLocation will be a guess."
        ]
    );

    let mut second = map_root();
    second.frontmatter.map_id = text("second");
    second.relative_path = "Second.md".into();
    let (project, warnings) =
        build_project_with_link_ids(&[map_root(), second], "T", ".", &images(), &[]);
    assert_eq!(project.default_location, "vilheim-crace");
    assert_eq!(
        warnings,
        [
            "No resolved image for map \"second\" — image will be null.",
            "2 map-root notes found; using \"vilheim-crace\" as defaultLocation."
        ]
    );

    let (project, warnings) = build_project_with_link_ids(&[], "T", ".", &[], &[]);
    assert_eq!(project.default_location, "");
    assert!(project.locations.is_empty());
    assert_eq!(warnings, ["No map-root note found — defaultLocation will be a guess."]);
}

#[test]
fn an_uncalibrated_map_has_no_grid_and_defaults_fill_the_style() {
    let mut root = map_root();
    root.frontmatter.hex_b2_x = None;
    let (project, _) = build_project_with_link_ids(&[root], "T", ".", &images(), &[]);
    assert!(project.locations[0].grid.is_none());

    let mut root = map_root();
    root.frontmatter.hex_color = None;
    root.frontmatter.hex_origin_y = None;
    let (project, _) = build_project_with_link_ids(&[root], "T", ".", &images(), &[]);
    let Some(GridKind::Hex(h)) = project.locations[0].grid.as_ref().and_then(|g| g.kind.as_ref()) else {
        panic!("expected a hex grid");
    };
    let style = h.style.as_ref().unwrap();
    assert_eq!(style.color, "#c19a5f");
    assert_eq!(style.weight.map(|w| f64::from_bits(w.bits)), Some(1.0));
    assert_eq!(style.opacity.map(|o| f64::from_bits(o.bits)), Some(0.45));
    assert_eq!(h.origin.map(|p| f64::from_bits(p.y.bits)), Some(0.0));
}

#[test]
fn only_the_first_map_root_of_an_id_gets_the_links() {
    let mut twin = map_root();
    twin.relative_path = "Twin.md".into();
    let entries = [map_root(), twin, pin("P.md", None, None)];
    let (project, _) =
        build_project_with_link_ids(&entries, "T", ".", &images(), &["x".to_string()]);
    assert_eq!(project.locations[0].links.len(), 1);
    assert!(project.locations[1].links.is_empty());
}

#[test]
fn generated_link_ids_look_like_uuids() {
    let (project, _) = build_hexen_project(
        &[map_root(), pin("A.md", None, None), pin("B.md", None, None)],
        "T",
        ".",
        &images(),
    );
    let links = &project.locations[0].links;
    assert_eq!(links.len(), 2);
    assert!(links.iter().all(|l| l.id.len() == 36));
    assert_ne!(links[0].id, links[1].id);
}

#[test]
fn strip_removes_only_named_fields() {
    let raw = "---\nmap: vilheim-crace\nmap-type: ruin\nsummary: A small chapel.\n---\n\nBody text stays exactly as it was.\n";
    let (content, mut removed) =
        strip_frontmatter_fields(raw, &["map", "map-type", "map-x", "map-y"]);
    removed.sort();
    assert_eq!(removed, ["map", "map-type"]);
    assert_eq!(
        content,
        "---\nsummary: A small chapel.\n---\n\nBody text stays exactly as it was.\n"
    );
}

#[test]
fn strip_leaves_unmatched_or_frontmatterless_notes_alone() {
    let raw = "---\ntitle: Untouched\n---\nBody.\n";
    assert_eq!(
        strip_frontmatter_fields(raw, &["map"]),
        (raw.to_string(), vec![])
    );
    let raw = "Just a body, no frontmatter.\n";
    assert_eq!(
        strip_frontmatter_fields(raw, &["map"]),
        (raw.to_string(), vec![])
    );
}

#[test]
fn strip_can_empty_the_block_and_keeps_quoting() {
    let (content, _) =
        strip_frontmatter_fields("---\nmap: x\nmap-x: 1\n---\nBody.\n", &["map", "map-x"]);
    assert_eq!(content, "---\n---\nBody.\n");
    let (content, _) = strip_frontmatter_fields(
        "---\nmap-color: \"#f66151\"\nsummary: \"\"\n---\nBody.\n",
        &["map-color"],
    );
    assert_eq!(content, "---\nsummary: \"\"\n---\nBody.\n");
}

#[test]
fn relative_paths() {
    assert_eq!(relative_to("/a/b/c.png", "/a"), "b/c.png");
    assert_eq!(relative_to("/a/vault", "/a/out"), "../vault");
    assert_eq!(relative_to("/a", "/a"), ".");
    assert_eq!(relative_to("/a//b/./c.png", "/a/"), "b/c.png");
    assert_eq!(relative_path_between("/a/b/c.png", "/a"), "b/c.png");
    assert_eq!(relative_path_between("/a/vault", "/a/out"), "../vault");
    assert_eq!(relative_path_between("/a", "/a"), ".");
}
