use hexen::browser::Row;
use hexen::content::{parse_obsidian_note, split_frontmatter};
use hexen::desktop::{
    lan_change, presentation_asset, presentation_window_label, presentation_window_url, server_info,
    LanChange,
};
use hexen::editor::{
    add_location_fields, editor_phase, new_project_request, heading_title, history_shortcut, link_title, side_panel, upload_button_label,
    warning_lines, HistoryStep, Panel, Phase,
};
use hexen::files::{image_extension, is_hidden_dir, mime_for, parse_error_hint, sanitize_filename, upload_ext};
use hexen::image_size::{read_image_size, ImageSize};
use hexen::importer::{is_note_file, map_image_dest, map_image_source, strip_fields_for, NoteFields};
use hexen::keyed::KeyedMap;
use hexen::migrate::{migrate_document, oneof_from_type, Yaml};
use hexen::paths::{resolve, starts_with_path};
use hexen::presentation::{fullscreen_key, link_destination, visible_links, FullscreenChange};
use hexen::project::{
    FloatBits, HexenProject, ImageRef, Link, Location, ProjectContent, ProjectContentKind, ResolvedContent,
};
use hexen::save_queue::SaveQueue;
use hexen::schema::{clean_comment, json_name, short_name};
use hexen::server::{
    create_project_refusal, directory_entry, directory_listing, image_read_target, upload_plan,
    DirEntry, ImageRefusal, UploadRefusal,
};
use hexen::urls::{dirname, image_upload_url, image_url, join_path, ws_url};

#[test]
fn reads_png_and_jpeg_sizes() {
    let mut png = vec![0x89, 0x50, 0x4e, 0x47, 0x0d, 0x0a, 0x1a, 0x0a, 0, 0, 0, 13, b'I', b'H', b'D', b'R'];
    png.extend_from_slice(&[0, 0, 0x01, 0x90, 0, 0, 0, 0xc8]);
    assert_eq!(read_image_size(&png), Some(ImageSize { width: 400, height: 200 }));
    let jpeg = [0xff, 0xd8, 0xff, 0xe0, 0, 4, 0, 0, 0xff, 0xc0, 0, 11, 8, 0, 24, 0, 12, 3, 0];
    assert_eq!(read_image_size(&jpeg), Some(ImageSize { width: 12, height: 24 }));
    assert_eq!(read_image_size(b"GIF89a................."), None);
    assert_eq!(read_image_size(&[0xff, 0xd8, 0xff, 0xe0, 0, 0]), None);
}

#[test]
fn respells_old_oneofs() {
    let old = Yaml::Mapping(vec![
        ("type".into(), Yaml::Str("obsidian".into())),
        ("vaultRoot".into(), Yaml::Str("_vault".into())),
    ]);
    assert_eq!(
        oneof_from_type(old),
        Yaml::Mapping(vec![(
            "obsidian".into(),
            Yaml::Mapping(vec![("vaultRoot".into(), Yaml::Str("_vault".into()))])
        )])
    );
    assert_eq!(oneof_from_type(Yaml::Null), Yaml::Null);
    let location = Yaml::Mapping(vec![
        ("id".into(), Yaml::Str("inn".into())),
        ("grid".into(), Yaml::Mapping(vec![("type".into(), Yaml::Str("square".into()))])),
        ("content".into(), Yaml::Mapping(vec![
            ("type".into(), Yaml::Str("inline".into())),
            ("title".into(), Yaml::Str("The Inn".into())),
        ])),
    ]);
    let doc = Yaml::Mapping(vec![
        ("schemaVersion".into(), Yaml::Number("1".into())),
        ("content".into(), Yaml::Mapping(vec![("type".into(), Yaml::Str("inline".into()))])),
        ("locations".into(), Yaml::List(vec![location])),
    ]);
    let migrated = migrate_document(doc);
    let Yaml::Mapping(entries) = migrated else { panic!("a mapping") };
    assert_eq!(entries[0], ("schemaVersion".into(), Yaml::Number("1".into())));
    assert_eq!(entries[1], ("content".into(), Yaml::Mapping(vec![("inline".into(), Yaml::Mapping(vec![]))])));
    let Yaml::List(locations) = &entries[2].1 else { panic!("a list") };
    assert_eq!(
        locations[0],
        Yaml::Mapping(vec![
            ("id".into(), Yaml::Str("inn".into())),
            ("grid".into(), Yaml::Mapping(vec![("square".into(), Yaml::Mapping(vec![]))])),
            ("content".into(), Yaml::Mapping(vec![(
                "inline".into(),
                Yaml::Mapping(vec![("title".into(), Yaml::Str("The Inn".into()))])
            )])),
        ])
    );
}

#[test]
fn image_requests_stay_inside_the_project() {
    let open = vec!["/srv/maps".to_string(), "/p".to_string()];
    assert_eq!(image_read_target("/srv", &open, Some("maps"), Some("a.png")), Ok("/srv/maps/a.png".to_string()));
    assert_eq!(
        image_read_target("/srv", &open, Some("/p"), Some("../../etc/hostname")),
        Err(ImageRefusal::EscapesProject)
    );
    assert_eq!(image_read_target("/srv", &open, None, Some("a.png")), Err(ImageRefusal::MissingDirOrFile));
    assert_eq!(ImageRefusal::EscapesProject.message(), "file escapes the project directory");
    let plan = upload_plan("/srv", &open, "/p", "town hall", "JPEG").unwrap();
    assert_eq!(plan.file, "_assets/town-hall.jpg");
    assert_eq!(plan.target, "/p/_assets/town-hall.jpg");
    assert_eq!(plan.assets_dir, "/p/_assets");
    let refused = upload_plan("/srv", &open, "/p", "x", "gif").unwrap_err();
    assert_eq!(refused, UploadRefusal::UnsupportedExtension("gif".into()));
    assert_eq!(refused.message(), "Unsupported image extension \"gif\" — use png or jpg/jpeg");
}

#[test]
fn image_reads_and_uploads_are_limited_to_open_projects() {
    // nothing open: neither /etc nor a project's own directory is served
    let none: Vec<String> = vec![];
    assert_eq!(image_read_target("/srv", &none, Some("/etc"), Some("hostname")), Err(ImageRefusal::NotOpen));
    assert_eq!(
        image_read_target("/srv", &none, Some("/tmp/demo"), Some("demo.hexen.yml")),
        Err(ImageRefusal::NotOpen)
    );
    assert_eq!(upload_plan("/srv", &none, "/tmp/demo", "town", "png"), Err(UploadRefusal::NotOpen));
    // once the project is open its directory is served, /etc still not
    let open = vec!["/tmp/demo".to_string()];
    assert_eq!(
        image_read_target("/srv", &open, Some("/tmp/demo"), Some("demo.hexen.yml")),
        Ok("/tmp/demo/demo.hexen.yml".to_string())
    );
    assert_eq!(image_read_target("/srv", &open, Some("/etc"), Some("hostname")), Err(ImageRefusal::NotOpen));
    assert_eq!(
        image_read_target("/srv", &open, Some("/tmp/demo"), Some("../../etc/hostname")),
        Err(ImageRefusal::EscapesProject)
    );
    assert_eq!(upload_plan("/srv", &open, "/tmp/demo", "town", "png").unwrap().file, "_assets/town.png");
    assert_eq!(ImageRefusal::NotOpen.message(), "Not found");
}

#[test]
fn project_creation_and_directory_listing() {
    assert_eq!(create_project_refusal("/a/p.hexen.yml", true, "/a", true).as_deref(), Some("\"/a/p.hexen.yml\" already exists"));
    assert_eq!(create_project_refusal("/a/p.hexen.yml", false, "/a", false).as_deref(), Some("Directory \"/a\" doesn't exist"));
    assert_eq!(create_project_refusal("/a/p.hexen.yml", false, "/a", true), None);
    assert!(directory_entry(".git".into(), true).is_none());
    assert!(directory_entry("notes.txt".into(), false).is_none());
    let p = directory_entry("realm.hexen.yml".into(), false).unwrap();
    assert!(p.is_project && !p.is_directory);
    let entries = vec![
        directory_entry("b.hexen.yml".into(), false).unwrap(),
        directory_entry("zeta".into(), true).unwrap(),
        directory_entry("a.hexen.yml".into(), false).unwrap(),
        directory_entry("alpha".into(), true).unwrap(),
    ];
    let listing = directory_listing("/".into(), Some("/".into()), entries);
    assert_eq!(listing.parent, None);
    let names: Vec<&str> = listing.entries.iter().map(|e: &DirEntry| e.name.as_str()).collect();
    assert_eq!(names, ["alpha", "zeta", "a.hexen.yml", "b.hexen.yml"]);
    let listing = directory_listing("/a".into(), Some("/".into()), vec![]);
    assert_eq!(listing.parent.as_deref(), Some("/"));
}

#[test]
fn desktop_servers_and_windows() {
    let info = server_info("127.0.0.1:5555", Some(4747), Some("192.168.1.9".into()), "0.3.0");
    assert_eq!(info.server_url, "http://127.0.0.1:5555");
    assert_eq!(info.lan_url.as_deref(), Some("http://192.168.1.9:4747"));
    assert_eq!(info.version, "0.3.0");
    let info = server_info("127.0.0.1:5555", Some(80), None, "x");
    assert_eq!(info.lan_url.as_deref(), Some("http://localhost:80"));
    assert_eq!(server_info("h:1", None, None, "x").lan_url, None);
    assert_eq!(lan_change(true, true), LanChange::Keep);
    assert_eq!(lan_change(false, true), LanChange::Stop);
    assert_eq!(lan_change(true, false), LanChange::Start);
    assert_eq!(lan_change(false, false), LanChange::Nothing);
    assert_eq!(presentation_asset("/presentation/"), "index.html");
    assert_eq!(presentation_asset("/presentation"), "index.html");
    assert_eq!(presentation_asset("/presentation//presentation-rs-1.js"), "presentation-rs-1.js");
    assert_eq!(presentation_asset("/other"), "index.html");
    assert_eq!(
        presentation_window_url("http://127.0.0.1:9", "/a b.hexen.yml"),
        "http://127.0.0.1:9/presentation/?server=http%3A%2F%2F127.0.0.1%3A9&path=%2Fa+b.hexen.yml"
    );
    assert_eq!(presentation_window_label(3), "presentation-3");
}

fn loc(id: &str, image: bool) -> Location {
    Location {
        id: id.into(),
        grid: None,
        image: if image { Some(ImageRef { file: "m.png".into(), width: 1, height: 1 }) } else { None },
        content: None,
        links: vec![],
        fog: None,
    }
}

fn pin(id: &str, target: &str, hidden: Option<bool>) -> Link {
    Link {
        id: id.into(),
        target: target.into(),
        x: FloatBits { bits: 0 },
        y: FloatBits { bits: 0 },
        link_type: "waypoint".into(),
        icon: None,
        color: None,
        hidden,
    }
}

#[test]
fn players_see_only_unhidden_pins_and_follow_them_to_maps() {
    let links = vec![pin("a", "inn", None), pin("b", "cellar", Some(true)), pin("c", "town", Some(false))];
    let shown: Vec<String> = visible_links(&links).into_iter().map(|l| l.id).collect();
    assert_eq!(shown, ["a", "c"]);
    let project = HexenProject {
        schema_version: 1,
        title: "T".into(),
        default_location: "town".into(),
        content: None,
        locations: vec![loc("town", true), loc("inn", false)],
    };
    assert_eq!(link_destination(&project, &links, "c"), Some("town".to_string()));
    assert_eq!(link_destination(&project, &links, "a"), None);
    assert_eq!(link_destination(&project, &links, "zz"), None);
}

#[test]
fn the_editor_screen_decisions() {
    assert_eq!(editor_phase(Some("boom".into()), true, None, false), Phase::Failed("boom".into()));
    assert_eq!(editor_phase(None, false, Some("a".into()), true), Phase::Loading);
    assert_eq!(editor_phase(None, true, None, false), Phase::Loading);
    assert_eq!(editor_phase(None, true, Some("a".into()), false), Phase::UnknownLocation("a".into()));
    assert_eq!(editor_phase(None, true, Some("a".into()), true), Phase::Ready);
    assert_eq!(side_panel(true, true, true, true, true), Panel::Grid);
    assert_eq!(side_panel(true, false, true, true, true), Panel::AddLocation);
    assert_eq!(side_panel(false, true, false, true, true), Panel::Link);
    assert_eq!(side_panel(false, true, true, false, false), Panel::Hidden);
    assert_eq!(heading_title("", "inn"), "inn");
    assert_eq!(heading_title("The Inn", "inn"), "The Inn");
    let mut resolved = KeyedMap::new();
    resolved.insert("inn".to_string(), ResolvedContent { title: "The Inn".into(), summary: None, body: String::new() });
    assert_eq!(link_title(&resolved, "inn"), "The Inn");
    assert_eq!(link_title(&resolved, "cellar"), "cellar");
    let lines = warning_lines(
        &vec!["w1".to_string()],
        &vec![("z".to_string(), "bad".to_string()), ("a".to_string(), "worse".to_string())],
    );
    assert_eq!(lines, ["w1", "a: worse", "z: bad"]);
    assert_eq!(history_shortcut(true, true, "Z", false), Some(HistoryStep::Undo));
    assert_eq!(history_shortcut(true, true, "z", true), Some(HistoryStep::Redo));
    assert_eq!(history_shortcut(false, true, "z", false), None);
    assert_eq!(history_shortcut(true, false, "z", false), None);
    assert_eq!(history_shortcut(true, true, "y", false), None);
    assert_eq!(upload_button_label(true, true), "Uploading…");
    assert_eq!(upload_button_label(false, true), "Replace image…");
    assert_eq!(upload_button_label(false, false), "Upload image…");
}

#[test]
fn saves_coalesce_to_the_newest_snapshot() {
    let project = |t: &str| HexenProject {
        schema_version: 1,
        title: t.into(),
        default_location: String::new(),
        content: None,
        locations: vec![],
    };
    let mut q = SaveQueue::new();
    assert!(q.offer(project("a")));
    assert!(!q.offer(project("b")));
    assert_eq!(q.next_to_write().map(|p| p.title), Some("b".to_string()));
    assert!(q.writing);
    assert_eq!(q.next_to_write(), None);
    assert!(!q.writing);
}

#[test]
fn notes_parse_into_title_summary_and_body() {
    let raw = "---\ntitle: The Inn\nsummary: Warm.\n---\n\n  A place to rest.  \n";
    let (fm, body) = split_frontmatter(raw);
    assert_eq!(fm.as_deref(), Some("title: The Inn\nsummary: Warm."));
    assert_eq!(body, "\n  A place to rest.  \n");
    let c = parse_obsidian_note(raw, "Places/inn.md");
    assert_eq!(c, ResolvedContent { title: "The Inn".into(), summary: Some("Warm.".into()), body: "A place to rest.".into() });
    let c = parse_obsidian_note("Just text.", "Places/The Cellar.md");
    assert_eq!(c, ResolvedContent { title: "The Cellar".into(), summary: None, body: "Just text.".into() });
}

#[test]
fn file_names_types_and_paths() {
    assert_eq!(upload_ext("jpeg"), Some("jpg"));
    assert_eq!(upload_ext("PNG"), None);
    assert_eq!(mime_for("/a/b.SVG"), "image/svg+xml");
    assert_eq!(mime_for("/a/b"), "application/octet-stream");
    assert_eq!(sanitize_filename("a b/c_d-e"), "a-b-c_d-e");
    assert_eq!(image_extension("image/png", "x"), Some("png"));
    assert_eq!(image_extension("", "photo.JPEG"), Some("jpeg"));
    assert!(is_hidden_dir("_assets") && is_hidden_dir(".obsidian") && is_hidden_dir("node_modules"));
    assert!(!is_hidden_dir("Locations"));
    assert!(parse_error_hint("content: { type: obsidian }").contains("migrate"));
    assert_eq!(parse_error_hint("title: x"), "");
    assert_eq!(resolve("/a/b", "../c/./d"), "/a/c/d");
    assert_eq!(resolve("/a/b", "/x/../y"), "/y");
    assert!(starts_with_path("/a/b/c", "/a/b"));
    assert!(!starts_with_path("/a/bc", "/a/b"));
    assert!(is_note_file("Inn.MD") && !is_note_file("inn.txt"));
    assert_eq!(map_image_source("/v", "town"), "/v/_maps/town/map.png");
    assert_eq!(map_image_dest("out", "_assets", "town"), "out/_assets/town.png");
    let root = NoteFields { map_root: Some(true), ..Default::default() };
    assert_eq!(strip_fields_for(&root).unwrap().len(), 14);
    let pin = NoteFields { map: Some("m".into()), ..Default::default() };
    assert_eq!(strip_fields_for(&pin).unwrap(), ["map", "map-x", "map-y", "map-type", "map-icon", "map-color"]);
    assert_eq!(strip_fields_for(&NoteFields::default()), None);
}

#[test]
fn server_urls() {
    assert_eq!(ws_url("http://h:1", "/a b"), "ws://h:1/ws?path=%2Fa%20b");
    assert_eq!(ws_url("https://h", "x"), "wss://h/ws?path=x");
    assert_eq!(dirname("/a/b.hexen.yml"), "/a");
    assert_eq!(dirname("b.hexen.yml"), ".");
    assert_eq!(join_path("/a/", "b"), "/a/b");
    assert_eq!(join_path("/a", "b"), "/a/b");
    assert_eq!(image_url("http://h", "/p/x.hexen.yml", "_assets/t.png"), "http://h/image?dir=%2Fp&file=_assets%2Ft.png");
    assert_eq!(
        image_upload_url("http://h", "/p/x.hexen.yml", "town", "png"),
        "http://h/image?dir=%2Fp&locationId=town&ext=png"
    );
}

#[test]
fn schema_names_and_descriptions() {
    assert_eq!(short_name(".hexen.v1.HexenProject"), "HexenProject");
    assert_eq!(short_name("Plain"), "Plain");
    assert_eq!(json_name("distance_per_cell", &None), "distancePerCell");
    assert_eq!(json_name("x", &Some("custom".into())), "custom");
    assert_eq!(clean_comment("One\n  line.\n\nTwo."), "One line.\n\nTwo.");
}

#[test]
fn rows_carry_their_flags() {
    let r = Row { id: "a".into(), title: "A".into(), has_image: true, is_orphan: false };
    assert!(r.has_image && !r.is_orphan);
}

#[test]
fn the_new_project_form_sends_trimmed_fields_and_a_slugged_default() {
    let r = new_project_request("  My Realm ", " /tmp/realm.hexen.yml ", false, "").unwrap();
    assert_eq!(r.title, "My Realm");
    assert_eq!(r.path, "/tmp/realm.hexen.yml");
    assert_eq!(r.default_location_id, "my-realm");
    assert!(matches!(r.content, Some(ProjectContent { kind: Some(ProjectContentKind::Inline(_)) })));

    let v = new_project_request("Realm", "/r.hexen.yml", true, " notes ").unwrap();
    match v.content {
        Some(ProjectContent { kind: Some(ProjectContentKind::Obsidian(o)) }) => assert_eq!(o.vault_root, "notes"),
        _ => panic!("expected obsidian content"),
    }

    assert!(new_project_request("   ", "/r.hexen.yml", false, "").is_none());
    assert!(new_project_request("Realm", "  ", false, "").is_none());
    assert!(new_project_request("Realm", "/r.hexen.yml", true, "  ").is_none());
    assert!(new_project_request("!!!", "/r.hexen.yml", false, "").unwrap().default_location_id == "location");
}

#[test]
fn the_add_location_form_submits_trimmed_fields_once_both_are_given() {
    assert_eq!(
        add_location_fields("  old-mill ", " landmark "),
        Some(("old-mill".to_string(), "landmark".to_string()))
    );
    assert_eq!(add_location_fields("old-mill", "   "), None);
    assert_eq!(add_location_fields("", "npc"), None);
}

#[test]
fn a_bare_f_toggles_full_screen() {
    assert_eq!(fullscreen_key("f", false, false, false, false, false), Some(FullscreenChange::Enter));
    assert_eq!(fullscreen_key("F", false, false, false, false, true), Some(FullscreenChange::Exit));
    assert_eq!(fullscreen_key("f", true, false, false, false, false), None);
    assert_eq!(fullscreen_key("f", false, false, true, false, false), None);
    assert_eq!(fullscreen_key("g", false, false, false, false, false), None);
    assert_eq!(fullscreen_key("ff", false, false, false, false, false), None);
}
