use hexen::importer::{note_fields_of, NoteFields};
use hexen::migrate::{migrate_text, Yaml};
use hexen::paths::resolve;
use hexen::project::FloatBits;

fn bits(x: f64) -> Option<FloatBits> {
    Some(FloatBits { bits: x.to_bits() })
}

#[test]
fn a_notes_map_fields_come_from_its_frontmatter() {
    let raw = "---\nmap-root: true\nmap-id: town\nmap-hex-origin-x: 10.5\nmap-hex-color: \"#c19a5f\"\nmap: world\nmap-x: 3\nmap-y: -2.25\nmap-type: settlement\n---\nBody text.\n";
    let f = note_fields_of(raw);
    assert_eq!(f.map_root, Some(true));
    assert_eq!(f.map_id, Some("town".to_string()));
    assert_eq!(f.hex_origin_x, bits(10.5));
    assert_eq!(f.hex_color, Some("#c19a5f".to_string()));
    assert_eq!(f.map, Some("world".to_string()));
    assert_eq!(f.map_x, bits(3.0));
    assert_eq!(f.map_y, bits(-2.25));
    assert_eq!(f.map_type, Some("settlement".to_string()));
    assert_eq!(f.map_icon, None);
    assert_eq!(f.hex_b1_x, None);
}

#[test]
fn values_of_the_wrong_kind_are_not_read() {
    let f = note_fields_of("---\nmap-root: yes please\nmap-x: far\nmap-id: 7\n---\n");
    assert_eq!(f.map_root, None);
    assert_eq!(f.map_x, None);
    assert_eq!(f.map_id, None);
}

#[test]
fn a_note_without_a_mapping_block_has_no_fields() {
    assert_eq!(note_fields_of("Just a body.\n"), NoteFields::default());
    assert_eq!(note_fields_of("---\n- a\n- b\n---\nBody\n"), NoteFields::default());
    assert_eq!(note_fields_of("---\nmap-root: true\nno closing line\n"), NoteFields::default());
}

#[test]
fn old_format_text_is_migrated_after_parsing() {
    let old = "schemaVersion: 1\ntitle: T\ncontent:\n  type: inline\nlocations:\n- id: a\n  grid:\n    type: square\n";
    let Yaml::Mapping(entries) = migrate_text(old).unwrap() else { panic!("a mapping") };
    assert_eq!(entries[1], ("title".to_string(), Yaml::Str("T".to_string())));
    assert_eq!(
        entries[2],
        ("content".to_string(), Yaml::Mapping(vec![("inline".to_string(), Yaml::Mapping(vec![]))]))
    );
    let Yaml::List(locations) = &entries[3].1 else { panic!("a list") };
    assert_eq!(
        locations[0],
        Yaml::Mapping(vec![
            ("id".to_string(), Yaml::Str("a".to_string())),
            ("grid".to_string(), Yaml::Mapping(vec![("square".to_string(), Yaml::Mapping(vec![]))])),
        ])
    );
    assert!(migrate_text("a: [unclosed").is_err());
}

#[test]
fn stripping_again_changes_nothing() {
    let raw = "---\nmap: x\ntitle: T\nmap-x: 1\n---\nBody\n";
    let (once, removed) = hexen::frontmatter::strip_frontmatter_fields(raw, &["map", "map-x"]);
    assert_eq!(removed, vec!["map".to_string(), "map-x".to_string()]);
    let (twice, again) = hexen::frontmatter::strip_frontmatter_fields(&once, &["map", "map-x"]);
    assert_eq!(twice, once);
    assert!(again.is_empty());
}

#[test]
fn slugs_are_lowercase_words_joined_by_single_dashes() {
    for text in ["Willard's Hideout -- Again!", "  --Café  Noël--  ", "The Temple of 1,000 Swords"] {
        let s = hexen::slug::slugify(text);
        assert!(s.chars().all(|c| c.is_ascii_lowercase() || c.is_ascii_digit() || c == '-'), "{s}");
        assert!(!s.contains("--"), "{s}");
        assert!(!s.starts_with('-') && !s.ends_with('-'), "{s}");
    }
    assert_eq!(hexen::slug::slugify("Willard's Hideout"), "willards-hideout");
}

#[test]
fn opening_keeps_the_recent_list_unique() {
    let mut recent: Vec<String> = Vec::new();
    for i in [0, 1, 2, 1, 3, 0, 4, 5, 6, 7, 8, 9, 3] {
        recent = hexen::recents::with_recent(&recent, &format!("/p{i}.hexen.yml"));
        let mut sorted = recent.clone();
        sorted.sort();
        sorted.dedup();
        assert_eq!(sorted.len(), recent.len());
    }
    assert_eq!(recent.len(), 8);
    assert_eq!(recent[0], "/p3.hexen.yml");
}

#[test]
fn resolved_paths_are_clean() {
    assert_eq!(resolve("/srv", "a/../b/./c"), "/srv/b/c");
    assert_eq!(resolve("/srv", "/x//y/../z/"), "/x/z");
    assert_eq!(resolve("/srv", "../../.."), "/");
    assert_eq!(resolve("/srv", &resolve("/srv", "a/../b/./c")), "/srv/b/c");
}

#[test]
fn a_line_ending_in_two_carriage_returns_loses_one_per_strip() {
    let raw = "---\nabc\r\r\n---\nBody\n";
    let (once, _) = hexen::frontmatter::strip_frontmatter_fields(raw, &["map"]);
    assert_eq!(once, "---\nabc\r\n---\nBody\n");
    let (twice, _) = hexen::frontmatter::strip_frontmatter_fields(&once, &["map"]);
    assert_eq!(twice, "---\nabc\n---\nBody\n");
}

#[test]
fn a_slug_is_its_own_slug() {
    for text in ["Willard's Hideout", "Café Noël", "Frøsselanding", "The Temple of 1,000 Swords", "--x--"] {
        let s = hexen::slug::slugify(text);
        assert_eq!(hexen::slug::slugify(&s), s);
    }
}
