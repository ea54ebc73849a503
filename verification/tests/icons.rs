use hexen::editor::icon_groups;
use hexen::icons::{
    icon_sources, icon_svg, icon_url, render_entry, sort_sources, splice, src, Author, Category,
};

#[test]
fn strips_the_background_and_recolours_the_icon() {
    let raw = r##"<svg xmlns="http://www.w3.org/2000/svg" viewBox="0 0 512 512"><path d="M0 0h512v512H0z"/><path fill="#fff" d="M1 2z"/></svg>"##;
    assert_eq!(
        icon_svg("x", raw).unwrap(),
        r#"<svg xmlns="http://www.w3.org/2000/svg" viewBox="0 0 512 512"><path fill="currentColor" d="M1 2z"/></svg>"#
    );
    assert!(icon_svg("x", "<svg><path/></svg>").is_err());
}

#[test]
fn renders_one_entry_in_the_file_layout() {
    let source = src("pin", "Pin", Category::Waypoint, Author::Delapouite);
    assert_eq!(
        render_entry(&source, "<svg/>"),
        "    LinkIconDef {\n        slug: \"pin\",\n        label: \"Pin\",\n        category: IconCategory::Waypoint,\n        author: IconAuthor::Delapouite,\n        svg: r#\"<svg/>\"#,\n    },"
    );
}

#[test]
fn splices_a_new_table_body_and_keeps_the_rest() {
    let existing = "head\npub const LINK_ICONS: &[LinkIconDef] = &[\nold\n];\ntail\n";
    assert_eq!(
        splice(existing, &["a".to_string(), "b".to_string()]).unwrap(),
        "head\npub const LINK_ICONS: &[LinkIconDef] = &[\na\nb\n];\ntail\n"
    );
    assert!(splice("no table here", &[]).is_err());
}

#[test]
fn sources_sort_by_category_then_slug() {
    let sorted = sort_sources(&icon_sources());
    assert_eq!(sorted.len(), 36);
    let first: Vec<&str> = sorted.iter().take(7).map(|s| s.slug).collect();
    assert_eq!(
        first,
        ["hill-fort", "medieval-gate", "tavern-sign", "village", "watchtower", "well", "windmill"]
    );
    assert_eq!(sorted[7].slug, "castle");
    assert_eq!(sorted[35].slug, "wooden-sign");
    for pair in sorted.windows(2) {
        let (a, b) = (pair[0], pair[1]);
        assert!(a.category.rank() < b.category.rank() || (a.category == b.category && a.slug <= b.slug));
    }
}

#[test]
fn icons_come_from_their_authors_directory() {
    let source = src("castle", "Castle", Category::Landmark, Author::Lorc);
    assert_eq!(
        icon_url(&source),
        "https://raw.githubusercontent.com/game-icons/icons/master/lorc/castle.svg"
    );
}

#[test]
fn the_picker_groups_matches_by_category_in_table_order() {
    let icons = icon_sources();
    let all = icon_groups(&icons, "");
    let cats: Vec<Category> = all.iter().map(|g| g.0).collect();
    assert_eq!(
        cats,
        vec![Category::Settlement, Category::Landmark, Category::Ruin, Category::Hazard, Category::Waypoint]
    );
    assert_eq!(all.iter().map(|g| g.1.len()).sum::<usize>(), icons.len());

    // label, case-insensitively, after trimming the query
    let storm = icon_groups(&icons, "  STORM ");
    assert_eq!(storm.len(), 1);
    assert_eq!(storm[0].0, Category::Hazard);
    let slugs: Vec<&str> = storm[0].1.iter().map(|i| i.slug).collect();
    assert_eq!(slugs, vec!["sandstorm", "lightning-storm"]);

    // the slug matches too: "wooden-sign" is labelled "Signpost"
    let wooden = icon_groups(&icons, "wooden");
    assert_eq!(wooden.len(), 1);
    assert_eq!(wooden[0].0, Category::Waypoint);
    assert_eq!(wooden[0].1[0].label, "Signpost");

    assert!(icon_groups(&icons, "no such icon").is_empty());
}
