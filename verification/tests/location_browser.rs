use hexen::browser::rows;
use hexen::keyed::KeyedMap;
use hexen::project::{FloatBits, HexenProject, ImageRef, Link, Location, ResolvedContent};

fn link_to(target: &str) -> Link {
    Link {
        id: String::new(),
        target: target.into(),
        x: FloatBits { bits: 0 },
        y: FloatBits { bits: 0 },
        link_type: String::new(),
        icon: None,
        color: None,
        hidden: None,
    }
}

fn loc(id: &str, image: bool, links: &[&str]) -> Location {
    Location {
        id: id.into(),
        grid: None,
        image: if image {
            Some(ImageRef { file: String::new(), width: 0, height: 0 })
        } else {
            None
        },
        content: None,
        links: links.iter().map(|t| link_to(t)).collect(),
        fog: None,
    }
}

fn project() -> HexenProject {
    HexenProject {
        schema_version: 0,
        title: String::new(),
        default_location: "town".into(),
        content: None,
        locations: vec![
            loc("town", true, &["inn"]),
            loc("inn", false, &[]),
            loc("cellar", true, &[]),
        ],
    }
}

fn ids(rows: Vec<hexen::browser::Row>) -> Vec<String> {
    rows.into_iter().map(|r| r.id).collect()
}

#[test]
fn sorts_by_title_falling_back_to_id() {
    let mut resolved = KeyedMap::new();
    resolved.insert(
        "town".to_string(),
        ResolvedContent {
            title: "A Town".into(),
            summary: None,
            body: String::new(),
        },
    );
    assert_eq!(
        ids(rows(&project(), &resolved, "", false, false)),
        ["town", "cellar", "inn"]
    );
}

#[test]
fn filters_maps_orphans_and_text() {
    let none = KeyedMap::new();
    assert_eq!(
        ids(rows(&project(), &none, "", true, false)),
        ["cellar", "town"]
    );
    // the default location is never an orphan
    assert_eq!(ids(rows(&project(), &none, "", false, true)), ["cellar"]);
    assert_eq!(
        ids(rows(&project(), &none, "CELL", false, false)),
        ["cellar"]
    );
}

#[test]
fn search_text_is_trimmed_and_matches_titles_too() {
    let mut resolved = KeyedMap::new();
    resolved.insert(
        "inn".to_string(),
        ResolvedContent {
            title: "The Prancing Pony".into(),
            summary: None,
            body: String::new(),
        },
    );
    assert_eq!(ids(rows(&project(), &resolved, "  pony ", false, false)), ["inn"]);
    let all = rows(&project(), &resolved, "", false, false);
    assert_eq!(all.iter().map(|r| r.title.as_str()).collect::<Vec<_>>(), ["The Prancing Pony", "cellar", "town"]);
    assert!(all[0].is_orphan == false && !all[0].has_image);
}

#[test]
fn equal_titles_keep_location_order() {
    let mut p = project();
    p.locations = vec![loc("b", false, &[]), loc("a", false, &[])];
    let mut resolved = KeyedMap::new();
    for id in ["a", "b"] {
        resolved.insert(
            id.to_string(),
            ResolvedContent { title: "Same".into(), summary: None, body: String::new() },
        );
    }
    assert_eq!(ids(rows(&p, &resolved, "", false, false)), ["b", "a"]);
}
