use hexen::recents::with_recent;
use hexen::targets::{target_from_params, with_recent as with_recent_target, Target};

fn v(items: &[&str]) -> Vec<String> {
    items.iter().map(|s| s.to_string()).collect()
}

#[test]
fn adds_to_the_front() {
    let recent = with_recent(&with_recent(&[], "/a.hexen.yml"), "/b.hexen.yml");
    assert_eq!(recent, v(&["/b.hexen.yml", "/a.hexen.yml"]));
}

#[test]
fn re_adding_moves_to_the_front_instead_of_duplicating() {
    let recent = with_recent(&v(&["/b.hexen.yml", "/a.hexen.yml"]), "/a.hexen.yml");
    assert_eq!(recent, v(&["/a.hexen.yml", "/b.hexen.yml"]));
}

#[test]
fn recents_caps_at_eight() {
    let recent = (0..10).fold(Vec::new(), |r, i| {
        with_recent(&r, &format!("/p{i}.hexen.yml"))
    });
    assert_eq!(recent.len(), 8);
    assert_eq!(recent[0], "/p9.hexen.yml");
}

fn t(path: &str) -> Target {
    Target {
        server: "http://localhost:4000".into(),
        path: path.into(),
    }
}

#[test]
fn adds_to_the_front_without_duplicating() {
    let recent = with_recent_target(&with_recent_target(&[], &t("/a")), &t("/b"));
    assert_eq!(recent, [t("/b"), t("/a")]);
    assert_eq!(with_recent_target(&recent, &t("/a")), [t("/a"), t("/b")]);
}

#[test]
fn the_same_path_on_another_server_is_a_different_entry() {
    let other = Target {
        server: "http://localhost:4001".into(),
        path: "/a".into(),
    };
    assert_eq!(with_recent_target(&[t("/a")], &other).len(), 2);
}

#[test]
fn targets_cap_at_eight() {
    let recent = (0..10).fold(Vec::new(), |r, i| with_recent_target(&r, &t(&format!("/p{i}"))));
    assert_eq!(recent.len(), 8);
    assert_eq!(recent[0], t("/p9"));
}

#[test]
fn a_presentation_url_names_both_server_and_path() {
    assert_eq!(
        target_from_params(Some("http://localhost:4000".into()), Some("/a".into())),
        Some(t("/a"))
    );
    assert_eq!(target_from_params(Some("".into()), Some("/a".into())), None);
    assert_eq!(target_from_params(Some("http://localhost:4000".into()), None), None);
}
