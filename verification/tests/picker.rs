use hexen::slug::slugify_title;

#[test]
fn slugify_matches_the_ts_editor() {
    assert_eq!(slugify_title("  My Realm! "), "my-realm");
    assert_eq!(slugify_title("Ünïcode & Co."), "n-code-co");
    assert_eq!(slugify_title("!!!"), "location");
}
