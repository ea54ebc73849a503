use hexen::urls::{app_urls, encode, encode_unreserved, form_encode, presentation_url, Ports};

#[test]
fn urls_carry_the_server_and_the_absolute_project_path() {
    let ports = Ports {
        hexend: 4001,
        editor: 5173,
        presentation: 5174,
    };
    let (editor, presentation) = app_urls("/maps/my realm.hexen.yml", &ports);
    assert_eq!(
        editor,
        "http://localhost:5173/?server=http%3A%2F%2Flocalhost%3A4001&path=%2Fmaps%2Fmy%20realm.hexen.yml"
    );
    assert!(presentation.starts_with("http://localhost:5174/?server="));
}

#[test]
fn encode_matches_encode_uri_component() {
    assert_eq!(encode("a b/c?d=e&f"), "a%20b%2Fc%3Fd%3De%26f");
    assert_eq!(encode("-_.!~*'()"), "-_.!~*'()");
    assert_eq!(encode("é"), "%C3%A9");
    assert_eq!(encode_unreserved("!*"), "%21%2A");
}

#[test]
fn form_encoding_writes_spaces_as_plus() {
    assert_eq!(form_encode("my realm/x~"), "my+realm%2Fx%7E");
    assert_eq!(form_encode("a*b-c.d_e"), "a*b-c.d_e");
}

#[test]
fn the_presentation_link_encodes_both_values() {
    assert_eq!(
        presentation_url("http://h:1", "/p q"),
        "http://h:1/presentation/?server=http%3A%2F%2Fh%3A1&path=%2Fp%20q"
    );
}
