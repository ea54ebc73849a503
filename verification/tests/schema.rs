use hexen::schema::{
    field_schema, schema_of_files, FieldDesc, FieldType, FileDesc, Json, MessageDesc, Schema,
    SourceComment,
};

fn field(name: &str, field_type: FieldType, type_ref: &str) -> FieldDesc {
    FieldDesc {
        name: name.to_string(),
        json_name: None,
        field_type,
        type_ref: type_ref.to_string(),
        repeated: false,
        oneof_index: None,
        proto3_optional: false,
    }
}

fn message(name: &str, fields: Vec<FieldDesc>, oneof_count: usize) -> MessageDesc {
    MessageDesc { name: name.to_string(), fields, oneof_count }
}

fn descriptors() -> Vec<FileDesc> {
    let mut locations = field("locations", FieldType::Message, ".hexen.v1.Location");
    locations.repeated = true;
    let mut default_location = field("default_location", FieldType::Text, "");
    default_location.json_name = Some("defaultLocation".to_string());
    let project = message(
        "HexenProject",
        vec![
            field("schema_version", FieldType::Int32, ""),
            field("title", FieldType::Text, ""),
            default_location,
            field("content", FieldType::Message, ".hexen.v1.ProjectContent"),
            locations,
        ],
        0,
    );
    let mut inline = field("inline", FieldType::Message, ".hexen.v1.InlineProjectContent");
    inline.oneof_index = Some(0);
    let mut obsidian = field("obsidian", FieldType::Message, ".hexen.v1.ObsidianProjectContent");
    obsidian.oneof_index = Some(0);
    let content = message("ProjectContent", vec![inline, obsidian], 1);
    let inline_content = message("InlineProjectContent", vec![], 0);
    let obsidian_content = message(
        "ObsidianProjectContent",
        vec![field("vault_root", FieldType::Text, "")],
        0,
    );
    let mut title = field("title", FieldType::Text, "");
    title.oneof_index = Some(0);
    title.proto3_optional = true;
    let mut links = field("links", FieldType::Message, ".hexen.v1.Link");
    links.repeated = true;
    let location = message("Location", vec![field("id", FieldType::Text, ""), title, links], 1);
    let link = message(
        "Link",
        vec![
            field("id", FieldType::Text, ""),
            field("x", FieldType::Double, ""),
            field("revision", FieldType::Uint64, ""),
            field("hidden", FieldType::Bool, ""),
        ],
        0,
    );
    let unused = message("Unused", vec![], 0);
    vec![FileDesc {
        package: "hexen.v1".to_string(),
        messages: vec![project, content, inline_content, obsidian_content, location, link, unused],
        comments: vec![
            SourceComment { path: vec![4, 0], leading: " A whole project.\n".to_string() },
            SourceComment {
                path: vec![4, 5, 2, 0],
                leading: " Unique within its map,\n stable across edits.\n\n Never reused.\n".to_string(),
            },
            SourceComment { path: vec![4, 5, 2, 1], leading: "   \n".to_string() },
        ],
    }]
}

fn get<'a>(j: &'a Json, key: &str) -> &'a Json {
    match j {
        Json::Object(entries) => {
            &entries.iter().find(|(k, _)| k == key).unwrap_or_else(|| panic!("no {key} in {j:?}")).1
        }
        _ => panic!("{j:?} is not an object"),
    }
}

fn has(j: &Json, key: &str) -> bool {
    match j {
        Json::Object(entries) => entries.iter().any(|(k, _)| k == key),
        _ => false,
    }
}

fn text(s: &str) -> Json {
    Json::Str(s.to_string())
}

#[test]
fn carries_proto_comments_as_descriptions() {
    let schema = Schema::load(descriptors()).generate();
    let link_id = get(get(get(get(get(&schema, "definitions"), "Link"), "properties"), "id"), "description");
    match link_id {
        Json::Str(s) => assert!(s.contains("stable across edits"), "{s}"),
        other => panic!("{other:?}"),
    }
    assert_eq!(link_id, &text("Unique within its map, stable across edits.\n\nNever reused."));
    let project = get(get(&schema, "definitions"), "HexenProject");
    assert_eq!(get(project, "description"), &text("A whole project."));
    // a blank comment is no description
    let x = get(get(get(get(&schema, "definitions"), "Link"), "properties"), "x");
    assert!(!has(x, "description"));
}

#[test]
fn the_document_points_at_the_project_and_defines_what_it_reaches() {
    let schema = Schema::load(descriptors()).generate();
    assert_eq!(get(&schema, "$schema"), &text("http://json-schema.org/draft-07/schema#"));
    assert_eq!(get(&schema, "$ref"), &text("#/definitions/HexenProject"));
    let defs = get(&schema, "definitions");
    let mut names: Vec<&str> = match defs {
        Json::Object(e) => e.iter().map(|(k, _)| k.as_str()).collect(),
        _ => panic!(),
    };
    names.sort();
    assert_eq!(
        names,
        vec!["HexenProject", "InlineProjectContent", "Link", "Location", "ObsidianProjectContent", "ProjectContent"]
    );
}

#[test]
fn fields_map_to_json_types_names_and_nullability() {
    let schema = Schema::load(descriptors()).generate();
    let defs = get(&schema, "definitions");
    let project = get(defs, "HexenProject");
    assert_eq!(get(project, "type"), &text("object"));
    assert_eq!(get(project, "additionalProperties"), &Json::Bool(false));
    let props = get(project, "properties");
    assert_eq!(get(get(props, "schemaVersion"), "type"), &text("integer"));
    assert!(has(props, "defaultLocation"));
    assert_eq!(
        get(props, "content"),
        &Json::Object(vec![(
            "anyOf".to_string(),
            Json::Array(vec![
                Json::Object(vec![("$ref".to_string(), text("#/definitions/ProjectContent"))]),
                Json::Object(vec![("type".to_string(), text("null"))]),
            ])
        )])
    );
    assert_eq!(
        get(props, "locations"),
        &Json::Object(vec![
            ("type".to_string(), text("array")),
            ("items".to_string(), Json::Object(vec![("$ref".to_string(), text("#/definitions/Location"))])),
        ])
    );
    let link = get(get(defs, "Link"), "properties");
    assert_eq!(get(get(link, "x"), "type"), &text("number"));
    assert_eq!(get(get(link, "revision"), "type"), &Json::Array(vec![text("integer"), text("string")]));
    assert_eq!(get(get(link, "hidden"), "type"), &text("boolean"));
    // proto3 optional: nullable, and its synthetic oneof adds no clause
    let location = get(defs, "Location");
    assert_eq!(
        get(get(location, "properties"), "title"),
        &Json::Object(vec![(
            "anyOf".to_string(),
            Json::Array(vec![
                Json::Object(vec![("type".to_string(), text("string"))]),
                Json::Object(vec![("type".to_string(), text("null"))]),
            ])
        )])
    );
    assert!(!has(location, "allOf"));
    assert!(!has(location, "minProperties"));
}

#[test]
fn a_oneof_allows_at_most_one_member_and_alone_needs_one() {
    let schema = Schema::load(descriptors()).generate();
    let content = get(get(&schema, "definitions"), "ProjectContent");
    assert_eq!(get(content, "minProperties"), &Json::Int(1));
    assert_eq!(
        get(content, "allOf"),
        &Json::Array(vec![Json::Object(vec![(
            "not".to_string(),
            Json::Object(vec![(
                "anyOf".to_string(),
                Json::Array(vec![Json::Object(vec![(
                    "required".to_string(),
                    Json::Array(vec![text("inline"), text("obsidian")])
                )])])
            )])
        )])])
    );
}

#[test]
fn a_three_member_oneof_lists_every_pair_in_order() {
    let mut fields = Vec::new();
    for name in ["a", "b", "c"] {
        let mut f = field(name, FieldType::Text, "");
        f.oneof_index = Some(0);
        fields.push(f);
    }
    fields.push(field("d", FieldType::Text, ""));
    let files = vec![FileDesc {
        package: "hexen.v1".to_string(),
        messages: vec![message("HexenProject", fields, 1)],
        comments: vec![],
    }];
    let schema = Schema::load(files).generate();
    let project = get(get(&schema, "definitions"), "HexenProject");
    // not the whole message: no minProperties
    assert!(!has(project, "minProperties"));
    let pairs: Vec<Json> = ["a", "b", "a", "c", "b", "c"]
        .chunks(2)
        .map(|p| Json::Object(vec![("required".to_string(), Json::Array(vec![text(p[0]), text(p[1])]))]))
        .collect();
    assert_eq!(
        get(project, "allOf"),
        &Json::Array(vec![Json::Object(vec![(
            "not".to_string(),
            Json::Object(vec![("anyOf".to_string(), Json::Array(pairs))])
        )])])
    );
}

#[test]
fn a_message_that_refers_to_itself_is_defined_once() {
    let mut children = field("children", FieldType::Message, ".hexen.v1.HexenProject");
    children.repeated = true;
    let files = vec![FileDesc {
        package: "hexen.v1".to_string(),
        messages: vec![message("HexenProject", vec![children], 0)],
        comments: vec![],
    }];
    let schema = Schema::load(files).generate();
    match get(&schema, "definitions") {
        Json::Object(e) => assert_eq!(e.len(), 1),
        other => panic!("{other:?}"),
    }
}

#[test]
fn a_group_field_is_not_nullable() {
    let f = field("g", FieldType::Group, ".pkg.Thing");
    assert_eq!(field_schema(&f), Json::Object(vec![("$ref".to_string(), text("#/definitions/Thing"))]));
    let bytes = field("b", FieldType::Bytes, "");
    assert_eq!(field_schema(&bytes), Json::Object(vec![("type".to_string(), text("string"))]));
    let mut e = field("e", FieldType::Enum, ".pkg.Kind");
    e.proto3_optional = true;
    assert_eq!(
        field_schema(&e),
        Json::Object(vec![(
            "anyOf".to_string(),
            Json::Array(vec![
                Json::Object(vec![("type".to_string(), text("string"))]),
                Json::Object(vec![("type".to_string(), text("null"))]),
            ])
        )])
    );
}

#[test]
fn files_without_the_project_message_or_a_named_one_are_refused() {
    assert!(schema_of_files(descriptors()).is_ok());
    let files = vec![FileDesc { package: "other".to_string(), messages: vec![], comments: vec![] }];
    assert!(schema_of_files(files).is_err());
    let dangling = vec![FileDesc {
        package: "hexen.v1".to_string(),
        messages: vec![message("HexenProject", vec![field("x", FieldType::Message, ".hexen.v1.Missing")], 0)],
        comments: vec![],
    }];
    assert!(schema_of_files(dangling).is_err());
}
