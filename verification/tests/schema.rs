use taxstud_core::json::{JsonNumber, JsonValue};
use taxstud_core::schema::{
    build_schema_from_json, extract_classical_hierarchy, extract_faceted_dimensions, SchemaError,
};
use taxstud_core::strmap::StrMap;

fn text(s: &str) -> JsonValue {
    JsonValue::Text(s.to_string())
}

fn object(members: Vec<(&str, JsonValue)>) -> JsonValue {
    let mut m = StrMap::new();
    for (k, v) in members {
        m.insert(k.to_string(), v);
    }
    JsonValue::Object(m)
}

fn array(items: Vec<JsonValue>) -> JsonValue {
    JsonValue::Array(items)
}

fn strings(items: &[&str]) -> JsonValue {
    JsonValue::Array(items.iter().map(|s| text(s)).collect())
}

#[test]
fn test_extract_classical_hierarchy() {
    let schema = object(vec![(
        "classical_hierarchy",
        object(vec![
            ("root", text("TestRoot")),
            (
                "children",
                array(vec![object(vec![
                    ("genus", text("TestRoot")),
                    ("species", text("TestSpecies")),
                    ("differentia", text("test differentia")),
                ])]),
            ),
        ]),
    )]);

    let hierarchy = extract_classical_hierarchy(&schema).unwrap();
    assert_eq!(hierarchy.root, "TestRoot");
    assert!(hierarchy.children.is_some());
    assert_eq!(hierarchy.children.as_ref().unwrap().len(), 1);
}

#[test]
fn test_extract_faceted_dimensions() {
    let schema = object(vec![(
        "faceted_dimensions",
        object(vec![
            ("color", strings(&["red", "green", "blue"])),
            ("size", strings(&["small", "medium", "large"])),
        ]),
    )]);

    let dimensions = extract_faceted_dimensions(&schema).unwrap();
    assert_eq!(dimensions.len(), 2);
    assert_eq!(dimensions.get("color").unwrap().len(), 3);
    assert_eq!(dimensions.get("size").unwrap().len(), 3);
}

#[test]
fn test_build_schema_from_json() {
    let json_schema = object(vec![
        ("$id", text("test-schema")),
        ("title", text("Test Schema")),
        ("description", text("A test schema")),
        ("classical_hierarchy", object(vec![("root", text("TestRoot"))])),
        ("faceted_dimensions", object(vec![("color", strings(&["red", "blue"]))])),
    ]);

    let schema = build_schema_from_json(json_schema).unwrap();
    assert_eq!(schema.schema_id, "test-schema");
    assert_eq!(schema.title, "Test Schema");
    assert_eq!(schema.description, Some("A test schema".to_string()));
    assert_eq!(schema.classical_hierarchy.root, "TestRoot");
    assert_eq!(schema.faceted_dimensions.len(), 1);
}

#[test]
fn test_missing_classical_hierarchy() {
    let schema = object(vec![("faceted_dimensions", object(vec![]))]);

    let result = extract_classical_hierarchy(&schema);
    assert!(result.is_err());
}

#[test]
fn test_missing_faceted_dimensions() {
    let schema = object(vec![("classical_hierarchy", object(vec![("root", text("Test"))]))]);

    let result = extract_faceted_dimensions(&schema);
    assert!(result.is_err());
}

#[test]
fn missing_members_are_named_in_the_error() {
    let empty = object(vec![]);
    match extract_classical_hierarchy(&empty) {
        Err(SchemaError::MissingField(name)) => assert_eq!(name, "classical_hierarchy"),
        other => panic!("unexpected: {:?}", other),
    }
    match extract_faceted_dimensions(&empty) {
        Err(e @ SchemaError::MissingField(_)) => {
            assert_eq!(e.message(), "JSON Schema missing 'faceted_dimensions' property")
        }
        other => panic!("unexpected: {:?}", other),
    }
    assert!(matches!(
        extract_classical_hierarchy(&text("not an object")),
        Err(SchemaError::MissingField(_))
    ));
}

#[test]
fn hierarchy_of_wrong_shape_is_malformed() {
    let no_root = object(vec![("classical_hierarchy", object(vec![("children", array(vec![]))]))]);
    assert!(matches!(extract_classical_hierarchy(&no_root), Err(SchemaError::MalformedHierarchy)));

    let root_not_string =
        object(vec![("classical_hierarchy", object(vec![("root", JsonValue::Bool(true))]))]);
    assert!(matches!(
        extract_classical_hierarchy(&root_not_string),
        Err(SchemaError::MalformedHierarchy)
    ));

    let children_not_array = object(vec![(
        "classical_hierarchy",
        object(vec![("root", text("R")), ("children", text("x"))]),
    )]);
    assert!(matches!(
        extract_classical_hierarchy(&children_not_array),
        Err(SchemaError::MalformedHierarchy)
    ));

    let node_lacks_field = object(vec![(
        "classical_hierarchy",
        object(vec![
            ("root", text("R")),
            ("children", array(vec![object(vec![("genus", text("R")), ("species", text("S"))])])),
        ]),
    )]);
    let e = extract_classical_hierarchy(&node_lacks_field).unwrap_err();
    assert_eq!(e.message(), "Failed to parse classical_hierarchy");

    let not_object = object(vec![("classical_hierarchy", strings(&["R"]))]);
    assert!(matches!(
        extract_classical_hierarchy(&not_object),
        Err(SchemaError::MalformedHierarchy)
    ));
}

#[test]
fn hierarchy_reads_nested_children_and_null_children() {
    let schema = object(vec![(
        "classical_hierarchy",
        object(vec![
            ("root", text("Drink")),
            ("note", text("ignored")),
            (
                "children",
                array(vec![
                    object(vec![
                        ("genus", text("Drink")),
                        ("species", text("Coffee")),
                        ("differentia", text("brewed from beans")),
                        (
                            "children",
                            array(vec![object(vec![
                                ("genus", text("Coffee")),
                                ("species", text("Espresso")),
                                ("differentia", text("under pressure")),
                                ("children", JsonValue::Null),
                            ])]),
                        ),
                    ]),
                    object(vec![
                        ("genus", text("Drink")),
                        ("species", text("Tea")),
                        ("differentia", text("steeped leaves")),
                    ]),
                ]),
            ),
        ]),
    )]);
    let h = extract_classical_hierarchy(&schema).unwrap();
    let top = h.children.unwrap();
    assert_eq!(top.len(), 2);
    assert_eq!(top[0].species, "Coffee");
    let below = top[0].children.as_ref().unwrap();
    assert_eq!(below[0].species, "Espresso");
    assert_eq!(below[0].genus, "Coffee");
    assert_eq!(below[0].differentia, "under pressure");
    assert!(below[0].children.is_none());
    assert!(top[1].children.is_none());
}

#[test]
fn dimensions_of_wrong_shape_are_malformed() {
    let not_object = object(vec![("faceted_dimensions", strings(&["a"]))]);
    assert!(matches!(
        extract_faceted_dimensions(&not_object),
        Err(SchemaError::MalformedDimensions)
    ));
    let value_not_array = object(vec![("faceted_dimensions", object(vec![("color", text("red"))]))]);
    assert!(matches!(
        extract_faceted_dimensions(&value_not_array),
        Err(SchemaError::MalformedDimensions)
    ));
    let element_not_string = object(vec![(
        "faceted_dimensions",
        object(vec![("color", array(vec![text("red"), JsonValue::Number(JsonNumber::parse("3").unwrap())]))]),
    )]);
    let e = extract_faceted_dimensions(&element_not_string).unwrap_err();
    assert_eq!(e.message(), "Failed to parse faceted_dimensions");
}

#[test]
fn dimensions_keep_document_order_and_values() {
    let schema = object(vec![(
        "faceted_dimensions",
        object(vec![("size", strings(&["s", "m"])), ("color", strings(&[]))]),
    )]);
    let d = extract_faceted_dimensions(&schema).unwrap();
    assert_eq!(d.key_at(0), "size");
    assert_eq!(d.key_at(1), "color");
    assert_eq!(d.get("size").unwrap(), &vec!["s".to_string(), "m".to_string()]);
    assert!(d.get("color").unwrap().is_empty());
    assert!(d.get("shape").is_none());
}

#[test]
fn schema_defaults_apply_where_metadata_is_missing_or_not_text() {
    let doc = object(vec![
        ("$id", JsonValue::Number(JsonNumber::parse("7").unwrap())),
        ("classical_hierarchy", object(vec![("root", text("R"))])),
        ("faceted_dimensions", object(vec![])),
    ]);
    let schema = build_schema_from_json(doc).unwrap();
    assert_eq!(schema.schema_id, "unknown");
    assert_eq!(schema.title, "Untitled Taxonomy");
    assert_eq!(schema.description, None);
    let kept = schema.json_schema.unwrap();
    assert!(kept.get("classical_hierarchy").is_some());
    assert!(kept.get("$id").is_some());
}

#[test]
fn build_schema_reports_the_hierarchy_error_first() {
    let both_missing = object(vec![]);
    match build_schema_from_json(both_missing) {
        Err(SchemaError::MissingField(name)) => assert_eq!(name, "classical_hierarchy"),
        other => panic!("unexpected: {:?}", other),
    }
    let dims_bad = object(vec![
        ("classical_hierarchy", object(vec![("root", text("R"))])),
        ("faceted_dimensions", text("x")),
    ]);
    assert!(matches!(build_schema_from_json(dims_bad), Err(SchemaError::MalformedDimensions)));
    let dims_missing = object(vec![("classical_hierarchy", object(vec![("root", text("R"))]))]);
    match build_schema_from_json(dims_missing) {
        Err(SchemaError::MissingField(name)) => assert_eq!(name, "faceted_dimensions"),
        other => panic!("unexpected: {:?}", other),
    }
}
