use taxstud_core::document::{
    data_from_json, data_to_json, item_from_json, item_to_json, members_except, DataError,
    FieldError,
};
use taxstud_core::json::{JsonNumber, JsonValue};
use taxstud_core::loading::{accept_data, load_documents, schema_reference, LoadError};
use taxstud_core::models::{Item, TaxonomyData, TaxonomySchema};
use taxstud_core::schema_validation::ConformanceOutcome;
use taxstud_core::strmap::StrMap;

fn text(s: &str) -> JsonValue {
    JsonValue::Text(s.to_string())
}

fn number(s: &str) -> JsonValue {
    JsonValue::Number(JsonNumber::parse(s).unwrap())
}

fn map(members: Vec<(&str, JsonValue)>) -> StrMap<JsonValue> {
    let mut m = StrMap::new();
    for (k, v) in members {
        m.insert(k.to_string(), v);
    }
    m
}

fn object(members: Vec<(&str, JsonValue)>) -> JsonValue {
    JsonValue::Object(map(members))
}

fn strings(items: &[&str]) -> JsonValue {
    JsonValue::Array(items.iter().map(|s| text(s)).collect())
}

fn item_document() -> JsonValue {
    object(vec![
        ("rating", number("4.5")),
        ("name", text("Latte")),
        ("facets", object(vec![("temperature", text("hot")), ("tags", strings(&["a", "b"]))])),
        ("notes", object(vec![("origin", JsonValue::Null), ("list", JsonValue::Array(vec![JsonValue::Bool(true)]))])),
        ("classical_path", strings(&["Drink", "Coffee"])),
    ])
}

fn data_doc() -> JsonValue {
    object(vec![
        ("version", number("2")),
        ("schema", text("schema.json")),
        ("items", JsonValue::Array(vec![item_document()])),
        ("meta", object(vec![("by", text("me"))])),
    ])
}

fn schema_doc() -> JsonValue {
    object(vec![
        ("type", text("object")),
        ("required", strings(&["schema", "items"])),
        (
            "classical_hierarchy",
            object(vec![
                ("root", text("Drink")),
                (
                    "children",
                    JsonValue::Array(vec![object(vec![
                        ("genus", text("Drink")),
                        ("species", text("Coffee")),
                        ("differentia", text("from beans")),
                    ])]),
                ),
            ]),
        ),
        (
            "faceted_dimensions",
            object(vec![("temperature", strings(&["hot", "iced"])), ("tags", strings(&["a", "b", "c"]))]),
        ),
    ])
}

fn schema() -> TaxonomySchema {
    taxstud_core::schema::build_schema_from_json(schema_doc()).unwrap()
}

#[test]
fn item_is_read_with_its_extra_fields_in_order() {
    let item = item_from_json(&item_document()).unwrap();
    assert_eq!(item.name, "Latte");
    assert_eq!(item.classical_path, vec!["Drink", "Coffee"]);
    assert_eq!(item.facets, map(vec![("temperature", text("hot")), ("tags", strings(&["a", "b"]))]));
    assert_eq!(item.extra.len(), 2);
    assert_eq!(item.extra.key_at(0), "rating");
    assert_eq!(item.extra.get("rating"), Some(&number("4.5")));
    assert_eq!(item.extra.key_at(1), "notes");
}

#[test]
fn item_faults_name_the_first_field_that_is_wrong() {
    assert_eq!(item_from_json(&text("x")), Err(FieldError::NotAnObject));
    assert_eq!(item_from_json(&object(vec![])), Err(FieldError::MissingField("name".to_string())));
    assert_eq!(
        item_from_json(&object(vec![("name", number("1")), ("facets", text("x"))])),
        Err(FieldError::WrongType("name".to_string()))
    );
    assert_eq!(
        item_from_json(&object(vec![("name", text("n")), ("facets", text("x"))])),
        Err(FieldError::MissingField("classical_path".to_string()))
    );
    assert_eq!(
        item_from_json(&object(vec![("name", text("n")), ("classical_path", text("Drink"))])),
        Err(FieldError::WrongType("classical_path".to_string()))
    );
    assert_eq!(
        item_from_json(&object(vec![
            ("name", text("n")),
            ("classical_path", JsonValue::Array(vec![text("a"), number("1")]))
        ])),
        Err(FieldError::WrongType("classical_path".to_string()))
    );
    assert_eq!(
        item_from_json(&object(vec![("name", text("n")), ("classical_path", strings(&[]))])),
        Err(FieldError::MissingField("facets".to_string()))
    );
    assert_eq!(
        item_from_json(&object(vec![
            ("name", text("n")),
            ("classical_path", strings(&[])),
            ("facets", strings(&[]))
        ])),
        Err(FieldError::WrongType("facets".to_string()))
    );
}

#[test]
fn item_is_written_with_known_fields_first() {
    let item = item_from_json(&item_document()).unwrap();
    let written = item_to_json(&item);
    assert_eq!(
        written,
        object(vec![
            ("name", text("Latte")),
            ("classical_path", strings(&["Drink", "Coffee"])),
            ("facets", object(vec![("temperature", text("hot")), ("tags", strings(&["a", "b"]))])),
            ("rating", number("4.5")),
            ("notes", object(vec![("origin", JsonValue::Null), ("list", JsonValue::Array(vec![JsonValue::Bool(true)]))])),
        ])
    );
}

#[test]
fn data_round_trip_keeps_every_field() {
    let data = data_from_json(&data_doc()).unwrap();
    assert_eq!(data.schema, "schema.json");
    assert_eq!(data.items.len(), 1);
    assert_eq!(data.extra, map(vec![("version", number("2")), ("meta", object(vec![("by", text("me"))]))]));
    let again = data_from_json(&data_to_json(&data)).unwrap();
    assert_eq!(again, data);
    let empty = TaxonomyData { schema: "s".to_string(), items: vec![], extra: StrMap::new() };
    assert_eq!(data_to_json(&empty), object(vec![("schema", text("s")), ("items", JsonValue::Array(vec![]))]));
    assert_eq!(data_from_json(&data_to_json(&empty)).unwrap(), empty);
}

#[test]
fn extra_fields_named_like_known_fields_are_not_written() {
    let item = Item {
        name: "n".to_string(),
        classical_path: vec![],
        facets: StrMap::new(),
        extra: map(vec![("name", text("shadow")), ("kept", JsonValue::Null)]),
    };
    assert_eq!(
        item_to_json(&item),
        object(vec![
            ("name", text("n")),
            ("classical_path", strings(&[])),
            ("facets", object(vec![])),
            ("kept", JsonValue::Null),
        ])
    );
    let reserved = vec!["a".to_string()];
    assert_eq!(
        members_except(&map(vec![("a", text("1")), ("b", text("2")), ("c", text("3"))]), &reserved),
        map(vec![("b", text("2")), ("c", text("3"))])
    );
}

#[test]
fn data_faults() {
    assert_eq!(data_from_json(&JsonValue::Null), Err(DataError::Document(FieldError::NotAnObject)));
    assert_eq!(
        data_from_json(&object(vec![("items", strings(&[]))])),
        Err(DataError::Document(FieldError::MissingField("schema".to_string())))
    );
    assert_eq!(
        data_from_json(&object(vec![("schema", JsonValue::Bool(true))])),
        Err(DataError::Document(FieldError::WrongType("schema".to_string())))
    );
    assert_eq!(
        data_from_json(&object(vec![("schema", text("s"))])),
        Err(DataError::Document(FieldError::MissingField("items".to_string())))
    );
    assert_eq!(
        data_from_json(&object(vec![("schema", text("s")), ("items", object(vec![]))])),
        Err(DataError::Document(FieldError::WrongType("items".to_string())))
    );
    assert_eq!(
        data_from_json(&object(vec![
            ("schema", text("s")),
            ("items", JsonValue::Array(vec![item_document(), object(vec![("name", text("x"))]), text("bad")]))
        ])),
        Err(DataError::Item(1, FieldError::MissingField("classical_path".to_string())))
    );
}

#[test]
fn schema_reference_is_the_string_member() {
    assert_eq!(schema_reference(&data_doc()), Some("schema.json".to_string()));
    assert_eq!(schema_reference(&object(vec![("schema", number("1"))])), None);
    assert_eq!(schema_reference(&object(vec![])), None);
    assert_eq!(schema_reference(&strings(&["schema"])), None);
}

#[test]
fn data_are_accepted_only_when_every_stage_passes() {
    let s = schema();
    let data = accept_data(&s, &data_doc(), ConformanceOutcome::Conforms).unwrap();
    assert_eq!(data, data_from_json(&data_doc()).unwrap());

    assert_eq!(
        accept_data(
            &s,
            &data_doc(),
            ConformanceOutcome::Violation { path: "/items".to_string(), message: "m".to_string() }
        ),
        Err(LoadError::Conformance(vec!["m at /items".to_string()]))
    );
    assert_eq!(
        accept_data(&s, &data_doc(), ConformanceOutcome::CompileError("e".to_string())),
        Err(LoadError::Conformance(vec!["Schema compilation error: e".to_string()]))
    );
    assert_eq!(
        accept_data(&s, &object(vec![("schema", text("s"))]), ConformanceOutcome::Conforms),
        Err(LoadError::Data(DataError::Document(FieldError::MissingField("items".to_string()))))
    );
    let bad = object(vec![
        ("schema", text("schema.json")),
        (
            "items",
            JsonValue::Array(vec![object(vec![
                ("name", text("Lost")),
                ("classical_path", strings(&["Drink", "Tea"])),
                ("facets", object(vec![("temperature", text("warm"))])),
            ])]),
        ),
    ]);
    assert_eq!(
        accept_data(&s, &bad, ConformanceOutcome::Conforms),
        Err(LoadError::Domain(vec![
            "Item #1 ('Lost'): invalid classical_path - 'Tea' is not a valid child of 'Drink'".to_string(),
            "Item #1 ('Lost'): facet 'temperature' has invalid value 'warm' (not in allowed values)".to_string(),
        ]))
    );
}

#[test]
fn documents_are_loaded_through_the_schema_engine() {
    let (data, s) = load_documents(schema_doc(), &data_doc()).unwrap();
    assert_eq!(data.items[0].name, "Latte");
    assert_eq!(s.classical_hierarchy.root, "Drink");
    assert_eq!(s.classical_hierarchy.children.as_ref().unwrap()[0].species, "Coffee");
    assert_eq!(s.json_schema, Some(schema_doc()));

    match load_documents(schema_doc(), &object(vec![("schema", text("s"))])) {
        Err(LoadError::Conformance(messages)) => {
            assert_eq!(messages.len(), 1);
            assert!(messages[0].ends_with(" at root"));
        }
        other => panic!("unexpected: {:?}", other),
    }
    assert!(matches!(load_documents(object(vec![]), &data_doc()), Err(LoadError::Schema(_))));
}
