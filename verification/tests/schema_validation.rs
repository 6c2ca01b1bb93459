use taxstud_core::json::{JsonNumber, JsonValue};
use taxstud_core::schema_validation::{
    conformance_report, validate_against_schema, ConformanceOutcome,
};
use taxstud_core::strmap::StrMap;

fn text(s: &str) -> JsonValue {
    JsonValue::Text(s.to_string())
}

fn number(s: &str) -> JsonValue {
    JsonValue::Number(JsonNumber::parse(s).unwrap())
}

fn object(members: Vec<(&str, JsonValue)>) -> JsonValue {
    let mut m = StrMap::new();
    for (k, v) in members {
        m.insert(k.to_string(), v);
    }
    JsonValue::Object(m)
}

fn strings(items: &[&str]) -> JsonValue {
    JsonValue::Array(items.iter().map(|s| text(s)).collect())
}

fn person_schema() -> JsonValue {
    object(vec![
        ("$schema", text("http://json-schema.org/draft-07/schema#")),
        ("type", text("object")),
        (
            "properties",
            object(vec![
                ("name", object(vec![("type", text("string"))])),
                ("age", object(vec![("type", text("number"))])),
            ]),
        ),
        ("required", strings(&["name"])),
    ])
}

#[test]
fn test_valid_data_passes() {
    let schema = person_schema();
    let data = object(vec![("name", text("Alice")), ("age", number("30"))]);

    let result = validate_against_schema(&schema, &data);
    assert!(result.is_ok());
}

#[test]
fn test_invalid_data_fails() {
    let schema = person_schema();
    let data = object(vec![("age", number("30"))]);

    let result = validate_against_schema(&schema, &data);
    assert!(result.is_err());
    let errors = result.unwrap_err();
    assert!(!errors.is_empty());
}

#[test]
fn test_wrong_type_fails() {
    let schema = object(vec![
        ("$schema", text("http://json-schema.org/draft-07/schema#")),
        ("type", text("object")),
        ("properties", object(vec![("age", object(vec![("type", text("number"))]))])),
    ]);
    let data = object(vec![("age", text("not a number"))]);

    let result = validate_against_schema(&schema, &data);
    assert!(result.is_err());
}

#[test]
fn test_enum_validation() {
    let schema = object(vec![
        ("$schema", text("http://json-schema.org/draft-07/schema#")),
        ("type", text("object")),
        (
            "properties",
            object(vec![(
                "color",
                object(vec![("type", text("string")), ("enum", strings(&["red", "green", "blue"]))]),
            )]),
        ),
    ]);

    let valid_data = object(vec![("color", text("red"))]);
    assert!(validate_against_schema(&schema, &valid_data).is_ok());

    let invalid_data = object(vec![("color", text("yellow"))]);
    assert!(validate_against_schema(&schema, &invalid_data).is_err());
}

#[test]
fn test_array_validation() {
    let schema = object(vec![
        ("$schema", text("http://json-schema.org/draft-07/schema#")),
        ("type", text("object")),
        (
            "properties",
            object(vec![(
                "items",
                object(vec![
                    ("type", text("array")),
                    ("items", object(vec![("type", text("string"))])),
                    ("minItems", number("1")),
                ]),
            )]),
        ),
    ]);

    let valid_data = object(vec![("items", strings(&["a", "b", "c"]))]);
    assert!(validate_against_schema(&schema, &valid_data).is_ok());

    let invalid_data = object(vec![("items", JsonValue::Array(vec![]))]);
    assert!(validate_against_schema(&schema, &invalid_data).is_err());
}

#[test]
fn violation_at_the_document_is_located_at_root() {
    let errors = validate_against_schema(&person_schema(), &object(vec![])).unwrap_err();
    assert_eq!(errors.len(), 1);
    assert!(errors[0].ends_with(" at root"), "{}", errors[0]);
}

#[test]
fn violation_inside_the_document_carries_its_path() {
    let data = object(vec![("name", number("5"))]);
    let errors = validate_against_schema(&person_schema(), &data).unwrap_err();
    assert_eq!(errors.len(), 1);
    assert!(errors[0].ends_with(" at /name"), "{}", errors[0]);
}

#[test]
fn only_the_first_violation_is_reported() {
    let data = object(vec![("name", number("5")), ("age", text("old"))]);
    let errors = validate_against_schema(&person_schema(), &data).unwrap_err();
    assert_eq!(errors.len(), 1);
}

#[test]
fn malformed_schema_is_a_compile_error() {
    let schema = object(vec![("type", number("12"))]);
    let errors = validate_against_schema(&schema, &object(vec![])).unwrap_err();
    assert_eq!(errors.len(), 1);
    assert!(errors[0].starts_with("Schema compilation error: "), "{}", errors[0]);
}

#[test]
fn numbers_booleans_and_null_reach_the_engine_as_they_are() {
    let schema = object(vec![
        ("type", text("object")),
        (
            "properties",
            object(vec![
                ("n", object(vec![("type", text("integer")), ("minimum", number("3"))])),
                ("f", object(vec![("type", text("number")), ("maximum", number("2.5"))])),
                ("b", object(vec![("type", text("boolean"))])),
                ("z", object(vec![("type", text("null"))])),
            ]),
        ),
    ]);
    let good = object(vec![
        ("n", number("3")),
        ("f", number("-1.25e0")),
        ("b", JsonValue::Bool(false)),
        ("z", JsonValue::Null),
    ]);
    assert!(validate_against_schema(&schema, &good).is_ok());
    assert!(validate_against_schema(&schema, &object(vec![("n", number("2"))])).is_err());
    assert!(validate_against_schema(&schema, &object(vec![("f", number("2.75"))])).is_err());
    assert!(validate_against_schema(&schema, &object(vec![("b", JsonValue::Null)])).is_err());
    assert!(validate_against_schema(&schema, &object(vec![("z", text(""))])).is_err());
}

#[test]
fn report_of_each_outcome() {
    assert_eq!(conformance_report(ConformanceOutcome::Conforms), Ok(()));
    assert_eq!(
        conformance_report(ConformanceOutcome::Violation {
            path: "".to_string(),
            message: "\"name\" is a required property".to_string(),
        }),
        Err(vec!["\"name\" is a required property at root".to_string()])
    );
    assert_eq!(
        conformance_report(ConformanceOutcome::Violation {
            path: "/items/0".to_string(),
            message: "5 is not of type \"string\"".to_string(),
        }),
        Err(vec!["5 is not of type \"string\" at /items/0".to_string()])
    );
    assert_eq!(
        conformance_report(ConformanceOutcome::CompileError("bad schema".to_string())),
        Err(vec!["Schema compilation error: bad schema".to_string()])
    );
}
