use taxstud_core::formatting::{flatten_hierarchy, format_facet_dimensions, format_facets};
use taxstud_core::json::{JsonNumber, JsonValue};
use taxstud_core::models::{ClassicalHierarchy, HierarchyNode};
use taxstud_core::strmap::StrMap;

fn node(species: &str, differentia: &str, children: Option<Vec<HierarchyNode>>) -> HierarchyNode {
    HierarchyNode {
        genus: "g".to_string(),
        species: species.to_string(),
        differentia: differentia.to_string(),
        children,
    }
}

#[test]
fn dimensions_are_listed_in_the_order_of_strings() {
    let mut d: StrMap<Vec<String>> = StrMap::new();
    d.insert("size".to_string(), vec!["s".to_string(), "m".to_string()]);
    d.insert("color".to_string(), vec!["red".to_string()]);
    d.insert("Shape".to_string(), vec![]);
    assert_eq!(format_facet_dimensions(&d), "Shape:  \u{2022} color: red \u{2022} size: s, m");
    assert_eq!(format_facet_dimensions(&StrMap::new()), "");
    let mut one: StrMap<Vec<String>> = StrMap::new();
    one.insert("k".to_string(), vec!["v".to_string()]);
    assert_eq!(format_facet_dimensions(&one), "k: v");
}

#[test]
fn hierarchy_is_flattened_in_pre_order_with_levels() {
    let h = ClassicalHierarchy {
        root: "Drink".to_string(),
        children: Some(vec![
            node(
                "Coffee",
                "from beans",
                Some(vec![node("Espresso", "", Some(vec![node("Ristretto", "short", None)])), node("Filter", "slow", None)]),
            ),
            node("Tea", "from leaves", Some(vec![])),
        ]),
    };
    let lines: Vec<(String, i32)> =
        flatten_hierarchy(&h).into_iter().map(|n| (n.label, n.indent_level)).collect();
    assert_eq!(
        lines,
        vec![
            ("Coffee (from beans)".to_string(), 0),
            ("Espresso".to_string(), 1),
            ("Ristretto (short)".to_string(), 2),
            ("Filter (slow)".to_string(), 1),
            ("Tea (from leaves)".to_string(), 0),
        ]
    );
    let empty = ClassicalHierarchy { root: "R".to_string(), children: None };
    assert!(flatten_hierarchy(&empty).is_empty());
}

#[test]
fn facets_are_listed_one_to_a_line_in_the_order_of_strings() {
    let mut f: StrMap<JsonValue> = StrMap::new();
    f.insert("size".to_string(), JsonValue::Text("big".to_string()));
    f.insert(
        "color".to_string(),
        JsonValue::Array(vec![
            JsonValue::Text("red".to_string()),
            JsonValue::Bool(true),
            JsonValue::Text("blue".to_string()),
        ]),
    );
    f.insert("count".to_string(), JsonValue::Number(JsonNumber::parse("3").unwrap()));
    f.insert("none".to_string(), JsonValue::Array(vec![]));
    let mut inner = StrMap::new();
    inner.insert("b".to_string(), JsonValue::Null);
    inner.insert("a".to_string(), JsonValue::Text("x\"y".to_string()));
    f.insert("meta".to_string(), JsonValue::Object(inner));
    assert_eq!(
        format_facets(&f),
        "\u{2022} color: red, blue\n\u{2022} count: 3\n\u{2022} meta: {\"a\":\"x\\\"y\",\"b\":null}\n\u{2022} none: \n\u{2022} size: big"
    );
    assert_eq!(format_facets(&StrMap::new()), "");
}
