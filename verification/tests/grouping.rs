use taxstud_core::grouping::{get_sorted_group_names, group_items_by_facet};
use taxstud_core::json::{JsonNumber, JsonValue};
use taxstud_core::models::Item;
use taxstud_core::strmap::StrMap;

fn text(s: &str) -> JsonValue {
    JsonValue::Text(s.to_string())
}

fn item(name: &str, facets: Vec<(&str, JsonValue)>) -> Item {
    let mut f = StrMap::new();
    for (k, v) in facets {
        f.insert(k.to_string(), v);
    }
    Item { name: name.to_string(), classical_path: vec![], facets: f, extra: StrMap::new() }
}

fn names(items: &[Item]) -> Vec<String> {
    items.iter().map(|i| i.name.clone()).collect()
}

fn catalog() -> Vec<Item> {
    vec![
        item("Flag", vec![("color", JsonValue::Array(vec![text("red"), text("blue")]))]),
        item("Ghost", vec![("size", text("big"))]),
        item("Rose", vec![("color", text("red"))]),
        item("Void", vec![("color", JsonValue::Array(vec![]))]),
        item("Odd", vec![("color", JsonValue::Number(JsonNumber::parse("1").unwrap()))]),
    ]
}

#[test]
fn item_with_several_values_stands_in_several_groups() {
    let groups = group_items_by_facet(&catalog(), "color");
    assert_eq!(names(groups.get("red").unwrap()), vec!["Flag", "Rose"]);
    assert_eq!(names(groups.get("blue").unwrap()), vec!["Flag"]);
}

#[test]
fn item_without_the_facet_stands_only_in_the_unspecified_group() {
    let groups = group_items_by_facet(&catalog(), "color");
    assert_eq!(names(groups.get("_unspecified_").unwrap()), vec!["Ghost", "Void", "Odd"]);
    for i in 0..groups.len() {
        if groups.key_at(i) != "_unspecified_" {
            assert!(!names(groups.value_at(i)).contains(&"Ghost".to_string()));
        }
    }
    assert_eq!(groups.len(), 3);
}

#[test]
fn groups_stand_in_order_of_first_use() {
    let groups = group_items_by_facet(&catalog(), "color");
    assert_eq!(groups.key_at(0), "red");
    assert_eq!(groups.key_at(1), "blue");
    assert_eq!(groups.key_at(2), "_unspecified_");
    assert!(group_items_by_facet(&[], "color").is_empty());
}

#[test]
fn repeated_value_puts_the_item_twice_into_the_group() {
    let items = vec![item("Twice", vec![("k", JsonValue::Array(vec![text("a"), text("a")]))])];
    let groups = group_items_by_facet(&items, "k");
    assert_eq!(names(groups.get("a").unwrap()), vec!["Twice", "Twice"]);
}

#[test]
fn group_names_come_in_the_order_of_strings() {
    let groups = group_items_by_facet(&catalog(), "color");
    assert_eq!(get_sorted_group_names(&groups), vec!["_unspecified_", "blue", "red"]);
    let mut m: StrMap<Vec<Item>> = StrMap::new();
    for k in ["b", "B", "a", "", "ab", "\u{e9}", "z"] {
        m.insert(k.to_string(), vec![]);
    }
    assert_eq!(get_sorted_group_names(&m), vec!["", "B", "a", "ab", "b", "z", "\u{e9}"]);
    assert!(get_sorted_group_names(&StrMap::new()).is_empty());
}
