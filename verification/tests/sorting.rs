use taxstud_core::json::JsonValue;
use taxstud_core::models::Item;
use taxstud_core::sorting::{normalize_for_sorting, sort_items, strip_leading_articles};
use taxstud_core::strmap::StrMap;

fn named(name: &str) -> Item {
    Item {
        name: name.to_string(),
        classical_path: vec!["Root".to_string()],
        facets: StrMap::new(),
        extra: StrMap::new(),
    }
}

fn with_facet(name: &str, facet: &str, value: &str) -> Item {
    let mut item = named(name);
    item.facets.insert(facet.to_string(), JsonValue::Text(value.to_string()));
    item
}

fn names(items: &[Item]) -> Vec<String> {
    items.iter().map(|i| i.name.clone()).collect()
}

#[test]
fn sort_by_name_ignores_leading_articles() {
    let mut items = vec![named("The Zebra"), named("An Ant"), named("Bear")];
    sort_items(&mut items, "name");
    assert_eq!(names(&items), vec!["An Ant", "Bear", "The Zebra"]);
}

#[test]
fn strip_leading_articles_removes_one_article() {
    assert_eq!(strip_leading_articles("The Zebra"), "Zebra");
    assert_eq!(strip_leading_articles("the the Zebra"), "the Zebra");
    assert_eq!(strip_leading_articles("LES   Miserables"), "Miserables");
    assert_eq!(strip_leading_articles("Theatre"), "Theatre");
    assert_eq!(strip_leading_articles("Bear"), "Bear");
}

#[test]
fn normalize_decomposes_lowers_and_collapses() {
    assert_eq!(normalize_for_sorting("  An   Ant  "), "an ant");
    assert_eq!(normalize_for_sorting("A  Big\tCat"), "big cat");
    assert_eq!(normalize_for_sorting("\u{00C9}cole"), "e\u{0301}cole");
    assert_eq!(normalize_for_sorting(""), "");
}

#[test]
fn sort_by_name_breaks_ties_by_raw_name() {
    let mut items = vec![named("the apple"), named("Apple"), named("apple")];
    sort_items(&mut items, "name");
    assert_eq!(names(&items), vec!["Apple", "apple", "the apple"]);
}

#[test]
fn sort_by_facet_puts_missing_facet_first_and_ties_by_name() {
    let mut items = vec![
        with_facet("Zed", "color", "red"),
        with_facet("Amy", "color", "red"),
        named("Mid"),
        with_facet("Bob", "color", "blue"),
    ];
    sort_items(&mut items, "color");
    assert_eq!(names(&items), vec!["Mid", "Bob", "Amy", "Zed"]);
}

#[test]
fn sort_keeps_order_of_equal_items() {
    let mut items = vec![with_facet("Same", "k", "1"), with_facet("Same", "k", "2")];
    sort_items(&mut items, "name");
    assert_eq!(
        items[0].facets.get("k").and_then(|v| v.as_str()).map(|s| s.to_string()),
        Some("1".to_string())
    );
}
