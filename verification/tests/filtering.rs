use taxstud_core::filtering::{
    any_shared, apply_filters, has_filters, matches_filters, parse_facet_filters,
};
use taxstud_core::json::{JsonNumber, JsonValue};
use taxstud_core::models::{Filters, Item};
use taxstud_core::strmap::StrMap;

fn text(s: &str) -> JsonValue {
    JsonValue::Text(s.to_string())
}

fn texts(items: &[&str]) -> JsonValue {
    JsonValue::Array(items.iter().map(|s| text(s)).collect())
}

fn item(name: &str, path: &[&str], facets: Vec<(&str, JsonValue)>) -> Item {
    let mut f = StrMap::new();
    for (k, v) in facets {
        f.insert(k.to_string(), v);
    }
    Item {
        name: name.to_string(),
        classical_path: path.iter().map(|s| s.to_string()).collect(),
        facets: f,
        extra: StrMap::new(),
    }
}

fn filters(genera: &[&str], facets: &[(&str, &[&str])]) -> Filters {
    let mut f = StrMap::new();
    for (k, vs) in facets {
        f.insert(k.to_string(), vs.iter().map(|s| s.to_string()).collect());
    }
    Filters { genera: genera.iter().map(|s| s.to_string()).collect(), facets: f }
}

fn names(items: &[Item]) -> Vec<String> {
    items.iter().map(|i| i.name.clone()).collect()
}

fn catalog() -> Vec<Item> {
    vec![
        item("Latte", &["Drink", "Coffee"], vec![("temperature", text("hot")), ("color", texts(&["b", "c"]))]),
        item("Iced Tea", &["Drink", "Tea"], vec![("temperature", text("iced"))]),
        item("Water", &["Drink"], vec![]),
        item("Mocha", &["Drink", "Coffee"], vec![("temperature", texts(&["hot", "iced"]))]),
    ]
}

#[test]
fn empty_filters_keep_every_item_in_order() {
    let items = catalog();
    let out = apply_filters(&items, &filters(&[], &[]));
    assert_eq!(names(&out), names(&items));
    assert_eq!(out[0].facets.get("color"), items[0].facets.get("color"));
    assert_eq!(out[3].classical_path, items[3].classical_path);
    assert!(apply_filters(&[], &filters(&["x"], &[])).is_empty());
}

#[test]
fn single_genus_matches_exactly_the_paths_that_hold_it() {
    let f = filters(&["Coffee"], &[]);
    assert!(matches_filters(&item("a", &["Drink", "Coffee"], vec![]), &f));
    assert!(matches_filters(&item("a", &["Coffee"], vec![]), &f));
    assert!(!matches_filters(&item("a", &["Drink", "coffee"], vec![]), &f));
    assert!(!matches_filters(&item("a", &["Drink", "Coffee Bean"], vec![]), &f));
    assert!(!matches_filters(&item("a", &[], vec![]), &f));
}

#[test]
fn genera_are_alternatives() {
    let f = filters(&["Tea", "Coffee"], &[]);
    assert_eq!(names(&apply_filters(&catalog(), &f)), vec!["Latte", "Iced Tea", "Mocha"]);
}

#[test]
fn facet_values_are_alternatives_and_a_missing_facet_never_matches() {
    let f = filters(&[], &[("color", &["a", "b"])]);
    assert!(matches_filters(&item("x", &[], vec![("color", texts(&["b", "c"]))]), &f));
    assert!(!matches_filters(&item("x", &[], vec![("color", texts(&["c", "d"]))]), &f));
    assert!(!matches_filters(&item("x", &[], vec![("size", text("a"))]), &f));
    assert!(!matches_filters(&item("x", &[], vec![]), &f));
    assert!(matches_filters(&item("x", &[], vec![("color", text("a"))]), &f));
}

#[test]
fn non_string_elements_of_an_array_do_not_count() {
    let f = filters(&[], &[("n", &["1"])]);
    let only_numbers = item("x", &[], vec![("n", JsonValue::Array(vec![JsonValue::Number(JsonNumber::parse("1").unwrap())]))]);
    assert!(!matches_filters(&only_numbers, &f));
    let mixed = item(
        "x",
        &[],
        vec![("n", JsonValue::Array(vec![JsonValue::Number(JsonNumber::parse("1").unwrap()), text("1")]))],
    );
    assert!(matches_filters(&mixed, &f));
    assert!(!matches_filters(&item("x", &[], vec![("n", JsonValue::Bool(true))]), &f));
    assert!(!matches_filters(&item("x", &[], vec![("n", JsonValue::Array(vec![]))]), &f));
}

#[test]
fn facet_clauses_and_genus_clause_must_all_hold() {
    let f = filters(&["Coffee"], &[("temperature", &["iced"])]);
    assert_eq!(names(&apply_filters(&catalog(), &f)), vec!["Mocha"]);
    let f = filters(&[], &[("temperature", &["hot"]), ("color", &["c"])]);
    assert_eq!(names(&apply_filters(&catalog(), &f)), vec!["Latte"]);
    let f = filters(&[], &[("temperature", &[])]);
    assert!(apply_filters(&catalog(), &f).is_empty());
}

#[test]
fn apply_filters_leaves_the_source_alone() {
    let items = catalog();
    let before = names(&items);
    let _ = apply_filters(&items, &filters(&["Tea"], &[]));
    assert_eq!(names(&items), before);
}

#[test]
fn has_filters_tells_whether_anything_is_asked() {
    assert!(!has_filters(&filters(&[], &[])));
    assert!(has_filters(&filters(&["x"], &[])));
    assert!(has_filters(&filters(&[], &[("a", &[])])));
}

#[test]
fn shared_strings() {
    let a = vec!["x".to_string(), "y".to_string()];
    let b = vec!["z".to_string(), "y".to_string()];
    assert!(any_shared(&a, &b));
    assert!(!any_shared(&a, &vec!["z".to_string()]));
    assert!(!any_shared(&vec![], &b));
}

#[test]
fn filter_arguments_are_gathered_by_facet_name() {
    let args: Vec<String> = [
        "temperature=hot",
        "novalue",
        " color = red ",
        "temperature= iced",
        "a=b=c",
        "=",
        "color=red",
    ]
    .iter()
    .map(|s| s.to_string())
    .collect();
    let m = parse_facet_filters(&args);
    assert_eq!(m.len(), 4);
    assert_eq!(m.key_at(0), "temperature");
    assert_eq!(m.key_at(1), "color");
    assert_eq!(m.key_at(2), "a");
    assert_eq!(m.key_at(3), "");
    assert_eq!(m.get("temperature").unwrap(), &vec!["hot".to_string(), "iced".to_string()]);
    assert_eq!(m.get("color").unwrap(), &vec!["red".to_string(), "red".to_string()]);
    assert_eq!(m.get("a").unwrap(), &vec!["b=c".to_string()]);
    assert_eq!(m.get("").unwrap(), &vec!["".to_string()]);
    assert!(parse_facet_filters(&[]).is_empty());
}
