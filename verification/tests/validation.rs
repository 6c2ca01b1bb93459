use taxstud_core::json::{JsonNumber, JsonValue};
use taxstud_core::models::{
    ClassicalHierarchy, HierarchyNode, HybridTaxonomy, Item, TaxonomyData, TaxonomySchema,
};
use taxstud_core::strmap::StrMap;
use taxstud_core::StringHashMap;
use taxstud_core::validation::{
    build_valid_paths, check_path_steps, contains_string, has_name_twin, item_label, twin_flags,
    validate,
    validate_classical_path, validate_dimensions, validate_facet, validate_hierarchy,
    validate_hierarchy_nodes, validate_item, validate_items, validate_items_in, validate_taxonomy,
};

fn node(genus: &str, species: &str, differentia: &str, children: Option<Vec<HierarchyNode>>) -> HierarchyNode {
    HierarchyNode {
        genus: genus.to_string(),
        species: species.to_string(),
        differentia: differentia.to_string(),
        children,
    }
}

fn drinks() -> ClassicalHierarchy {
    ClassicalHierarchy {
        root: "Drink".to_string(),
        children: Some(vec![
            node(
                "Drink",
                "Coffee",
                "brewed from beans",
                Some(vec![
                    node("Coffee", "Espresso", "under pressure", None),
                    node("Coffee", "Filter", "by gravity", Some(vec![])),
                ]),
            ),
            node("Drink", "Tea", "steeped leaves", None),
        ]),
    }
}

fn dims(entries: &[(&str, &[&str])]) -> StrMap<Vec<String>> {
    let mut m = StrMap::new();
    for (k, vs) in entries {
        m.insert(k.to_string(), vs.iter().map(|s| s.to_string()).collect());
    }
    m
}

fn drink_dims() -> StrMap<Vec<String>> {
    dims(&[("temperature", &["hot", "iced"]), ("caffeine", &["high", "low", "none"])])
}

fn text(s: &str) -> JsonValue {
    JsonValue::Text(s.to_string())
}

fn item(name: &str, path: &[&str], facets: Vec<(&str, JsonValue)>) -> Item {
    let mut f = StrMap::new();
    for (k, v) in facets {
        f.insert(k.to_string(), v);
    }
    Item {
        name: name.to_string(),
        classical_path: path.iter().map(|s| s.to_string()).collect(),
        facets: f,
        extra: StrMap::new(),
    }
}

fn taxonomy(h: ClassicalHierarchy, d: StrMap<Vec<String>>, items: Option<Vec<Item>>) -> HybridTaxonomy {
    HybridTaxonomy {
        taxonomy_description: None,
        classical_hierarchy: h,
        faceted_dimensions: d,
        example_items: items,
        extra: StrMap::new(),
    }
}

fn good_items() -> Vec<Item> {
    vec![
        item("Ristretto", &["Drink", "Coffee", "Espresso"], vec![("temperature", text("hot"))]),
        item(
            "Cold Brew",
            &["Drink", "Coffee"],
            vec![("temperature", JsonValue::Array(vec![text("iced"), text("hot")])), ("caffeine", text("high"))],
        ),
        item("Water", &["Drink"], vec![("caffeine", text("none"))]),
    ]
}

#[test]
fn well_formed_taxonomy_passes() {
    let t = taxonomy(drinks(), drink_dims(), Some(good_items()));
    assert_eq!(validate_taxonomy(&t), Ok(()));
    let t = taxonomy(drinks(), drink_dims(), None);
    assert_eq!(validate_taxonomy(&t), Ok(()));
    let t = taxonomy(drinks(), drink_dims(), Some(vec![]));
    assert_eq!(validate_taxonomy(&t), Ok(()));
}

#[test]
fn hierarchy_passes_exactly_when_every_genus_is_the_parent_species() {
    let mut errors = Vec::new();
    validate_hierarchy(&drinks(), &mut errors);
    assert!(errors.is_empty());

    let mut mutated = drinks();
    mutated.children.as_mut().unwrap()[0].children.as_mut().unwrap()[1].genus = "Tea".to_string();
    let mut errors = Vec::new();
    validate_hierarchy(&mutated, &mut errors);
    assert_eq!(errors, vec!["Species 'Filter' has genus 'Tea', expected 'Coffee' (parent species)"]);

    let mut top = drinks();
    top.children.as_mut().unwrap()[1].genus = "Coffee".to_string();
    let mut errors = Vec::new();
    validate_hierarchy(&top, &mut errors);
    assert_eq!(errors, vec!["Species 'Tea' has genus 'Coffee', expected 'Drink' (parent species)"]);
}

#[test]
fn hierarchy_node_violations_are_all_reported_in_pre_order() {
    let nodes = vec![
        node(" ", "", "\t", Some(vec![node("x", "Leaf", "d", None)])),
        node("Root", "B", "fine", None),
    ];
    let mut errors = vec!["kept".to_string()];
    validate_hierarchy_nodes(&nodes, "Root", &mut errors);
    assert_eq!(
        errors,
        vec![
            "kept",
            "Hierarchy node genus cannot be empty",
            "Hierarchy node species cannot be empty",
            "Species '' must have non-empty differentia",
            "Species '' has genus ' ', expected 'Root' (parent species)",
            "Species 'Leaf' has genus 'x', expected '' (parent species)",
        ]
    );
}

#[test]
fn blank_root_is_reported() {
    let h = ClassicalHierarchy { root: "  ".to_string(), children: None };
    let mut errors = Vec::new();
    validate_hierarchy(&h, &mut errors);
    assert_eq!(errors, vec!["Classical hierarchy root cannot be empty"]);
}

#[test]
fn dimension_violations() {
    let mut errors = Vec::new();
    validate_dimensions(&StrMap::new(), &mut errors);
    assert_eq!(errors, vec!["At least one faceted dimension must be defined"]);

    let d = dims(&[(" ", &["a"]), ("empty", &[]), ("color", &["red", "", "red", "blue", "red", " "])]);
    let mut errors = Vec::new();
    validate_dimensions(&d, &mut errors);
    assert_eq!(
        errors,
        vec![
            "Facet names cannot be empty",
            "Facet 'empty' must have at least one value",
            "Facet 'color' contains empty value",
            "Facet 'color' has duplicate value: 'red'",
            "Facet 'color' has duplicate value: 'red'",
            "Facet 'color' contains empty value",
        ]
    );
}

#[test]
fn item_labels_count_from_one() {
    assert_eq!(item_label(0, "Tea"), "Item #1 ('Tea')");
    assert_eq!(item_label(9, ""), "Item #10 ('')");
    assert_eq!(item_label(122, "x y"), "Item #123 ('x y')");
    assert_eq!(item_label(100_000, "z"), "Item #100001 ('z')");
}

#[test]
fn two_items_sharing_a_name_are_both_reported() {
    let items = vec![
        item("Twin", &["Drink"], vec![("caffeine", text("none"))]),
        item("Other", &["Drink"], vec![("caffeine", text("none"))]),
        item("Twin", &["Drink"], vec![("caffeine", text("low"))]),
    ];
    assert!(has_name_twin(&items, 0));
    assert!(!has_name_twin(&items, 1));
    assert!(has_name_twin(&items, 2));
    let t = taxonomy(drinks(), drink_dims(), Some(items));
    assert_eq!(
        validate_taxonomy(&t),
        Err(vec![
            "Item #1 ('Twin'): duplicate item name".to_string(),
            "Item #3 ('Twin'): duplicate item name".to_string(),
        ])
    );
}

#[test]
fn item_name_and_path_violations() {
    let items = vec![
        item(" ", &[], vec![("caffeine", text("none"))]),
        item("Lost", &["Food", "Coffee", "Tea", "Leaf"], vec![("caffeine", text("none"))]),
    ];
    let mut errors = Vec::new();
    validate_items(&items, &taxonomy(drinks(), drink_dims(), None), &mut errors);
    assert_eq!(
        errors,
        vec![
            "Item #1 (' '): name cannot be empty",
            "Item #1 (' '): classical_path cannot be empty",
            "Item #2 ('Lost'): classical_path must start with root 'Drink', found 'Food'",
            "Item #2 ('Lost'): invalid classical_path - 'Food' has no defined children",
            "Item #2 ('Lost'): invalid classical_path - 'Tea' is not a valid child of 'Coffee'",
            "Item #2 ('Lost'): invalid classical_path - 'Tea' has no defined children",
        ]
    );
}

#[test]
fn item_facet_violations() {
    let items = vec![
        item("Bare", &["Drink"], vec![]),
        item(
            "Odd",
            &["Drink"],
            vec![
                ("taste", text("sweet")),
                ("temperature", text("warm")),
                ("caffeine", JsonValue::Array(vec![])),
            ],
        ),
        item(
            "Mixed",
            &["Drink"],
            vec![
                (
                    "temperature",
                    JsonValue::Array(vec![
                        text("hot"),
                        JsonValue::Number(JsonNumber::parse("3").unwrap()),
                        text("cold"),
                        JsonValue::Null,
                    ]),
                ),
                ("caffeine", JsonValue::Bool(true)),
            ],
        ),
    ];
    let mut errors = Vec::new();
    validate_items_in(&items, &drinks(), &drink_dims(), &mut errors);
    assert_eq!(
        errors,
        vec![
            "Item #1 ('Bare'): must have at least one facet",
            "Item #2 ('Odd'): uses undefined facet 'taste'",
            "Item #2 ('Odd'): facet 'temperature' has invalid value 'warm' (not in allowed values)",
            "Item #2 ('Odd'): facet 'caffeine' has empty array",
            "Item #3 ('Mixed'): facet 'temperature' array contains non-string value",
            "Item #3 ('Mixed'): facet 'temperature' has invalid value 'cold' (not in allowed values)",
            "Item #3 ('Mixed'): facet 'temperature' array contains non-string value",
            "Item #3 ('Mixed'): facet 'caffeine' must be a string or array of strings",
        ]
    );
}

#[test]
fn single_facet_and_single_item_checks() {
    let mut errors = Vec::new();
    validate_facet("it", "temperature", &text("hot"), &drink_dims(), &mut errors);
    assert!(errors.is_empty());
    validate_facet("it", "temperature", &JsonValue::Null, &drink_dims(), &mut errors);
    assert_eq!(errors, vec!["it: facet 'temperature' must be a string or array of strings"]);

    let items = good_items();
    let mut edges = StringHashMap::new();
    let h = drinks();
    build_valid_paths(&h.root, &h.children, &mut edges);
    let mut errors = Vec::new();
    validate_item(&items, 1, "Drink", &edges, &drink_dims(), &mut errors);
    assert!(errors.is_empty());
    validate_item(&items, 1, "Beverage", &edges, &drink_dims(), &mut errors);
    assert_eq!(
        errors,
        vec!["Item #2 ('Cold Brew'): classical_path must start with root 'Beverage', found 'Drink'"]
    );
}

#[test]
fn parent_to_children_map_is_built_by_one_walk() {
    let h = drinks();
    let mut edges = StringHashMap::new();
    build_valid_paths(&h.root, &h.children, &mut edges);
    assert_eq!(edges.len(), 2);
    assert_eq!(edges.get("Drink").unwrap(), &vec!["Coffee".to_string(), "Tea".to_string()]);
    assert_eq!(edges.get("Coffee").unwrap(), &vec!["Espresso".to_string(), "Filter".to_string()]);
    assert!(edges.get("Filter").is_none());
    assert!(edges.get("Tea").is_none());
    build_valid_paths("Extra", &None, &mut edges);
    assert_eq!(edges.len(), 2);
}

#[test]
fn later_node_of_the_same_name_replaces_the_earlier_in_the_map() {
    let h = ClassicalHierarchy {
        root: "R".to_string(),
        children: Some(vec![
            node("R", "A", "d", Some(vec![node("A", "X", "d", None)])),
            node("R", "A", "d", Some(vec![node("A", "Y", "d", None)])),
        ]),
    };
    let mut edges = StringHashMap::new();
    build_valid_paths(&h.root, &h.children, &mut edges);
    assert_eq!(edges.get("A").unwrap(), &vec!["Y".to_string()]);
    let nested = ClassicalHierarchy {
        root: "R".to_string(),
        children: Some(vec![node("R", "A", "d", Some(vec![node("A", "R", "d", Some(vec![node("R", "X", "d", None)]))]))]),
    };
    let mut edges = StringHashMap::new();
    build_valid_paths(&nested.root, &nested.children, &mut edges);
    assert_eq!(edges.get("R").unwrap(), &vec!["A".to_string()]);
}

#[test]
fn path_steps_against_a_map() {
    let mut edges = StringHashMap::new();
    edges.insert("a".to_string(), vec!["b".to_string()]);
    let mut errors = Vec::new();
    check_path_steps(&vec!["a".to_string()], &edges, "it", &mut errors);
    check_path_steps(&vec![], &edges, "it", &mut errors);
    check_path_steps(&vec!["a".to_string(), "b".to_string()], &edges, "it", &mut errors);
    assert!(errors.is_empty());
    check_path_steps(&vec!["a".to_string(), "c".to_string(), "b".to_string()], &edges, "it", &mut errors);
    assert_eq!(
        errors,
        vec![
            "it: invalid classical_path - 'c' is not a valid child of 'a'",
            "it: invalid classical_path - 'c' has no defined children",
        ]
    );
    assert!(contains_string(&vec!["x".to_string(), "y".to_string()], "y"));
    assert!(!contains_string(&vec!["x".to_string()], "X"));
}

#[test]
fn classical_path_is_checked_against_the_hierarchy() {
    let t = taxonomy(drinks(), drink_dims(), None);
    let mut errors = Vec::new();
    validate_classical_path(&item("ok", &["Drink", "Coffee", "Filter"], vec![]), &t, "ref", &mut errors);
    validate_classical_path(&item("root only", &["Anything"], vec![]), &t, "ref", &mut errors);
    assert!(errors.is_empty());
    validate_classical_path(&item("bad", &["Drink", "Espresso"], vec![]), &t, "ref", &mut errors);
    assert_eq!(errors, vec!["ref: invalid classical_path - 'Espresso' is not a valid child of 'Drink'"]);
}

#[test]
fn validated_paths_start_at_the_root_and_follow_edges() {
    let t = taxonomy(drinks(), drink_dims(), Some(good_items()));
    assert!(validate_taxonomy(&t).is_ok());
    for it in t.example_items.as_ref().unwrap() {
        assert_eq!(it.classical_path[0], t.classical_hierarchy.root);
    }
    let skip = item("Skip", &["Drink", "Espresso"], vec![("caffeine", text("high"))]);
    let t = taxonomy(drinks(), drink_dims(), Some(vec![skip]));
    assert!(validate_taxonomy(&t).is_err());
}

#[test]
fn violations_come_in_the_order_hierarchy_dimensions_items() {
    let h = ClassicalHierarchy { root: "".to_string(), children: Some(vec![node("", "S", "d", None)]) };
    let t = taxonomy(h, StrMap::new(), Some(vec![item("I", &[""], vec![])]));
    assert_eq!(
        validate_taxonomy(&t),
        Err(vec![
            "Classical hierarchy root cannot be empty".to_string(),
            "Hierarchy node genus cannot be empty".to_string(),
            "At least one faceted dimension must be defined".to_string(),
            "Item #1 ('I'): must have at least one facet".to_string(),
        ])
    );
}

#[test]
fn schema_and_data_are_validated_together() {
    let schema = TaxonomySchema {
        schema_id: "s".to_string(),
        title: "t".to_string(),
        description: None,
        classical_hierarchy: drinks(),
        faceted_dimensions: drink_dims(),
        json_schema: None,
    };
    let data = TaxonomyData { schema: "schema.json".to_string(), items: good_items(), extra: StrMap::new() };
    assert_eq!(validate(&schema, &data), Ok(()));
    let data = TaxonomyData {
        schema: "schema.json".to_string(),
        items: vec![item("Solo", &["Tea"], vec![("caffeine", text("much"))])],
        extra: StrMap::new(),
    };
    assert_eq!(
        validate(&schema, &data),
        Err(vec![
            "Item #1 ('Solo'): classical_path must start with root 'Drink', found 'Tea'".to_string(),
            "Item #1 ('Solo'): facet 'caffeine' has invalid value 'much' (not in allowed values)".to_string(),
        ])
    );
}

#[test]
fn twin_flags_mark_every_item_whose_name_occurs_again() {
    let names = ["a", "b", "a", "c", "b", "a", "d", ""];
    let items: Vec<Item> = names.iter().map(|n| item(n, &["Drink"], vec![])).collect();
    assert_eq!(twin_flags(&items), vec![true, true, true, false, true, true, false, false]);
    for i in 0..items.len() {
        assert_eq!(twin_flags(&items)[i], has_name_twin(&items, i));
    }
    assert!(twin_flags(&[]).is_empty());
}

#[test]
fn deep_hierarchy_is_walked_without_deep_calls() {
    let depth = 100_000;
    let mut chain: Option<Vec<HierarchyNode>> = None;
    for level in (0..depth).rev() {
        chain = Some(vec![node(&format!("n{}", level), &format!("n{}", level + 1), "d", chain)]);
    }
    let mut edges = StringHashMap::new();
    build_valid_paths("n0", &chain, &mut edges);
    assert_eq!(edges.len(), depth);
    assert_eq!(edges.get("n0").unwrap(), &vec!["n1".to_string()]);
    assert_eq!(edges.get("n99999").unwrap(), &vec!["n100000".to_string()]);
    assert!(edges.get("n100000").is_none());
    let mut errors = Vec::new();
    validate_hierarchy_nodes(chain.as_ref().unwrap(), "n0", &mut errors);
    assert!(errors.is_empty());
    validate_hierarchy_nodes(chain.as_ref().unwrap(), "other", &mut errors);
    assert_eq!(errors, vec!["Species 'n1' has genus 'n0', expected 'other' (parent species)"]);
    let h = ClassicalHierarchy { root: "n0".to_string(), children: chain };
    let lines = taxstud_core::formatting::flatten_hierarchy(&h);
    assert_eq!(lines.len(), depth);
    assert_eq!(lines[depth - 1].indent_level, 99_999);
    assert_eq!(lines[depth - 1].label, "n100000 (d)");
    let mut rest = h.children;
    while let Some(mut list) = rest {
        rest = list.pop().and_then(|mut n| n.children.take());
    }
}
