use taxstud_core::app_state::{window_title, AppState};
use taxstud_core::models::{ClassicalHierarchy, Filters, Item, TaxonomyData, TaxonomySchema};
use taxstud_core::strmap::StrMap;
use taxstud_core::ui_flow::{
    describe_filters, filters_from_text, listed_names, match_count_status, request_action,
    request_revert, RevertStep, Step,
};
use taxstud_core::ui_state::{PendingAction, SimpleConfirmationAction, UiState};

fn item(name: &str) -> Item {
    Item { name: name.to_string(), classical_path: vec![], facets: StrMap::new(), extra: StrMap::new() }
}

#[test]
fn window_titles() {
    assert_eq!(window_title(None, false), "Taxonomy Studio - Untitled");
    assert_eq!(window_title(None, true), "Taxonomy Studio - Untitled*");
    assert_eq!(window_title(Some("drinks.json"), false), "Taxonomy Studio - drinks.json");
    assert_eq!(window_title(Some("drinks.json"), true), "Taxonomy Studio - drinks.json*");
}

#[test]
fn new_session_is_empty_and_clean() {
    let s = AppState::new();
    assert!(s.schema.is_none() && s.data.is_none());
    assert!(s.current_file.is_none() && s.schema_file.is_none());
    assert!(!s.dirty);
    assert_eq!(s.selected_item, None);
    assert!(s.filters.genera.is_empty() && s.filters.facets.is_empty());
    assert_eq!(s.get_items(), None);
    assert_eq!(s.get_item(0), None);
    assert_eq!(s.get_classical_hierarchy(), None);
    assert_eq!(s.get_faceted_dimensions(), None);
}

#[test]
fn create_new_opens_the_default_taxonomy() {
    let mut s = AppState::new();
    s.current_file = Some("old.json".to_string());
    s.selected_item = Some(3);
    s.filters = Filters { genera: vec!["g".to_string()], facets: StrMap::new() };
    s.create_new();
    let schema = s.schema.as_ref().unwrap();
    assert_eq!(schema.schema_id, "default");
    assert_eq!(schema.title, "Default Schema");
    assert_eq!(schema.description, Some("Default taxonomy schema".to_string()));
    assert_eq!(schema.classical_hierarchy, ClassicalHierarchy { root: "Root".to_string(), children: None });
    assert_eq!(schema.faceted_dimensions.len(), 1);
    assert_eq!(schema.faceted_dimensions.get("category"), Some(&vec!["uncategorized".to_string()]));
    assert_eq!(schema.json_schema, None);
    assert_eq!(
        s.data,
        Some(TaxonomyData { schema: "schema.json".to_string(), items: vec![], extra: StrMap::new() })
    );
    assert_eq!(s.current_file, None);
    assert_eq!(s.schema_file, None);
    assert!(s.dirty);
    assert_eq!(s.selected_item, None);
    assert_eq!(s.filters.genera, vec!["g"]);
}

#[test]
fn loading_saving_and_editing_set_the_dirty_flag() {
    let mut s = AppState::new();
    s.create_new();
    let schema = TaxonomySchema {
        schema_id: "id".to_string(),
        title: "t".to_string(),
        description: None,
        classical_hierarchy: ClassicalHierarchy { root: "R".to_string(), children: None },
        faceted_dimensions: StrMap::new(),
        json_schema: None,
    };
    let data = TaxonomyData {
        schema: "schema.json".to_string(),
        items: vec![item("a"), item("b")],
        extra: StrMap::new(),
    };
    s.loaded(data, schema, "/d/data.json".to_string(), "/d/schema.json".to_string());
    assert!(!s.dirty);
    assert_eq!(s.current_file, Some("/d/data.json".to_string()));
    assert_eq!(s.schema_file, Some("/d/schema.json".to_string()));
    assert_eq!(s.get_items().unwrap().len(), 2);
    assert_eq!(s.get_item(1).unwrap().name, "b");
    assert_eq!(s.get_item(2), None);
    assert_eq!(s.get_item(-1), None);
    assert_eq!(s.get_item(i32::MAX), None);
    assert_eq!(s.get_classical_hierarchy().unwrap().root, "R");
    assert!(s.get_faceted_dimensions().unwrap().is_empty());
    s.mark_dirty();
    assert!(s.dirty);
    s.saved("/d/other.json".to_string());
    assert!(!s.dirty);
    assert_eq!(s.current_file, Some("/d/other.json".to_string()));
    assert_eq!(s.schema_file, Some("/d/schema.json".to_string()));
}

#[test]
fn actions_wait_for_confirmation_only_with_unsaved_changes() {
    let mut ui = UiState::new();
    assert_eq!(request_action(&mut ui, false, PendingAction::Open), Step::Proceed);
    assert_eq!(ui.pending_action, None);
    assert_eq!(
        request_action(&mut ui, true, PendingAction::Open),
        Step::Confirm("You have unsaved changes. Do you want to save before opening another file?".to_string())
    );
    assert_eq!(ui.pending_action, Some(PendingAction::Open));
    assert_eq!(
        request_action(&mut ui, true, PendingAction::New),
        Step::Confirm("You have unsaved changes. Do you want to save before creating a new taxonomy?".to_string())
    );
    assert_eq!(
        request_action(&mut ui, true, PendingAction::Exit),
        Step::Confirm("You have unsaved changes. Do you want to save before exiting?".to_string())
    );
    assert_eq!(ui.take_pending(), Some(PendingAction::Exit));
}

#[test]
fn revert_is_asked_about_only_with_a_file_and_changes() {
    let mut ui = UiState::new();
    assert_eq!(request_revert(&mut ui, false, true), RevertStep::NoFile);
    assert_eq!(request_revert(&mut ui, false, false), RevertStep::NoFile);
    assert_eq!(request_revert(&mut ui, true, false), RevertStep::NoChanges);
    assert_eq!(ui.simple_confirmation_action, None);
    assert_eq!(request_revert(&mut ui, true, true), RevertStep::Confirm);
    assert_eq!(ui.simple_confirmation_action, Some(SimpleConfirmationAction::Revert));
}

#[test]
fn typed_query_is_read_and_described() {
    assert_eq!(listed_names(" a, ,b ,"), vec!["a", "b"]);
    assert!(listed_names("").is_empty());
    let f = filters_from_text(" Coffee, Tea ,", "temperature=hot, color = red,temperature=iced, junk");
    assert_eq!(f.genera, vec!["Coffee", "Tea"]);
    assert_eq!(f.facets.len(), 2);
    assert_eq!(f.facets.get("temperature"), Some(&vec!["hot".to_string(), "iced".to_string()]));
    assert_eq!(describe_filters(&f), "Genus: Coffee OR Tea; temperature: hot OR iced; color: red");
    let none = filters_from_text("", " , ");
    assert_eq!(describe_filters(&none), "");
    let only_facet = filters_from_text("", "a=b");
    assert_eq!(describe_filters(&only_facet), "a: b");
    assert_eq!(match_count_status(0), "Filters applied: 0 items match");
    assert_eq!(match_count_status(42), "Filters applied: 42 items match");
}

#[test]
fn items_can_be_changed_through_the_session() {
    let mut s = AppState::new();
    assert!(s.get_items_mut().is_none());
    assert!(s.get_item_mut(0).is_none());
    s.create_new();
    s.get_items_mut().unwrap().push(item("a"));
    s.get_items_mut().unwrap().push(item("b"));
    assert_eq!(s.get_items().unwrap().len(), 2);
    s.get_item_mut(1).unwrap().name = "c".to_string();
    assert_eq!(s.get_item(1).unwrap().name, "c");
    assert_eq!(s.get_item(0).unwrap().name, "a");
    assert!(s.get_item_mut(2).is_none());
    assert!(s.get_item_mut(-1).is_none());
    assert_eq!(s.data.as_ref().unwrap().schema, "schema.json");
}
