//! A two-tier taxonomy: a classical hierarchy of genus and species crossed
//! with faceted dimensions, over a collection of catalogued items.
//!
//! The crate reads a schema from a schema document, checks data against the
//! schema, and answers queries over the items: filter, sort and group.

pub mod app_state;
pub mod document;
pub mod errors;
pub mod filtering;
pub mod formatting;
pub mod grouping;
pub mod input;
pub mod json;
pub mod loading;
pub mod models;
pub mod schema;
pub mod schema_validation;
pub mod sorting;
pub mod strmap;
pub mod text;
pub mod ui_flow;
pub mod ui_state;
pub mod validation;
pub mod validation_laws;
pub mod validation_models;

pub use app_state::{window_title, AppState};
pub use errors::{map_file_load_error, map_file_save_error, map_revert_error};
pub use filtering::{apply_filters, has_filters, matches_filters, parse_facet_filters};
pub use formatting::{flatten_hierarchy, format_facet_dimensions, format_facets, TreeNode};
pub use grouping::{get_sorted_group_names, group_items_by_facet};
pub use input::{parse_classification_path, validate_item_input, ValidationError};
pub use json::{JsonNumber, JsonValue};
pub use document::{data_from_json, data_to_json, item_from_json, item_to_json, DataError, FieldError};
pub use loading::{accept_data, load_documents, schema_reference, LoadError};
pub use models::{
    ClassicalHierarchy, Filters, HierarchyNode, HybridTaxonomy, Item, TaxonomyData, TaxonomySchema,
};
pub use schema::{
    build_schema_from_json, extract_classical_hierarchy, extract_faceted_dimensions, SchemaError,
};
pub use schema_validation::{conformance_report, validate_against_schema, ConformanceOutcome};
pub use sorting::{normalize_for_sorting, sort_items, strip_leading_articles};
pub use strmap::StrMap;
pub use vstd::hash_map::StringHashMap;
pub use ui_state::{PendingAction, SimpleConfirmationAction, UiState};
pub use validation::{
    validate, validate_classical_path, validate_hierarchy_nodes, validate_items, validate_taxonomy,
};
