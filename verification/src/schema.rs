//! The schema extractor: from a schema document to the hierarchy, the facet
//! dimensions and the descriptive fields.

use crate::json::JsonValue;
use crate::models::{
    children_model, lemma_node_model, node_model, node_models, ClassicalHierarchy,
    HierarchyModel, HierarchyNode, NodeModel, TaxonomySchema,
};
use crate::strmap::{position, StrMap};
use crate::text::{lemma_texts_push, texts};
use vstd::prelude::*;
use vstd::string::StringExecFns;

verus! {

/// Why a schema document could not be read.
#[derive(Debug, PartialEq, Eq)]
pub enum SchemaError {
    /// The document lacks the top-level member of this name.
    MissingField(String),
    /// The member `classical_hierarchy` does not have the shape of a hierarchy.
    MalformedHierarchy,
    /// The member `faceted_dimensions` is not an object of lists of strings.
    MalformedDimensions,
}

impl SchemaError {
    /// The error in words.
    pub fn message(&self) -> (r: String)
        ensures
            r@ == match *self {
                SchemaError::MissingField(name) => "JSON Schema missing '"@ + name@
                    + "' property"@,
                SchemaError::MalformedHierarchy => "Failed to parse classical_hierarchy"@,
                SchemaError::MalformedDimensions => "Failed to parse faceted_dimensions"@,
            },
    {
        match self {
            SchemaError::MissingField(name) => {
                let mut r = String::from_str("JSON Schema missing '");
                r.append(name.as_str());
                r.append("' property");
                r
            },
            SchemaError::MalformedHierarchy => String::from_str(
                "Failed to parse classical_hierarchy",
            ),
            SchemaError::MalformedDimensions => String::from_str(
                "Failed to parse faceted_dimensions",
            ),
        }
    }
}

/// The text of the member called `key`; none where it is missing or not a string.
pub open spec fn text_member(m: StrMap<JsonValue>, key: Seq<char>) -> Option<Seq<char>> {
    match m.spec_get(key) {
        Some(JsonValue::Text(s)) => Some(s@),
        _ => None,
    }
}

/// The node that a document denotes: an object with the strings `genus`,
/// `species` and `differentia`, and with `children` missing, null, or an
/// array of nodes. Other members do not count.
pub open spec fn node_of(v: JsonValue) -> Option<NodeModel>
    decreases v, 1nat,
{
    match v {
        JsonValue::Object(m) => {
            let genus = text_member(m, "genus"@);
            let species = text_member(m, "species"@);
            let differentia = text_member(m, "differentia"@);
            let p = position(m.spec_keys(), "children"@);
            let children: Option<Option<Seq<NodeModel>>> = if 0 <= p < m.entries@.len() {
                match m.entries@[p].1 {
                    JsonValue::Null => Some(None),
                    JsonValue::Array(a) => match nodes_of(a@) {
                        Some(list) => Some(Some(list)),
                        None => None,
                    },
                    _ => None,
                }
            } else {
                Some(None)
            };
            if genus is Some && species is Some && differentia is Some && children is Some {
                Some(
                    NodeModel {
                        genus: genus->0,
                        species: species->0,
                        differentia: differentia->0,
                        children: children->0,
                    },
                )
            } else {
                None
            }
        },
        _ => None,
    }
}

/// The nodes that the elements of an array denote; none where an element denotes none.
pub open spec fn nodes_of(a: Seq<JsonValue>) -> Option<Seq<NodeModel>>
    decreases a, 0nat,
{
    if a.len() == 0 {
        Some(Seq::<NodeModel>::empty())
    } else {
        match (nodes_of(a.drop_last()), node_of(a.last())) {
            (Some(list), Some(n)) => Some(list.push(n)),
            _ => None,
        }
    }
}

/// The hierarchy that a document denotes: an object with the string `root`,
/// and with `children` missing, null, or an array of nodes.
pub open spec fn hierarchy_of(v: JsonValue) -> Option<HierarchyModel> {
    match v {
        JsonValue::Object(m) => {
            let root = text_member(m, "root"@);
            let p = position(m.spec_keys(), "children"@);
            let children: Option<Option<Seq<NodeModel>>> = if 0 <= p < m.entries@.len() {
                match m.entries@[p].1 {
                    JsonValue::Null => Some(None),
                    JsonValue::Array(a) => match nodes_of(a@) {
                        Some(list) => Some(Some(list)),
                        None => None,
                    },
                    _ => None,
                }
            } else {
                Some(None)
            };
            if root is Some && children is Some {
                Some(HierarchyModel { root: root->0, children: children->0 })
            } else {
                None
            }
        },
        _ => None,
    }
}

/// The texts of an array of strings; none where an element is not a string.
pub open spec fn all_texts(a: Seq<JsonValue>) -> Option<Seq<Seq<char>>>
    decreases a.len(),
{
    if a.len() == 0 {
        Some(Seq::<Seq<char>>::empty())
    } else {
        match (all_texts(a.drop_last()), a.last()) {
            (Some(list), JsonValue::Text(s)) => Some(list.push(s@)),
            _ => None,
        }
    }
}

/// The facet dimensions among the first `upto` members of an object; none
/// where one of them is not an array of strings.
pub open spec fn dimensions_upto(m: StrMap<JsonValue>, upto: int) -> Option<
    Seq<(Seq<char>, Seq<Seq<char>>)>,
>
    decreases upto,
{
    if upto <= 0 {
        Some(Seq::<(Seq<char>, Seq<Seq<char>>)>::empty())
    } else {
        match (dimensions_upto(m, upto - 1), m.entries@[upto - 1].1) {
            (Some(list), JsonValue::Array(a)) => match all_texts(a@) {
                Some(values) => Some(list.push((m.entries@[upto - 1].0@, values))),
                None => None,
            },
            _ => None,
        }
    }
}

/// The facet dimensions that a document denotes: an object whose members are
/// arrays of strings, in the order of the members.
pub open spec fn dimensions_of(v: JsonValue) -> Option<Seq<(Seq<char>, Seq<Seq<char>>)>> {
    match v {
        JsonValue::Object(m) => dimensions_upto(m, m.entries@.len() as int),
        _ => None,
    }
}

fn string_member(m: &StrMap<JsonValue>, key: &str) -> (r: Option<String>)
    ensures
        match r {
            Some(s) => text_member(*m, key@) == Some(s@),
            None => text_member(*m, key@) is None,
        },
{
    match m.get(key) {
        Some(JsonValue::Text(s)) => Some(s.clone()),
        _ => None,
    }
}

#[verifier::rlimit(50)]
fn parse_children(m: &StrMap<JsonValue>) -> (r: Option<Option<Vec<HierarchyNode>>>)
    ensures
        ({
            let p = position(m.spec_keys(), "children"@);
            let expected: Option<Option<Seq<NodeModel>>> = if 0 <= p < m.entries@.len() {
                match m.entries@[p].1 {
                    JsonValue::Null => Some(None),
                    JsonValue::Array(a) => match nodes_of(a@) {
                        Some(list) => Some(Some(list)),
                        None => None,
                    },
                    _ => None,
                }
            } else {
                Some(None)
            };
            match r {
                Some(c) => expected == Some(children_model(c)),
                None => expected is None,
            }
        }),
    decreases m, 2nat,
{
    match m.index_of("children") {
        None => Some(None),
        Some(p) => {
            proof {
                crate::strmap::lemma_position_bounds(m.spec_keys(), "children"@);
            }
            match m.value_at(p) {
                JsonValue::Null => Some(None),
                JsonValue::Array(a) => {
                    assert(decreases_to!(m.entries@ => m.entries@[p as int]));
                    match parse_nodes(a) {
                        Some(list) => Some(Some(list)),
                        None => None,
                    }
                },
                _ => None,
            }
        },
    }
}

#[verifier::rlimit(50)]
fn parse_node(v: &JsonValue) -> (r: Option<HierarchyNode>)
    ensures
        match r {
            Some(n) => node_of(*v) == Some(node_model(n)),
            None => node_of(*v) is None,
        },
    decreases v, 3nat,
{
    match v {
        JsonValue::Object(m) => {
            let genus = string_member(m, "genus");
            let species = string_member(m, "species");
            let differentia = string_member(m, "differentia");
            let children = parse_children(m);
            match (genus, species, differentia, children) {
                (Some(genus), Some(species), Some(differentia), Some(children)) => {
                    let node = HierarchyNode { genus, species, differentia, children };
                    proof {
                        lemma_node_model(node);
                    }
                    Some(node)
                },
                _ => None,
            }
        },
        _ => None,
    }
}

fn parse_nodes(a: &Vec<JsonValue>) -> (r: Option<Vec<HierarchyNode>>)
    ensures
        match r {
            Some(list) => nodes_of(a@) == Some(node_models(list@)),
            None => nodes_of(a@) is None,
        },
    decreases a, 0nat,
{
    let mut out: Vec<HierarchyNode> = Vec::new();
    let mut i: usize = 0;
    assert(node_models(out@) =~= Seq::<NodeModel>::empty());
    assert(a@.take(0) =~= Seq::<JsonValue>::empty());
    while i < a.len()
        invariant
            i <= a@.len(),
            nodes_of(a@.take(i as int)) == Some(node_models(out@)),
        decreases a@.len() - i,
    {
        proof {
            assert(a@.take(i + 1).drop_last() =~= a@.take(i as int));
            assert(a@.take(i + 1).last() == a@[i as int]);
            assert(decreases_to!(a@ => a@[i as int]));
        }
        match parse_node(&a[i]) {
            Some(node) => {
                let ghost before = out@;
                out.push(node);
                assert(node_models(out@) =~= node_models(before).push(node_model(node)));
            },
            None => {
                proof {
                    lemma_nodes_of_fails(a@, i as int);
                }
                return None;
            },
        }
        i += 1;
    }
    assert(a@.take(a@.len() as int) =~= a@);
    Some(out)
}

proof fn lemma_nodes_of_fails(a: Seq<JsonValue>, i: int)
    requires
        0 <= i < a.len(),
        node_of(a[i]) is None,
    ensures
        nodes_of(a) is None,
    decreases a.len(),
{
    if i < a.len() - 1 {
        assert(a.drop_last()[i] == a[i]);
        lemma_nodes_of_fails(a.drop_last(), i);
    }
}

fn parse_strings(a: &Vec<JsonValue>) -> (r: Option<Vec<String>>)
    ensures
        match r {
            Some(list) => all_texts(a@) == Some(texts(list@)),
            None => all_texts(a@) is None,
        },
{
    let mut out: Vec<String> = Vec::new();
    let mut i: usize = 0;
    assert(texts(out@) =~= Seq::<Seq<char>>::empty());
    assert(a@.take(0) =~= Seq::<JsonValue>::empty());
    while i < a.len()
        invariant
            i <= a@.len(),
            all_texts(a@.take(i as int)) == Some(texts(out@)),
        decreases a@.len() - i,
    {
        proof {
            assert(a@.take(i + 1).drop_last() =~= a@.take(i as int));
            assert(a@.take(i + 1).last() == a@[i as int]);
        }
        match &a[i] {
            JsonValue::Text(s) => {
                let piece = s.clone();
                proof {
                    lemma_texts_push(out@, piece);
                }
                out.push(piece);
            },
            _ => {
                proof {
                    lemma_all_texts_fails(a@, i as int);
                }
                return None;
            },
        }
        i += 1;
    }
    assert(a@.take(a@.len() as int) =~= a@);
    Some(out)
}

proof fn lemma_all_texts_fails(a: Seq<JsonValue>, i: int)
    requires
        0 <= i < a.len(),
        !(a[i] is Text),
    ensures
        all_texts(a) is None,
    decreases a.len(),
{
    if i < a.len() - 1 {
        assert(a.drop_last()[i] == a[i]);
        lemma_all_texts_fails(a.drop_last(), i);
    }
}

proof fn lemma_dimensions_fail(m: StrMap<JsonValue>, i: int, upto: int)
    requires
        0 <= i < upto,
        dimensions_upto(m, i + 1) is None,
    ensures
        dimensions_upto(m, upto) is None,
    decreases upto,
{
    if i + 1 < upto {
        lemma_dimensions_fail(m, i, upto - 1);
    }
}

fn parse_hierarchy(v: &JsonValue) -> (r: Option<ClassicalHierarchy>)
    ensures
        match r {
            Some(h) => hierarchy_of(*v) == Some(h.deep_view()),
            None => hierarchy_of(*v) is None,
        },
{
    match v {
        JsonValue::Object(m) => {
            let root = string_member(m, "root");
            let children = parse_children(m);
            match (root, children) {
                (Some(root), Some(children)) => Some(ClassicalHierarchy { root, children }),
                _ => None,
            }
        },
        _ => None,
    }
}

#[verifier::rlimit(50)]
fn parse_dimensions(v: &JsonValue) -> (r: Option<StrMap<Vec<String>>>)
    ensures
        match r {
            Some(dims) => dimensions_of(*v) == Some(dims.text_lists()) && (v matches JsonValue::Object(
                m,
            ) && (m.wf() ==> dims.wf())),
            None => dimensions_of(*v) is None,
        },
{
    match v {
        JsonValue::Object(m) => {
            let mut entries: Vec<(String, Vec<String>)> = Vec::new();
            let mut i: usize = 0;
            while i < m.len()
                invariant
                    i <= m.entries@.len(),
                    entries@.len() == i,
                    v is Object,
                    v->Object_0 == *m,
                    dimensions_upto(*m, i as int) == Some((StrMap { entries }).text_lists()),
                    forall|k: int| 0 <= k < i ==> (#[trigger] entries@[k]).0@ == m.entries@[k].0@,
                decreases m.entries@.len() - i,
            {
                let ghost before = StrMap { entries };
                match m.value_at(i) {
                    JsonValue::Array(a) => {
                        match parse_strings(a) {
                            Some(values) => {
                                let name = m.key_at(i).clone();
                                entries.push((name, values));
                                assert((StrMap { entries }).text_lists() =~= before.text_lists().push(
                                    (name@, texts(values@)),
                                ));
                            },
                            None => {
                                proof {
                                    assert(dimensions_upto(*m, i + 1) is None);
                                    lemma_dimensions_fail(*m, i as int, m.entries@.len() as int);
                                }
                                return None;
                            },
                        }
                    },
                    _ => {
                        proof {
                            assert(dimensions_upto(*m, i + 1) is None);
                            lemma_dimensions_fail(*m, i as int, m.entries@.len() as int);
                        }
                        return None;
                    },
                }
                i += 1;
            }
            let dims = StrMap { entries };
            assert(dims.spec_keys() =~= m.spec_keys());
            Some(dims)
        },
        _ => None,
    }
}

/// Reads the hierarchy from the member `classical_hierarchy` of a schema
/// document. A document without that member gives `MissingField` with the
/// member's name; a member of another shape gives `MalformedHierarchy`.
pub fn extract_classical_hierarchy(json_schema: &JsonValue) -> (r: Result<
    ClassicalHierarchy,
    SchemaError,
>)
    ensures
        match json_schema.spec_member("classical_hierarchy"@) {
            None => r matches Err(SchemaError::MissingField(name)) && name@
                == "classical_hierarchy"@,
            Some(v) => match hierarchy_of(v) {
                Some(h) => r matches Ok(found) && found.deep_view() == h,
                None => r matches Err(SchemaError::MalformedHierarchy),
            },
        },
{
    match json_schema.get("classical_hierarchy") {
        None => Err(SchemaError::MissingField(String::from_str("classical_hierarchy"))),
        Some(v) => match parse_hierarchy(v) {
            Some(h) => Ok(h),
            None => Err(SchemaError::MalformedHierarchy),
        },
    }
}

/// Reads the facet dimensions from the member `faceted_dimensions` of a
/// schema document. A document without that member gives `MissingField` with
/// the member's name; a member that is not an object of arrays of strings
/// gives `MalformedDimensions`.
pub fn extract_faceted_dimensions(json_schema: &JsonValue) -> (r: Result<
    StrMap<Vec<String>>,
    SchemaError,
>)
    ensures
        match json_schema.spec_member("faceted_dimensions"@) {
            None => r matches Err(SchemaError::MissingField(name)) && name@
                == "faceted_dimensions"@,
            Some(v) => match dimensions_of(v) {
                Some(d) => r matches Ok(found) && found.text_lists() == d,
                None => r matches Err(SchemaError::MalformedDimensions),
            },
        },
{
    match json_schema.get("faceted_dimensions") {
        None => Err(SchemaError::MissingField(String::from_str("faceted_dimensions"))),
        Some(v) => match parse_dimensions(v) {
            Some(d) => Ok(d),
            None => Err(SchemaError::MalformedDimensions),
        },
    }
}

/// The text of the member called `key`, or `fallback` where the document
/// has no such string.
pub open spec fn text_or(doc: JsonValue, key: Seq<char>, fallback: Seq<char>) -> Seq<char> {
    match doc.spec_member(key) {
        Some(JsonValue::Text(s)) => s@,
        _ => fallback,
    }
}

fn member_text(doc: &JsonValue, key: &str) -> (r: Option<String>)
    ensures
        match r {
            Some(s) => doc.spec_member(key@) matches Some(JsonValue::Text(t)) && t@ == s@,
            None => !(doc.spec_member(key@) matches Some(JsonValue::Text(t))),
        },
{
    match doc.get(key) {
        Some(JsonValue::Text(s)) => Some(s.clone()),
        _ => None,
    }
}

/// Whether a schema can be built from the document: it has a hierarchy and
/// facet dimensions of the right shape.
pub open spec fn readable(doc: JsonValue) -> bool {
    &&& doc.spec_member("classical_hierarchy"@) matches Some(hv) && hierarchy_of(hv) is Some
    &&& doc.spec_member("faceted_dimensions"@) matches Some(dv) && dimensions_of(dv) is Some
}

/// Builds the schema from a schema document and keeps the document with it.
/// The identifier is the string `$id`, or `unknown`; the title is the string
/// `title`, or `Untitled Taxonomy`; the description is the string
/// `description`, if there is one. The hierarchy is read first: where both
/// the hierarchy and the dimensions fail, the error is that of the hierarchy.
#[verifier::rlimit(50)]
pub fn build_schema_from_json(json_schema: JsonValue) -> (r: Result<TaxonomySchema, SchemaError>)
    ensures
        r is Ok <==> readable(json_schema),
        match json_schema.spec_member("classical_hierarchy"@) {
            None => r matches Err(SchemaError::MissingField(name)) && name@
                == "classical_hierarchy"@,
            Some(hv) => match hierarchy_of(hv) {
                None => r matches Err(SchemaError::MalformedHierarchy),
                Some(h) => match json_schema.spec_member("faceted_dimensions"@) {
                    None => r matches Err(SchemaError::MissingField(name)) && name@
                        == "faceted_dimensions"@,
                    Some(dv) => match dimensions_of(dv) {
                        None => r matches Err(SchemaError::MalformedDimensions),
                        Some(d) => r matches Ok(schema) && schema.classical_hierarchy.deep_view()
                            == h && schema.faceted_dimensions.text_lists() == d
                            && schema.schema_id@ == text_or(json_schema, "$id"@, "unknown"@)
                            && schema.title@ == text_or(
                            json_schema,
                            "title"@,
                            "Untitled Taxonomy"@,
                        ) && (match schema.description {
                            Some(text) => json_schema.spec_member("description"@) matches Some(
                                JsonValue::Text(t),
                            ) && t@ == text@,
                            None => !(json_schema.spec_member("description"@) matches Some(
                                JsonValue::Text(t),
                            )),
                        }) && schema.json_schema == Some(json_schema),
                    },
                },
            },
        },
{
    let schema_id = match member_text(&json_schema, "$id") {
        Some(s) => s,
        None => String::from_str("unknown"),
    };
    let title = match member_text(&json_schema, "title") {
        Some(s) => s,
        None => String::from_str("Untitled Taxonomy"),
    };
    let description = member_text(&json_schema, "description");
    let classical_hierarchy = match extract_classical_hierarchy(&json_schema) {
        Ok(h) => h,
        Err(e) => {
            return Err(e);
        },
    };
    let faceted_dimensions = match extract_faceted_dimensions(&json_schema) {
        Ok(d) => d,
        Err(e) => {
            return Err(e);
        },
    };
    Ok(
        TaxonomySchema {
            schema_id,
            title,
            description,
            classical_hierarchy,
            faceted_dimensions,
            json_schema: Some(json_schema),
        },
    )
}

} // verus!
