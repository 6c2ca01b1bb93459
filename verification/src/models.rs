//! The value model: hierarchy nodes, facet dimensions, items, schema and data.

use crate::json::{
    clone_members, json_model, json_models, lemma_model_of_array, JsonValue,
};
use crate::strmap::{lemma_position_bounds, position, StrMap};
use crate::text::{join, join_texts, lemma_texts_push, texts};
use vstd::prelude::*;

verus! {

/// A node of the classical hierarchy: a species under its genus, told apart
/// from its siblings by its differentia.
#[derive(Debug, PartialEq, Eq)]
pub struct HierarchyNode {
    pub genus: String,
    pub species: String,
    pub differentia: String,
    pub children: Option<Vec<HierarchyNode>>,
}

/// The classical hierarchy: one rooted tree.
#[derive(Debug, PartialEq, Eq)]
pub struct ClassicalHierarchy {
    pub root: String,
    pub children: Option<Vec<HierarchyNode>>,
}

/// A catalogued item.
#[derive(Debug, PartialEq, Eq)]
pub struct Item {
    pub name: String,
    pub classical_path: Vec<String>,
    pub facets: StrMap<JsonValue>,
    /// Fields that the model does not know, kept as they came.
    pub extra: StrMap<JsonValue>,
}

/// A taxonomy held in one document: hierarchy, facet dimensions and items.
#[derive(Debug, PartialEq, Eq)]
pub struct HybridTaxonomy {
    pub taxonomy_description: Option<String>,
    pub classical_hierarchy: ClassicalHierarchy,
    pub faceted_dimensions: StrMap<Vec<String>>,
    pub example_items: Option<Vec<Item>>,
    pub extra: StrMap<JsonValue>,
}

/// A schema: the hierarchy and the facet dimensions, with the raw document
/// they were taken from.
#[derive(Debug, PartialEq, Eq)]
pub struct TaxonomySchema {
    pub schema_id: String,
    pub title: String,
    pub description: Option<String>,
    pub classical_hierarchy: ClassicalHierarchy,
    pub faceted_dimensions: StrMap<Vec<String>>,
    pub json_schema: Option<JsonValue>,
}

/// A data document: the name of its schema file and the items.
#[derive(Debug, PartialEq, Eq)]
pub struct TaxonomyData {
    pub schema: String,
    pub items: Vec<Item>,
    pub extra: StrMap<JsonValue>,
}

/// A query: genus names of which one must match, and for each facet name the
/// values of which one must match.
#[derive(Debug, PartialEq, Eq)]
pub struct Filters {
    pub genera: Vec<String>,
    pub facets: StrMap<Vec<String>>,
}

/// The mathematical model of a hierarchy node.
pub struct NodeModel {
    pub genus: Seq<char>,
    pub species: Seq<char>,
    pub differentia: Seq<char>,
    pub children: Option<Seq<NodeModel>>,
}

/// The mathematical model of a hierarchy.
pub struct HierarchyModel {
    pub root: Seq<char>,
    pub children: Option<Seq<NodeModel>>,
}

/// The mathematical model of an item.
pub struct ItemModel {
    pub name: Seq<char>,
    pub classical_path: Seq<Seq<char>>,
    pub facets: Seq<(Seq<char>, crate::json::JsonModel)>,
    pub extra: Seq<(Seq<char>, crate::json::JsonModel)>,
}

/// The model of a node.
pub open spec fn node_model(n: HierarchyNode) -> NodeModel
    decreases n,
{
    NodeModel {
        genus: n.genus@,
        species: n.species@,
        differentia: n.differentia@,
        children: match n.children {
            Some(v) => Some(
                Seq::new(
                    v@.len(),
                    |i: int|
                        if 0 <= i < v@.len() {
                            node_model(v@[i])
                        } else {
                            arbitrary()
                        },
                ),
            ),
            None => None,
        },
    }
}

/// The models of a sequence of nodes.
pub open spec fn node_models(v: Seq<HierarchyNode>) -> Seq<NodeModel> {
    Seq::new(v.len(), |i: int| node_model(v[i]))
}

/// The models of an optional list of nodes.
pub open spec fn children_model(c: Option<Vec<HierarchyNode>>) -> Option<Seq<NodeModel>> {
    match c {
        Some(v) => Some(node_models(v@)),
        None => None,
    }
}

/// The model of a node holds the models of its children.
pub proof fn lemma_node_model(n: HierarchyNode)
    ensures
        node_model(n).children == children_model(n.children),
        node_model(n).genus == n.genus@,
        node_model(n).species == n.species@,
        node_model(n).differentia == n.differentia@,
{
    match n.children {
        Some(v) => {
            assert(node_model(n).children->0 =~= node_models(v@));
        },
        None => {},
    }
}

impl DeepView for HierarchyNode {
    type V = NodeModel;

    open spec fn deep_view(&self) -> NodeModel {
        node_model(*self)
    }
}

impl DeepView for ClassicalHierarchy {
    type V = HierarchyModel;

    open spec fn deep_view(&self) -> HierarchyModel {
        HierarchyModel { root: self.root@, children: children_model(self.children) }
    }
}

impl DeepView for Item {
    type V = ItemModel;

    open spec fn deep_view(&self) -> ItemModel {
        ItemModel {
            name: self.name@,
            classical_path: texts(self.classical_path@),
            facets: self.facets.deep_view(),
            extra: self.extra.deep_view(),
        }
    }
}

/// The models of a sequence of items.
pub open spec fn item_models(v: Seq<Item>) -> Seq<ItemModel> {
    Seq::new(v.len(), |i: int| v[i].deep_view())
}

/// The texts among the elements of an array, in order; other elements are left out.
pub open spec fn text_elements(a: Seq<JsonValue>) -> Seq<Seq<char>>
    decreases a.len(),
{
    if a.len() == 0 {
        Seq::<Seq<char>>::empty()
    } else {
        match a.last() {
            JsonValue::Text(s) => text_elements(a.drop_last()).push(s@),
            _ => text_elements(a.drop_last()),
        }
    }
}

/// A facet value as a list of texts: a string is a list of one, an array gives
/// its string elements, anything else gives none.
pub open spec fn facet_texts(v: JsonValue) -> Seq<Seq<char>> {
    match v {
        JsonValue::Text(s) => seq![s@],
        JsonValue::Array(a) => text_elements(a@),
        _ => Seq::<Seq<char>>::empty(),
    }
}

/// A facet value as one text: a string as it is, an array with string
/// elements joined by `", "`, anything else none.
pub open spec fn facet_label(v: JsonValue) -> Option<Seq<char>> {
    match v {
        JsonValue::Text(s) => Some(s@),
        JsonValue::Array(a) => if text_elements(a@).len() == 0 {
            None
        } else {
            Some(join(text_elements(a@), ", "@))
        },
        _ => None,
    }
}

/// A copy of a list of strings.
pub fn clone_strings(v: &Vec<String>) -> (r: Vec<String>)
    ensures
        texts(r@) == texts(v@),
{
    let mut out: Vec<String> = Vec::new();
    let mut i: usize = 0;
    while i < v.len()
        invariant
            i <= v@.len(),
            out@.len() == i,
            forall|j: int| 0 <= j < i ==> (#[trigger] out@[j])@ == v@[j]@,
        decreases v@.len() - i,
    {
        out.push(v[i].clone());
        i += 1;
    }
    assert(texts(out@) =~= texts(v@));
    out
}

/// The string elements of an array, in order.
pub fn string_elements(a: &Vec<JsonValue>) -> (r: Vec<String>)
    ensures
        texts(r@) == text_elements(a@),
{
    let mut out: Vec<String> = Vec::new();
    let mut i: usize = 0;
    while i < a.len()
        invariant
            i <= a@.len(),
            texts(out@) == text_elements(a@.take(i as int)),
        decreases a@.len() - i,
    {
        assert(a@.take(i + 1).drop_last() =~= a@.take(i as int));
        assert(a@.take(i + 1).last() == a@[i as int]);
        match &a[i] {
            JsonValue::Text(s) => {
                let piece = s.clone();
                proof {
                    lemma_texts_push(out@, piece);
                }
                out.push(piece);
            },
            _ => {},
        }
        i += 1;
    }
    assert(a@.take(a@.len() as int) =~= a@);
    out
}

impl Item {
    /// The value of the facet called `name`.
    pub open spec fn spec_facet(&self, name: Seq<char>) -> Option<JsonValue> {
        self.facets.spec_get(name)
    }

    /// The texts of the facet called `name`; none where the item lacks it.
    pub open spec fn spec_facet_texts(&self, name: Seq<char>) -> Seq<Seq<char>> {
        match self.spec_facet(name) {
            Some(v) => facet_texts(v),
            None => Seq::<Seq<char>>::empty(),
        }
    }

    /// The facet called `name` as one text.
    pub open spec fn spec_facet_label(&self, name: Seq<char>) -> Option<Seq<char>> {
        match self.spec_facet(name) {
            Some(v) => facet_label(v),
            None => None,
        }
    }

    /// The facet called `facet_name` as one text: a string as it is, the
    /// string elements of an array joined by `", "`.
    pub fn get_facet_as_string(&self, facet_name: &str) -> (r: Option<String>)
        ensures
            match r {
                Some(s) => self.spec_facet_label(facet_name@) == Some(s@),
                None => self.spec_facet_label(facet_name@) is None,
            },
    {
        match self.facets.get(facet_name) {
            Some(JsonValue::Text(s)) => Some(s.clone()),
            Some(JsonValue::Array(a)) => {
                let values = string_elements(a);
                if values.len() == 0 {
                    assert(texts(values@).len() == 0);
                    None
                } else {
                    assert(texts(values@).len() == values@.len());
                    Some(join_texts(&values, ", "))
                }
            },
            _ => None,
        }
    }

    /// The facet called `facet_name` as a list of texts: one for a string,
    /// the string elements of an array, none where the facet is missing.
    pub fn get_facet_as_vec(&self, facet_name: &str) -> (r: Vec<String>)
        ensures
            texts(r@) == self.spec_facet_texts(facet_name@),
    {
        match self.facets.get(facet_name) {
            Some(JsonValue::Text(s)) => {
                let mut out: Vec<String> = Vec::new();
                out.push(s.clone());
                assert(texts(out@) =~= seq![s@]);
                out
            },
            Some(JsonValue::Array(a)) => string_elements(a),
            _ => {
                let out: Vec<String> = Vec::new();
                assert(texts(out@) =~= Seq::<Seq<char>>::empty());
                out
            },
        }
    }
}

/// A copy of a list of nodes, with all nodes below them.
pub fn clone_nodes(nodes: &Vec<HierarchyNode>) -> (r: Vec<HierarchyNode>)
    ensures
        node_models(r@) == node_models(nodes@),
    decreases nodes,
{
    let mut out: Vec<HierarchyNode> = Vec::new();
    let mut i: usize = 0;
    while i < nodes.len()
        invariant
            i <= nodes@.len(),
            out@.len() == i,
            forall|j: int| 0 <= j < i ==> node_model(#[trigger] out@[j]) == node_model(nodes@[j]),
        decreases nodes@.len() - i,
    {
        let node = &nodes[i];
        assert(decreases_to!(nodes@ => nodes@[i as int]));
        let children = match &node.children {
            Some(below) => Some(clone_nodes(below)),
            None => None,
        };
        let copy = HierarchyNode {
            genus: node.genus.clone(),
            species: node.species.clone(),
            differentia: node.differentia.clone(),
            children,
        };
        proof {
            lemma_node_model(copy);
            lemma_node_model(*node);
            lemma_node_by_parts(copy, *node);
        }
        out.push(copy);
        i += 1;
    }
    assert(node_models(out@) =~= node_models(nodes@));
    out
}

/// Nodes with the same texts and the same models of children have the same model.
pub proof fn lemma_node_by_parts(x: HierarchyNode, y: HierarchyNode)
    requires
        x.genus@ == y.genus@,
        x.species@ == y.species@,
        x.differentia@ == y.differentia@,
        children_model(x.children) == children_model(y.children),
    ensures
        node_model(x) == node_model(y),
{
    lemma_node_model(x);
    lemma_node_model(y);
}

impl Clone for HierarchyNode {
    fn clone(&self) -> (r: Self)
        ensures
            r.deep_view() == self.deep_view(),
    {
        let children = match &self.children {
            Some(below) => Some(clone_nodes(below)),
            None => None,
        };
        let copy = HierarchyNode {
            genus: self.genus.clone(),
            species: self.species.clone(),
            differentia: self.differentia.clone(),
            children,
        };
        proof {
            lemma_node_by_parts(copy, *self);
        }
        copy
    }
}

impl Clone for ClassicalHierarchy {
    fn clone(&self) -> (r: Self)
        ensures
            r.deep_view() == self.deep_view(),
    {
        let children = match &self.children {
            Some(below) => Some(clone_nodes(below)),
            None => None,
        };
        ClassicalHierarchy { root: self.root.clone(), children }
    }
}

/// A copy of a map of lists of strings.
pub fn clone_lists(m: &StrMap<Vec<String>>) -> (r: StrMap<Vec<String>>)
    ensures
        r.text_lists() == m.text_lists(),
{
    let mut entries: Vec<(String, Vec<String>)> = Vec::new();
    let mut i: usize = 0;
    while i < m.entries.len()
        invariant
            i <= m.entries@.len(),
            entries@.len() == i,
            forall|j: int|
                0 <= j < i ==> (#[trigger] entries@[j]).0@ == m.entries@[j].0@ && texts(
                    entries@[j].1@,
                ) == texts(m.entries@[j].1@),
        decreases m.entries@.len() - i,
    {
        let key = m.entries[i].0.clone();
        let list = clone_strings(&m.entries[i].1);
        entries.push((key, list));
        i += 1;
    }
    let r = StrMap { entries };
    assert(r.text_lists() =~= m.text_lists());
    r
}

/// A copy of a list of items.
pub fn clone_items(items: &Vec<Item>) -> (r: Vec<Item>)
    ensures
        item_models(r@) == item_models(items@),
{
    let mut out: Vec<Item> = Vec::new();
    let mut i: usize = 0;
    while i < items.len()
        invariant
            i <= items@.len(),
            out@.len() == i,
            forall|j: int| 0 <= j < i ==> (#[trigger] out@[j]).deep_view() == items@[j].deep_view(),
        decreases items@.len() - i,
    {
        out.push(items[i].clone());
        i += 1;
    }
    assert(item_models(out@) =~= item_models(items@));
    out
}

impl Clone for TaxonomySchema {
    fn clone(&self) -> (r: Self)
        ensures
            r.schema_id@ == self.schema_id@,
            r.title@ == self.title@,
            r.description == self.description,
            r.classical_hierarchy.deep_view() == self.classical_hierarchy.deep_view(),
            r.faceted_dimensions.text_lists() == self.faceted_dimensions.text_lists(),
            match (r.json_schema, self.json_schema) {
                (Some(a), Some(b)) => json_model(a) == json_model(b),
                (None, None) => true,
                _ => false,
            },
    {
        TaxonomySchema {
            schema_id: self.schema_id.clone(),
            title: self.title.clone(),
            description: match &self.description {
                Some(d) => Some(d.clone()),
                None => None,
            },
            classical_hierarchy: self.classical_hierarchy.clone(),
            faceted_dimensions: clone_lists(&self.faceted_dimensions),
            json_schema: match &self.json_schema {
                Some(doc) => Some(crate::json::clone_json(doc)),
                None => None,
            },
        }
    }
}

impl Clone for Item {
    fn clone(&self) -> (r: Self)
        ensures
            r.deep_view() == self.deep_view(),
    {
        Item {
            name: self.name.clone(),
            classical_path: clone_strings(&self.classical_path),
            facets: clone_members(&self.facets),
            extra: clone_members(&self.extra),
        }
    }
}

/// The string elements of an array depend on the models of its elements alone.
pub proof fn lemma_text_elements_by_model(a: Seq<JsonValue>, b: Seq<JsonValue>)
    requires
        json_models(a) == json_models(b),
    ensures
        text_elements(a) == text_elements(b),
    decreases a.len(),
{
    assert(a.len() == json_models(a).len());
    assert(b.len() == json_models(b).len());
    if a.len() > 0 {
        assert(json_models(a.drop_last()) =~= json_models(a).drop_last());
        assert(json_models(b.drop_last()) =~= json_models(b).drop_last());
        lemma_text_elements_by_model(a.drop_last(), b.drop_last());
        assert(json_model(a.last()) == json_models(a)[a.len() - 1]);
        assert(json_model(b.last()) == json_models(b)[b.len() - 1]);
    }
}

/// What a facet value shows depends on its model alone.
pub proof fn lemma_facet_by_model(v: JsonValue, w: JsonValue)
    requires
        json_model(v) == json_model(w),
    ensures
        facet_texts(v) == facet_texts(w),
        facet_label(v) == facet_label(w),
{
    match (v, w) {
        (JsonValue::Array(a), JsonValue::Array(b)) => {
            lemma_model_of_array(a);
            lemma_model_of_array(b);
            lemma_text_elements_by_model(a@, b@);
        },
        _ => {},
    }
}

/// What an item shows of a facet depends on the model of the item alone.
#[verifier::rlimit(50)]
pub proof fn lemma_item_facet_by_model(x: Item, y: Item, name: Seq<char>)
    requires
        x.deep_view() == y.deep_view(),
    ensures
        x.spec_facet_texts(name) == y.spec_facet_texts(name),
        x.spec_facet_label(name) == y.spec_facet_label(name),
{
    let fx = x.facets.deep_view();
    let fy = y.facets.deep_view();
    assert(fx.len() == x.facets.entries@.len());
    assert(fy.len() == y.facets.entries@.len());
    assert(x.facets.spec_keys() =~= y.facets.spec_keys()) by {
        assert forall|i: int| 0 <= i < x.facets.entries@.len() implies x.facets.spec_keys()[i]
            == y.facets.spec_keys()[i] by {
            assert(fx[i].0 == fy[i].0);
        }
    }
    lemma_position_bounds(x.facets.spec_keys(), name);
    let p = position(x.facets.spec_keys(), name);
    if p < x.facets.entries@.len() {
        assert(fx[p].1 == fy[p].1);
        lemma_facet_by_model(x.facets.entries@[p].1, y.facets.entries@[p].1);
    }
}

} // verus!
