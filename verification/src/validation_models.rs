//! The violations of a schema with its data depend on the models alone: two
//! hierarchies, two sets of facet dimensions and two lists of items with the
//! same models have the same violations.

use crate::json::{json_model, json_models, lemma_model_of_array, JsonValue};
use crate::models::{
    children_model, item_models, lemma_node_model, node_model, node_models, ClassicalHierarchy,
    HierarchyNode, Item,
};
use crate::strmap::{lemma_position_bounds, position, StrMap};
use crate::text::texts;
use crate::validation::{
    array_errors, dimensions_errors, dimensions_errors_upto, facet_errors, facets_errors_upto,
    hierarchy_edges, hierarchy_errors, item_errors, items_errors_in, items_errors_upto,
    name_repeated, node_errors, nodes_errors, paths_after, paths_after_nodes, species_of,
    validation_errors,
};
use vstd::prelude::*;

verus! {

/// The violations of a list of siblings depend on the models of the nodes alone.
pub proof fn lemma_nodes_errors_by_model(
    a: Seq<HierarchyNode>,
    b: Seq<HierarchyNode>,
    parent: Seq<char>,
)
    requires
        node_models(a) == node_models(b),
    ensures
        nodes_errors(a, parent) == nodes_errors(b, parent),
    decreases a, 0nat,
{
    assert(a.len() == node_models(a).len());
    assert(b.len() == node_models(b).len());
    if a.len() > 0 {
        assert(node_models(a.drop_last()) =~= node_models(a).drop_last());
        assert(node_models(b.drop_last()) =~= node_models(b).drop_last());
        lemma_nodes_errors_by_model(a.drop_last(), b.drop_last(), parent);
        assert(node_model(a.last()) == node_models(a)[a.len() - 1]);
        assert(node_model(b.last()) == node_models(b)[b.len() - 1]);
        lemma_node_errors_by_model(a.last(), b.last(), parent);
    }
}

/// The violations of a node depend on the model of the node alone.
pub proof fn lemma_node_errors_by_model(x: HierarchyNode, y: HierarchyNode, parent: Seq<char>)
    requires
        node_model(x) == node_model(y),
    ensures
        node_errors(x, parent) == node_errors(y, parent),
    decreases x, 1nat,
{
    lemma_node_model(x);
    lemma_node_model(y);
    match (x.children, y.children) {
        (Some(v), Some(w)) => {
            lemma_nodes_errors_by_model(v@, w@, x.species@);
        },
        _ => {},
    }
}

/// The species names of a list of nodes depend on the models alone.
pub proof fn lemma_species_by_model(a: Seq<HierarchyNode>, b: Seq<HierarchyNode>)
    requires
        node_models(a) == node_models(b),
    ensures
        species_of(a) == species_of(b),
{
    assert(a.len() == node_models(a).len());
    assert(b.len() == node_models(b).len());
    assert forall|i: int| 0 <= i < a.len() implies a[i].species@ == b[i].species@ by {
        lemma_node_model(a[i]);
        lemma_node_model(b[i]);
        assert(node_model(a[i]) == node_models(a)[i]);
        assert(node_model(b[i]) == node_models(b)[i]);
    }
    assert(species_of(a) =~= species_of(b));
}

/// The parent-to-children map after a list of nodes depends on the models alone.
pub proof fn lemma_paths_by_model(
    a: Seq<HierarchyNode>,
    b: Seq<HierarchyNode>,
    m: Map<Seq<char>, Seq<Seq<char>>>,
)
    requires
        node_models(a) == node_models(b),
    ensures
        paths_after_nodes(a, m) == paths_after_nodes(b, m),
    decreases a, 0nat,
{
    assert(a.len() == node_models(a).len());
    assert(b.len() == node_models(b).len());
    if a.len() > 0 {
        assert(node_models(a.drop_last()) =~= node_models(a).drop_last());
        assert(node_models(b.drop_last()) =~= node_models(b).drop_last());
        lemma_paths_by_model(a.drop_last(), b.drop_last(), m);
        assert(node_model(a.last()) == node_models(a)[a.len() - 1]);
        assert(node_model(b.last()) == node_models(b)[b.len() - 1]);
        lemma_node_model(a.last());
        lemma_node_model(b.last());
        lemma_children_paths_by_model(
            a.last().species@,
            a.last().children,
            b.last().children,
            paths_after_nodes(a.drop_last(), m),
        );
    }
}

/// The parent-to-children map after the children of a node depends on the models alone.
pub proof fn lemma_children_paths_by_model(
    parent: Seq<char>,
    x: Option<Vec<HierarchyNode>>,
    y: Option<Vec<HierarchyNode>>,
    m: Map<Seq<char>, Seq<Seq<char>>>,
)
    requires
        children_model(x) == children_model(y),
    ensures
        paths_after(parent, x, m) == paths_after(parent, y, m),
    decreases x, 1nat,
{
    match (x, y) {
        (Some(v), Some(w)) => {
            assert(v@.len() == node_models(v@).len());
            assert(w@.len() == node_models(w@).len());
            lemma_paths_by_model(v@, w@, m);
            lemma_species_by_model(v@, w@);
        },
        _ => {},
    }
}

/// The violations and the parent-to-children map of a hierarchy depend on its model alone.
pub proof fn lemma_hierarchy_by_model(g: ClassicalHierarchy, h: ClassicalHierarchy)
    requires
        g.deep_view() == h.deep_view(),
    ensures
        hierarchy_errors(g) == hierarchy_errors(h),
        hierarchy_edges(g) == hierarchy_edges(h),
        g.root@ == h.root@,
{
    lemma_children_paths_by_model(g.root@, g.children, h.children, Map::empty());
    match (g.children, h.children) {
        (Some(v), Some(w)) => {
            lemma_nodes_errors_by_model(v@, w@, g.root@);
        },
        _ => {},
    }
}

/// The violations of facet dimensions depend on their names and texts alone.
pub proof fn lemma_dimensions_by_model(c: StrMap<Vec<String>>, d: StrMap<Vec<String>>, upto: int)
    requires
        c.text_lists() == d.text_lists(),
        upto <= c.entries@.len(),
    ensures
        c.entries@.len() == d.entries@.len(),
        dimensions_errors_upto(c, upto) == dimensions_errors_upto(d, upto),
    decreases upto,
{
    assert(c.entries@.len() == c.text_lists().len());
    assert(d.entries@.len() == d.text_lists().len());
    if upto > 0 {
        lemma_dimensions_by_model(c, d, upto - 1);
        assert(c.text_lists()[upto - 1] == d.text_lists()[upto - 1]);
    }
}

/// What facet dimensions hold under a name depends on their names and texts alone.
pub proof fn lemma_allowed_by_model(c: StrMap<Vec<String>>, d: StrMap<Vec<String>>, name: Seq<char>)
    requires
        c.text_lists() == d.text_lists(),
    ensures
        c.has_key(name) == d.has_key(name),
        c.has_key(name) ==> texts(c.spec_get(name)->0@) == texts(d.spec_get(name)->0@),
{
    assert(c.entries@.len() == c.text_lists().len());
    assert(d.entries@.len() == d.text_lists().len());
    assert(c.spec_keys() =~= d.spec_keys()) by {
        assert forall|i: int| 0 <= i < c.entries@.len() implies c.spec_keys()[i]
            == d.spec_keys()[i] by {
            assert(c.text_lists()[i].0 == d.text_lists()[i].0);
        }
    }
    lemma_position_bounds(c.spec_keys(), name);
    let p = position(c.spec_keys(), name);
    if p < c.entries@.len() {
        assert(c.text_lists()[p].1 == d.text_lists()[p].1);
    }
}

/// The violations of the elements of an array depend on the models of the elements alone.
pub proof fn lemma_array_errors_by_model(
    label: Seq<char>,
    facet: Seq<char>,
    a: Seq<JsonValue>,
    b: Seq<JsonValue>,
    allowed: Seq<Seq<char>>,
)
    requires
        json_models(a) == json_models(b),
    ensures
        array_errors(label, facet, a, allowed) == array_errors(label, facet, b, allowed),
    decreases a.len(),
{
    assert(a.len() == json_models(a).len());
    assert(b.len() == json_models(b).len());
    if a.len() > 0 {
        assert(json_models(a.drop_last()) =~= json_models(a).drop_last());
        assert(json_models(b.drop_last()) =~= json_models(b).drop_last());
        lemma_array_errors_by_model(label, facet, a.drop_last(), b.drop_last(), allowed);
        assert(json_model(a.last()) == json_models(a)[a.len() - 1]);
        assert(json_model(b.last()) == json_models(b)[b.len() - 1]);
    }
}

/// The violations of a facet depend on the model of its value and on the
/// names and texts of the facet dimensions alone.
pub proof fn lemma_facet_errors_by_model(
    label: Seq<char>,
    facet: Seq<char>,
    v: JsonValue,
    w: JsonValue,
    c: StrMap<Vec<String>>,
    d: StrMap<Vec<String>>,
)
    requires
        json_model(v) == json_model(w),
        c.text_lists() == d.text_lists(),
    ensures
        facet_errors(label, facet, v, c) == facet_errors(label, facet, w, d),
{
    lemma_allowed_by_model(c, d, facet);
    if c.has_key(facet) {
        let allowed = texts(c.spec_get(facet)->0@);
        match (v, w) {
            (JsonValue::Array(a), JsonValue::Array(b)) => {
                lemma_model_of_array(a);
                lemma_model_of_array(b);
                assert(a@.len() == json_models(a@).len());
                assert(b@.len() == json_models(b@).len());
                lemma_array_errors_by_model(label, facet, a@, b@, allowed);
            },
            _ => {},
        }
    }
}

/// The violations of the facets of an item depend on the models alone.
pub proof fn lemma_facets_errors_by_model(
    label: Seq<char>,
    f: StrMap<JsonValue>,
    g: StrMap<JsonValue>,
    c: StrMap<Vec<String>>,
    d: StrMap<Vec<String>>,
    upto: int,
)
    requires
        f.deep_view() == g.deep_view(),
        c.text_lists() == d.text_lists(),
        upto <= f.entries@.len(),
    ensures
        f.entries@.len() == g.entries@.len(),
        facets_errors_upto(label, f, c, upto) == facets_errors_upto(label, g, d, upto),
    decreases upto,
{
    assert(f.entries@.len() == f.deep_view().len());
    assert(g.entries@.len() == g.deep_view().len());
    if upto > 0 {
        lemma_facets_errors_by_model(label, f, g, c, d, upto - 1);
        assert(f.deep_view()[upto - 1] == g.deep_view()[upto - 1]);
        lemma_facet_errors_by_model(
            label,
            f.entries@[upto - 1].0@,
            f.entries@[upto - 1].1,
            g.entries@[upto - 1].1,
            c,
            d,
        );
    }
}

/// The violations of an item depend on the models alone.
pub proof fn lemma_item_errors_by_model(
    a: Seq<Item>,
    b: Seq<Item>,
    idx: int,
    root: Seq<char>,
    edges: Map<Seq<char>, Seq<Seq<char>>>,
    c: StrMap<Vec<String>>,
    d: StrMap<Vec<String>>,
)
    requires
        item_models(a) == item_models(b),
        c.text_lists() == d.text_lists(),
        0 <= idx < a.len(),
    ensures
        item_errors(a, idx, root, edges, c) == item_errors(b, idx, root, edges, d),
{
    assert(a.len() == item_models(a).len());
    assert(b.len() == item_models(b).len());
    assert forall|j: int| 0 <= j < a.len() implies a[j].name@ == b[j].name@ by {
        assert(a[j].deep_view() == item_models(a)[j]);
        assert(b[j].deep_view() == item_models(b)[j]);
    }
    assert(a[idx].deep_view() == item_models(a)[idx]);
    assert(b[idx].deep_view() == item_models(b)[idx]);
    assert(name_repeated(a, idx) == name_repeated(b, idx)) by {
        if name_repeated(a, idx) {
            let j = choose|j: int| 0 <= j < a.len() && j != idx && #[trigger] a[j].name@ == a[idx].name@;
            assert(b[j].name@ == b[idx].name@);
        }
        if name_repeated(b, idx) {
            let j = choose|j: int| 0 <= j < b.len() && j != idx && #[trigger] b[j].name@ == b[idx].name@;
            assert(a[j].name@ == a[idx].name@);
        }
    }
    lemma_facets_errors_by_model(
        crate::validation::item_ref(idx as nat, a[idx].name@),
        a[idx].facets,
        b[idx].facets,
        c,
        d,
        a[idx].facets.entries@.len() as int,
    );
}

/// The violations of the first items depend on the models alone.
pub proof fn lemma_items_errors_by_model(
    a: Seq<Item>,
    b: Seq<Item>,
    root: Seq<char>,
    edges: Map<Seq<char>, Seq<Seq<char>>>,
    c: StrMap<Vec<String>>,
    d: StrMap<Vec<String>>,
    upto: int,
)
    requires
        item_models(a) == item_models(b),
        c.text_lists() == d.text_lists(),
        upto <= a.len(),
    ensures
        items_errors_upto(a, root, edges, c, upto) == items_errors_upto(b, root, edges, d, upto),
    decreases upto,
{
    if upto > 0 {
        lemma_items_errors_by_model(a, b, root, edges, c, d, upto - 1);
        lemma_item_errors_by_model(a, b, upto - 1, root, edges, c, d);
    }
}

/// The violations of a schema with its data depend on the models alone:
/// hierarchies with the same model, facet dimensions with the same names and
/// texts, and items with the same models have the same violations.
pub proof fn lemma_validation_by_model(
    g: ClassicalHierarchy,
    c: StrMap<Vec<String>>,
    a: Seq<Item>,
    h: ClassicalHierarchy,
    d: StrMap<Vec<String>>,
    b: Seq<Item>,
)
    requires
        g.deep_view() == h.deep_view(),
        c.text_lists() == d.text_lists(),
        item_models(a) == item_models(b),
    ensures
        validation_errors(g, c, a) == validation_errors(h, d, b),
{
    lemma_hierarchy_by_model(g, h);
    lemma_dimensions_by_model(c, d, c.entries@.len() as int);
    assert(dimensions_errors(c) == dimensions_errors(d));
    assert(a.len() == item_models(a).len());
    assert(b.len() == item_models(b).len());
    lemma_items_errors_by_model(a, b, g.root@, hierarchy_edges(g), c, d, a.len() as int);
    assert(items_errors_in(a, g, c) == items_errors_in(b, h, d));
}

} // verus!
