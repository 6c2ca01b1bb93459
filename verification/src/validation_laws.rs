//! What validation guarantees: facts about the violations that the domain
//! validator reports, proved from its definitions.

use crate::models::{ClassicalHierarchy, HierarchyNode, Item};
use crate::strmap::StrMap;
use crate::text::{is_blank, texts};
use crate::validation::{
    dimensions_errors, hierarchy_edges, hierarchy_errors, item_errors, item_path_errors, item_ref,
    items_errors_in, items_errors_upto, msg_duplicate_name, msg_name_empty, name_repeated,
    path_errors, paths_after, paths_after_nodes, species_of, validation_errors,
};
use vstd::prelude::*;

verus! {

/// Whether `child` is the species of one of `nodes`.
pub open spec fn names_child(nodes: Option<Vec<HierarchyNode>>, child: Seq<char>) -> bool {
    nodes is Some && species_of(nodes->0@).contains(child)
}

/// Whether, somewhere among `nodes` or below them, a node called `parent`
/// has a child called `child`.
pub open spec fn edge_among(nodes: Seq<HierarchyNode>, parent: Seq<char>, child: Seq<char>) -> bool
    decreases nodes, 0nat,
{
    nodes.len() > 0 && (edge_among(nodes.drop_last(), parent, child) || edge_at(
        nodes.last(),
        parent,
        child,
    ))
}

/// Whether the node is called `parent` and has a child called `child`, or
/// such an edge lies below it.
pub open spec fn edge_at(n: HierarchyNode, parent: Seq<char>, child: Seq<char>) -> bool
    decreases n, 1nat,
{
    (n.species@ == parent && names_child(n.children, child)) || match n.children {
        Some(v) => edge_among(v@, parent, child),
        None => false,
    }
}

/// Whether the hierarchy has an edge from a node called `parent` to a child
/// called `child`; the root counts as a node.
pub open spec fn is_tree_edge(h: ClassicalHierarchy, parent: Seq<char>, child: Seq<char>) -> bool {
    (h.root@ == parent && names_child(h.children, child)) || match h.children {
        Some(v) => edge_among(v@, parent, child),
        None => false,
    }
}

/// Whether the map holds `child` among the children of `parent`.
pub open spec fn has_edge(
    m: Map<Seq<char>, Seq<Seq<char>>>,
    parent: Seq<char>,
    child: Seq<char>,
) -> bool {
    m.contains_key(parent) && m[parent].contains(child)
}

/// Every edge of the map built over a list of nodes was in the map before or
/// is an edge among the nodes.
#[verifier::rlimit(50)]
pub proof fn lemma_edges_of_nodes(
    nodes: Seq<HierarchyNode>,
    m: Map<Seq<char>, Seq<Seq<char>>>,
    parent: Seq<char>,
    child: Seq<char>,
)
    requires
        has_edge(paths_after_nodes(nodes, m), parent, child),
    ensures
        has_edge(m, parent, child) || edge_among(nodes, parent, child),
    decreases nodes, 0nat,
{
    if nodes.len() > 0 {
        let before = paths_after_nodes(nodes.drop_last(), m);
        lemma_edges_of_children(nodes.last().species@, nodes.last().children, before, parent, child);
        if has_edge(before, parent, child) {
            lemma_edges_of_nodes(nodes.drop_last(), m, parent, child);
        } else {
            let n = nodes.last();
            assert(edge_at(n, parent, child)) by {
                if !(n.species@ == parent && names_child(n.children, child)) {
                    assert(n.children is Some && edge_among(n.children->0@, parent, child));
                }
            }
        }
    }
}

/// Every edge of the map built over the children of a node was in the map
/// before, or leads from that node to one of its children, or lies below.
#[verifier::rlimit(50)]
pub proof fn lemma_edges_of_children(
    name: Seq<char>,
    children: Option<Vec<HierarchyNode>>,
    m: Map<Seq<char>, Seq<Seq<char>>>,
    parent: Seq<char>,
    child: Seq<char>,
)
    requires
        has_edge(paths_after(name, children, m), parent, child),
    ensures
        has_edge(m, parent, child) || (name == parent && names_child(children, child)) || (
        children is Some && edge_among(children->0@, parent, child)),
    decreases children, 1nat,
{
    match children {
        None => {},
        Some(v) => {
            let below = paths_after_nodes(v@, m);
            if has_edge(below, parent, child) {
                lemma_edges_of_nodes(v@, m, parent, child);
            }
        },
    }
}

/// Every edge of the parent-to-children map of a hierarchy is an edge of the tree.
pub proof fn lemma_map_edges_are_tree_edges(
    h: ClassicalHierarchy,
    parent: Seq<char>,
    child: Seq<char>,
)
    requires
        has_edge(hierarchy_edges(h), parent, child),
    ensures
        is_tree_edge(h, parent, child),
{
    lemma_edges_of_children(h.root@, h.children, Map::empty(), parent, child);
}

/// A path without step violations runs along edges of the map.
pub proof fn lemma_clean_path_steps(
    label: Seq<char>,
    path: Seq<Seq<char>>,
    edges: Map<Seq<char>, Seq<Seq<char>>>,
    step: int,
)
    requires
        path_errors(label, path, edges).len() == 0,
        0 <= step < path.len() - 1,
    ensures
        has_edge(edges, path[step], path[step + 1]),
    decreases path.len(),
{
    if step < path.len() - 2 {
        lemma_clean_path_steps(label, path.drop_last(), edges, step);
    }
}

/// Where the items up to `upto` have no violations, none of them has any.
pub proof fn lemma_clean_items(
    items: Seq<Item>,
    root: Seq<char>,
    edges: Map<Seq<char>, Seq<Seq<char>>>,
    dims: StrMap<Vec<String>>,
    upto: int,
    k: int,
)
    requires
        items_errors_upto(items, root, edges, dims, upto).len() == 0,
        0 <= k < upto,
    ensures
        item_errors(items, k, root, edges, dims).len() == 0,
    decreases upto,
{
    if k < upto - 1 {
        lemma_clean_items(items, root, edges, dims, upto - 1, k);
    }
}

/// In data that pass validation every item's path starts with the root and
/// every step of it is an edge of the tree.
pub proof fn lemma_valid_paths_follow_tree(
    h: ClassicalHierarchy,
    dims: StrMap<Vec<String>>,
    items: Seq<Item>,
    k: int,
    step: int,
)
    requires
        validation_errors(h, dims, items).len() == 0,
        0 <= k < items.len(),
        0 <= step < items[k].classical_path@.len() - 1,
    ensures
        items[k].classical_path@.len() > 0,
        items[k].classical_path@[0]@ == h.root@,
        is_tree_edge(
            h,
            items[k].classical_path@[step]@,
            items[k].classical_path@[step + 1]@,
        ),
{
    let edges = hierarchy_edges(h);
    lemma_clean_items(items, h.root@, edges, dims, items.len() as int, k);
    let path = texts(items[k].classical_path@);
    let label = item_ref(k as nat, items[k].name@);
    assert(item_path_errors(label, path, h.root@, edges).len() == 0);
    lemma_clean_path_steps(label, path, edges, step);
    lemma_map_edges_are_tree_edges(h, path[step], path[step + 1]);
}

/// In data that pass validation every item has a path, and it starts with the root.
pub proof fn lemma_valid_paths_start_at_root(
    h: ClassicalHierarchy,
    dims: StrMap<Vec<String>>,
    items: Seq<Item>,
    k: int,
)
    requires
        validation_errors(h, dims, items).len() == 0,
        0 <= k < items.len(),
    ensures
        items[k].classical_path@.len() > 0,
        items[k].classical_path@[0]@ == h.root@,
{
    let edges = hierarchy_edges(h);
    lemma_clean_items(items, h.root@, edges, dims, items.len() as int, k);
    let path = texts(items[k].classical_path@);
    let label = item_ref(k as nat, items[k].name@);
    assert(item_path_errors(label, path, h.root@, edges).len() == 0);
}

/// The violations of item `k` are among the violations of the items up to `upto`.
pub proof fn lemma_item_errors_included(
    items: Seq<Item>,
    root: Seq<char>,
    edges: Map<Seq<char>, Seq<Seq<char>>>,
    dims: StrMap<Vec<String>>,
    upto: int,
    k: int,
    message: Seq<char>,
)
    requires
        0 <= k < upto,
        item_errors(items, k, root, edges, dims).contains(message),
    ensures
        items_errors_upto(items, root, edges, dims, upto).contains(message),
    decreases upto,
{
    let before = items_errors_upto(items, root, edges, dims, upto - 1);
    let last = item_errors(items, upto - 1, root, edges, dims);
    if k < upto - 1 {
        lemma_item_errors_included(items, root, edges, dims, upto - 1, k, message);
        let i = choose|i: int| 0 <= i < before.len() && before[i] == message;
        assert((before + last)[i] == message);
    } else {
        let i = choose|i: int| 0 <= i < last.len() && last[i] == message;
        assert((before + last)[before.len() + i] == message);
    }
}

/// An item whose name another item has too is reported as a duplicate.
#[verifier::rlimit(50)]
pub proof fn lemma_duplicate_reported(
    h: ClassicalHierarchy,
    dims: StrMap<Vec<String>>,
    items: Seq<Item>,
    k: int,
    other: int,
)
    requires
        0 <= k < items.len(),
        0 <= other < items.len(),
        k != other,
        items[k].name@ == items[other].name@,
    ensures
        validation_errors(h, dims, items).contains(
            msg_duplicate_name(item_ref(k as nat, items[k].name@)),
        ),
{
    let edges = hierarchy_edges(h);
    let label = item_ref(k as nat, items[k].name@);
    let message = msg_duplicate_name(label);
    assert(name_repeated(items, k)) by {
        assert(items[other].name@ == items[k].name@);
    }
    let it = items[k];
    let a = if is_blank(it.name@) {
        seq![msg_name_empty(label)]
    } else {
        Seq::<Seq<char>>::empty()
    };
    let all = item_errors(items, k, h.root@, edges, dims);
    assert(all[a.len() as int] == message);
    lemma_item_errors_included(items, h.root@, edges, dims, items.len() as int, k, message);
    let tail = items_errors_in(items, h, dims);
    let head = hierarchy_errors(h) + dimensions_errors(dims);
    let i = choose|i: int| 0 <= i < tail.len() && tail[i] == message;
    assert((head + tail)[head.len() + i] == message);
}

/// Two items that share a name are both reported, not only the later one.
pub proof fn lemma_duplicates_both_reported(
    h: ClassicalHierarchy,
    dims: StrMap<Vec<String>>,
    items: Seq<Item>,
    first: int,
    second: int,
)
    requires
        0 <= first < second < items.len(),
        items[first].name@ == items[second].name@,
    ensures
        validation_errors(h, dims, items).contains(
            msg_duplicate_name(item_ref(first as nat, items[first].name@)),
        ),
        validation_errors(h, dims, items).contains(
            msg_duplicate_name(item_ref(second as nat, items[second].name@)),
        ),
{
    lemma_duplicate_reported(h, dims, items, first, second);
    lemma_duplicate_reported(h, dims, items, second, first);
}

/// Whether some node among `nodes`, or below them, has the species `name`.
pub open spec fn named_among(nodes: Seq<HierarchyNode>, name: Seq<char>) -> bool
    decreases nodes, 0nat,
{
    nodes.len() > 0 && (named_among(nodes.drop_last(), name) || named_at(nodes.last(), name))
}

/// Whether the node, or some node below it, has the species `name`.
pub open spec fn named_at(n: HierarchyNode, name: Seq<char>) -> bool
    decreases n, 1nat,
{
    n.species@ == name || match n.children {
        Some(v) => named_among(v@, name),
        None => false,
    }
}

/// Whether no species occurs twice among `nodes` and the nodes below them.
pub open spec fn unique_among(nodes: Seq<HierarchyNode>) -> bool
    decreases nodes, 0nat,
{
    nodes.len() == 0 || (unique_among(nodes.drop_last()) && unique_at(nodes.last()) && forall|
        name: Seq<char>,
    |
        !(#[trigger] named_among(nodes.drop_last(), name) && named_at(nodes.last(), name)))
}

/// Whether no species occurs twice in the node and the nodes below it.
pub open spec fn unique_at(n: HierarchyNode) -> bool
    decreases n, 1nat,
{
    match n.children {
        Some(v) => unique_among(v@) && !named_among(v@, n.species@),
        None => true,
    }
}

/// Whether no species occurs twice in the hierarchy, and none is the root name.
pub open spec fn species_unique(h: ClassicalHierarchy) -> bool {
    match h.children {
        Some(v) => unique_among(v@) && !named_among(v@, h.root@),
        None => true,
    }
}

/// The parent of an edge among nodes is the species of one of them.
pub proof fn lemma_edge_parent_named(
    nodes: Seq<HierarchyNode>,
    parent: Seq<char>,
    child: Seq<char>,
)
    requires
        edge_among(nodes, parent, child),
    ensures
        named_among(nodes, parent),
    decreases nodes, 0nat,
{
    if edge_among(nodes.drop_last(), parent, child) {
        lemma_edge_parent_named(nodes.drop_last(), parent, child);
    } else {
        lemma_edge_parent_named_at(nodes.last(), parent, child);
    }
}

/// The parent of an edge at or below a node is the species of the node or of one below it.
pub proof fn lemma_edge_parent_named_at(n: HierarchyNode, parent: Seq<char>, child: Seq<char>)
    requires
        edge_at(n, parent, child),
    ensures
        named_at(n, parent),
    decreases n, 1nat,
{
    if n.species@ != parent {
        match n.children {
            Some(v) => {
                lemma_edge_parent_named(v@, parent, child);
            },
            None => {},
        }
    }
}

/// Walking nodes of which none has the species `key` leaves what the map holds under `key`.
pub proof fn lemma_walk_keeps_other_keys(
    nodes: Seq<HierarchyNode>,
    m: Map<Seq<char>, Seq<Seq<char>>>,
    key: Seq<char>,
)
    requires
        !named_among(nodes, key),
    ensures
        paths_after_nodes(nodes, m).contains_key(key) == m.contains_key(key),
        m.contains_key(key) ==> paths_after_nodes(nodes, m)[key] == m[key],
    decreases nodes, 0nat,
{
    if nodes.len() > 0 {
        lemma_walk_keeps_other_keys(nodes.drop_last(), m, key);
        let n = nodes.last();
        assert(!named_at(n, key));
        lemma_children_walk_keeps_other_keys(
            n.species@,
            n.children,
            paths_after_nodes(nodes.drop_last(), m),
            key,
        );
    }
}

/// Walking the children of a node called otherwise than `key`, of which
/// none has the species `key`, leaves what the map holds under `key`.
pub proof fn lemma_children_walk_keeps_other_keys(
    name: Seq<char>,
    children: Option<Vec<HierarchyNode>>,
    m: Map<Seq<char>, Seq<Seq<char>>>,
    key: Seq<char>,
)
    requires
        name != key,
        children matches Some(v) ==> !named_among(v@, key),
    ensures
        paths_after(name, children, m).contains_key(key) == m.contains_key(key),
        m.contains_key(key) ==> paths_after(name, children, m)[key] == m[key],
    decreases children, 1nat,
{
    match children {
        Some(v) => {
            lemma_walk_keeps_other_keys(v@, m, key);
        },
        None => {},
    }
}

/// Where no species occurs twice, every edge among the nodes is in the map
/// built over them.
pub proof fn lemma_edges_in_map(
    nodes: Seq<HierarchyNode>,
    m: Map<Seq<char>, Seq<Seq<char>>>,
    parent: Seq<char>,
    child: Seq<char>,
)
    requires
        unique_among(nodes),
        edge_among(nodes, parent, child),
    ensures
        has_edge(paths_after_nodes(nodes, m), parent, child),
    decreases nodes, 0nat,
{
    let n = nodes.last();
    let before = paths_after_nodes(nodes.drop_last(), m);
    if edge_among(nodes.drop_last(), parent, child) {
        lemma_edges_in_map(nodes.drop_last(), m, parent, child);
        lemma_edge_parent_named(nodes.drop_last(), parent, child);
        assert(!named_at(n, parent));
        lemma_children_walk_keeps_other_keys(n.species@, n.children, before, parent);
    } else {
        lemma_edge_at_in_map(n, before, parent, child);
    }
}

/// Where no species occurs twice, every edge at or below a node is in the
/// map built over the node's children.
pub proof fn lemma_edge_at_in_map(
    n: HierarchyNode,
    m: Map<Seq<char>, Seq<Seq<char>>>,
    parent: Seq<char>,
    child: Seq<char>,
)
    requires
        unique_at(n),
        edge_at(n, parent, child),
    ensures
        has_edge(paths_after(n.species@, n.children, m), parent, child),
    decreases n, 1nat,
{
    match n.children {
        Some(v) => {
            if edge_among(v@, parent, child) {
                lemma_edges_in_map(v@, m, parent, child);
                lemma_edge_parent_named(v@, parent, child);
                assert(parent != n.species@);
            } else {
                assert(v@.len() > 0);
            }
        },
        None => {},
    }
}

/// Where no species occurs twice and none is the root name, every edge of
/// the tree is in the parent-to-children map.
pub proof fn lemma_tree_edges_are_map_edges(
    h: ClassicalHierarchy,
    parent: Seq<char>,
    child: Seq<char>,
)
    requires
        species_unique(h),
        is_tree_edge(h, parent, child),
    ensures
        has_edge(hierarchy_edges(h), parent, child),
{
    let v = h.children->0;
    if edge_among(v@, parent, child) {
        lemma_edges_in_map(v@, Map::empty(), parent, child);
        lemma_edge_parent_named(v@, parent, child);
        assert(parent != h.root@);
    } else {
        assert(v@.len() > 0);
    }
}

/// A path all of whose steps are edges of the map has no step violations.
pub proof fn lemma_edge_steps_are_clean(
    label: Seq<char>,
    path: Seq<Seq<char>>,
    edges: Map<Seq<char>, Seq<Seq<char>>>,
)
    requires
        forall|step: int|
            0 <= step < path.len() - 1 ==> has_edge(edges, #[trigger] path[step], path[step + 1]),
    ensures
        path_errors(label, path, edges).len() == 0,
    decreases path.len(),
{
    if path.len() >= 2 {
        let shorter = path.drop_last();
        assert forall|step: int| 0 <= step < shorter.len() - 1 implies has_edge(
            edges,
            #[trigger] shorter[step],
            shorter[step + 1],
        ) by {
            assert(shorter[step] == path[step]);
            assert(shorter[step + 1] == path[step + 1]);
            assert(has_edge(edges, path[step], path[step + 1]));
        }
        lemma_edge_steps_are_clean(label, shorter, edges);
        assert(has_edge(edges, path[path.len() - 2], path[path.len() - 2 + 1]));
    }
}

/// In a hierarchy where no species occurs twice and none is the root name,
/// the steps of a path have no violations exactly where each step leads from
/// the root or a node to one of its own children.
pub proof fn lemma_path_clean_iff_tree_edges(
    h: ClassicalHierarchy,
    label: Seq<char>,
    path: Seq<Seq<char>>,
)
    requires
        species_unique(h),
    ensures
        path_errors(label, path, hierarchy_edges(h)).len() == 0 <==> forall|step: int|
            0 <= step < path.len() - 1 ==> is_tree_edge(h, #[trigger] path[step], path[step + 1]),
{
    let edges = hierarchy_edges(h);
    if path_errors(label, path, edges).len() == 0 {
        assert forall|step: int| 0 <= step < path.len() - 1 implies is_tree_edge(
            h,
            #[trigger] path[step],
            path[step + 1],
        ) by {
            lemma_clean_path_steps(label, path, edges, step);
            lemma_map_edges_are_tree_edges(h, path[step], path[step + 1]);
        }
    }
    if forall|step: int|
        0 <= step < path.len() - 1 ==> is_tree_edge(h, #[trigger] path[step], path[step + 1]) {
        assert forall|step: int| 0 <= step < path.len() - 1 implies has_edge(
            edges,
            #[trigger] path[step],
            path[step + 1],
        ) by {
            lemma_tree_edges_are_map_edges(h, path[step], path[step + 1]);
        }
        lemma_edge_steps_are_clean(label, path, edges);
    }
}

} // verus!
