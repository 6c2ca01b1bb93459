//! Domain validation: the rules that a hierarchy, the facet dimensions and
//! the items must meet. Every check reports each violation it finds; none
//! stops at the first.

use crate::json::JsonValue;
use crate::models::{
    ClassicalHierarchy, HierarchyNode, HybridTaxonomy, Item, TaxonomyData, TaxonomySchema,
};
use crate::strmap::StrMap;
use crate::text::{blank, decimal, is_blank, lemma_texts_push, push_decimal, same_text, texts};
use vstd::hash_map::StringHashMap;
use vstd::prelude::*;
use vstd::string::StringExecFns;

verus! {

/// The message for a hierarchy without a root name.
pub open spec fn msg_root_empty() -> Seq<char> {
    "Classical hierarchy root cannot be empty"@
}

/// The message for a node without a genus.
pub open spec fn msg_genus_empty() -> Seq<char> {
    "Hierarchy node genus cannot be empty"@
}

/// The message for a node without a species.
pub open spec fn msg_species_empty() -> Seq<char> {
    "Hierarchy node species cannot be empty"@
}

/// The message for a node without a differentia.
pub open spec fn msg_differentia_empty(species: Seq<char>) -> Seq<char> {
    "Species '"@ + species + "' must have non-empty differentia"@
}

/// The message for a node whose genus is not the species of its parent.
pub open spec fn msg_genus_mismatch(
    species: Seq<char>,
    genus: Seq<char>,
    parent: Seq<char>,
) -> Seq<char> {
    "Species '"@ + species + "' has genus '"@ + genus + "', expected '"@ + parent
        + "' (parent species)"@
}

/// The violations of one node by itself, under a parent called `parent`.
pub open spec fn own_errors(n: HierarchyNode, parent: Seq<char>) -> Seq<Seq<char>> {
    (if is_blank(n.genus@) {
        seq![msg_genus_empty()]
    } else {
        Seq::<Seq<char>>::empty()
    }) + (if is_blank(n.species@) {
        seq![msg_species_empty()]
    } else {
        Seq::<Seq<char>>::empty()
    }) + (if is_blank(n.differentia@) {
        seq![msg_differentia_empty(n.species@)]
    } else {
        Seq::<Seq<char>>::empty()
    }) + (if n.genus@ != parent {
        seq![msg_genus_mismatch(n.species@, n.genus@, parent)]
    } else {
        Seq::<Seq<char>>::empty()
    })
}

/// The violations of a node and of all nodes below it, in pre-order.
pub open spec fn node_errors(n: HierarchyNode, parent: Seq<char>) -> Seq<Seq<char>>
    decreases n, 1nat,
{
    own_errors(n, parent) + match n.children {
        Some(v) => nodes_errors(v@, n.species@),
        None => Seq::<Seq<char>>::empty(),
    }
}

/// The violations of a list of siblings under a parent called `parent`.
pub open spec fn nodes_errors(nodes: Seq<HierarchyNode>, parent: Seq<char>) -> Seq<Seq<char>>
    decreases nodes, 0nat,
{
    if nodes.len() == 0 {
        Seq::<Seq<char>>::empty()
    } else {
        nodes_errors(nodes.drop_last(), parent) + node_errors(nodes.last(), parent)
    }
}

/// The violations of a whole hierarchy.
pub open spec fn hierarchy_errors(h: ClassicalHierarchy) -> Seq<Seq<char>> {
    (if is_blank(h.root@) {
        seq![msg_root_empty()]
    } else {
        Seq::<Seq<char>>::empty()
    }) + match h.children {
        Some(v) => nodes_errors(v@, h.root@),
        None => Seq::<Seq<char>>::empty(),
    }
}

/// Appends `message` to `errors`.
fn report(errors: &mut Vec<String>, message: String)
    ensures
        texts(final(errors)@) == texts(old(errors)@).push(message@),
{
    proof {
        lemma_texts_push(errors@, message);
    }
    errors.push(message);
}

fn differentia_message(species: &str) -> (m: String)
    ensures
        m@ == msg_differentia_empty(species@),
{
    let mut m = String::from_str("Species '");
    m.append(species);
    m.append("' must have non-empty differentia");
    m
}

fn mismatch_message(species: &str, genus: &str, parent: &str) -> (m: String)
    ensures
        m@ == msg_genus_mismatch(species@, genus@, parent@),
{
    let mut m = String::from_str("Species '");
    m.append(species);
    m.append("' has genus '");
    m.append(genus);
    m.append("', expected '");
    m.append(parent);
    m.append("' (parent species)");
    m
}

/// A list of siblings that is being walked: the nodes, how many of them
/// were walked, and the name of their parent.
pub struct Frame<'a> {
    pub nodes: &'a [HierarchyNode],
    pub next: usize,
    pub parent: &'a str,
}

/// The steps that walking the nodes from position `k` on still takes.
pub open spec fn steps_from(nodes: Seq<HierarchyNode>, k: int) -> nat
    decreases nodes, nodes.len() - k,
{
    if k < 0 || k >= nodes.len() {
        0
    } else {
        1 + (match nodes[k].children {
            Some(c) => 1 + steps_from(c@, 0),
            None => 0,
        }) + steps_from(nodes, k + 1)
    }
}

/// The steps that the stack still takes.
pub open spec fn steps_left(stack: Seq<Frame>) -> nat
    decreases stack.len(),
{
    if stack.len() == 0 {
        0
    } else {
        steps_left(stack.drop_last()) + 1 + steps_from(stack.last().nodes@, stack.last().next as int)
    }
}

/// The violations of the nodes from position `k` on, and of all nodes below them.
pub open spec fn errors_from(nodes: Seq<HierarchyNode>, k: int, parent: Seq<char>) -> Seq<
    Seq<char>,
>
    decreases nodes.len() - k,
{
    if k < 0 || k >= nodes.len() {
        Seq::<Seq<char>>::empty()
    } else {
        node_errors(nodes[k], parent) + errors_from(nodes, k + 1, parent)
    }
}

/// The violations of the nodes before `k` and of those from `k` on are those of all.
pub proof fn lemma_errors_from(nodes: Seq<HierarchyNode>, k: int, parent: Seq<char>)
    requires
        0 <= k <= nodes.len(),
    ensures
        nodes_errors(nodes.take(k), parent) + errors_from(nodes, k, parent) == nodes_errors(
            nodes,
            parent,
        ),
    decreases nodes.len() - k,
{
    if k < nodes.len() {
        assert(nodes.take(k + 1).drop_last() =~= nodes.take(k));
        assert(nodes.take(k + 1).last() == nodes[k]);
        lemma_errors_from(nodes, k + 1, parent);
        assert(nodes_errors(nodes.take(k), parent) + (node_errors(nodes[k], parent) + errors_from(
            nodes,
            k + 1,
            parent,
        )) =~= (nodes_errors(nodes.take(k), parent) + node_errors(nodes[k], parent)) + errors_from(
            nodes,
            k + 1,
            parent,
        ));
    } else {
        assert(nodes.take(k) =~= nodes);
        assert(nodes_errors(nodes, parent) + Seq::<Seq<char>>::empty() =~= nodes_errors(
            nodes,
            parent,
        ));
    }
}

/// The violations that the lists on the stack still hold, innermost list first.
pub open spec fn pending_errors(stack: Seq<Frame>) -> Seq<Seq<char>>
    decreases stack.len(),
{
    if stack.len() == 0 {
        Seq::<Seq<char>>::empty()
    } else {
        errors_from(stack.last().nodes@, stack.last().next as int, stack.last().parent@)
            + pending_errors(stack.drop_last())
    }
}

fn report_own(node: &HierarchyNode, parent: &str, errors: &mut Vec<String>)
    ensures
        texts(final(errors)@) == texts(old(errors)@) + own_errors(*node, parent@),
{
    let ghost start = texts(errors@);
    if blank(node.genus.as_str()) {
        report(errors, String::from_str("Hierarchy node genus cannot be empty"));
    }
    if blank(node.species.as_str()) {
        report(errors, String::from_str("Hierarchy node species cannot be empty"));
    }
    if blank(node.differentia.as_str()) {
        report(errors, differentia_message(node.species.as_str()));
    }
    if !same_text(node.genus.as_str(), parent) {
        report(errors, mismatch_message(node.species.as_str(), node.genus.as_str(), parent));
    }
    assert(texts(errors@) =~= start + own_errors(*node, parent@));
}

/// Appends to `errors` the violations of `nodes`, a list of siblings whose
/// parent is called `parent`, and of every node below them, each node before
/// the nodes below it. The walk keeps its own stack of the lists it is in.
#[verifier::rlimit(50)]
pub fn validate_hierarchy_nodes(nodes: &[HierarchyNode], parent: &str, errors: &mut Vec<String>)
    ensures
        texts(final(errors)@) == texts(old(errors)@) + nodes_errors(nodes@, parent@),
{
    let ghost target = texts(errors@) + nodes_errors(nodes@, parent@);
    let ghost none = Seq::<Seq<char>>::empty();
    let mut stack: Vec<Frame> = Vec::new();
    let first = Frame { nodes, next: 0, parent };
    stack.push(first);
    proof {
        lemma_errors_from(nodes@, 0, parent@);
        assert(nodes@.take(0) =~= Seq::<HierarchyNode>::empty());
        assert(none + errors_from(nodes@, 0, parent@) =~= errors_from(nodes@, 0, parent@));
        assert(stack@.drop_last() =~= Seq::<Frame>::empty());
        assert(stack@.last() == first);
        assert(pending_errors(stack@.drop_last()) == none);
        assert(pending_errors(stack@) =~= nodes_errors(nodes@, parent@));
    }
    while stack.len() > 0
        invariant
            texts(errors@) + pending_errors(stack@) == target,
            forall|i: int| 0 <= i < stack@.len() ==> (#[trigger] stack@[i]).next <= stack@[i].nodes@.len(),
        decreases steps_left(stack@),
    {
        let ghost whole = stack@;
        let ghost start = texts(errors@);
        let top = stack.pop().unwrap();
        let ghost rest = stack@;
        assert(whole.drop_last() =~= rest);
        assert(whole.last() == top);
        assert(top.next <= top.nodes@.len()) by {
            assert(whole[whole.len() - 1] == top);
        }
        assert forall|i: int| 0 <= i < rest.len() implies (#[trigger] rest[i]).next
            <= rest[i].nodes@.len() by {
            assert(rest[i] == whole[i]);
        }
        let ghost later = pending_errors(rest);
        assert(pending_errors(whole) == errors_from(top.nodes@, top.next as int, top.parent@)
            + later);
        assert(steps_left(whole) == steps_left(rest) + 1 + steps_from(top.nodes@, top.next as int));
        if top.next < top.nodes.len() {
            let node = &top.nodes[top.next];
            let moved = Frame { nodes: top.nodes, next: top.next + 1, parent: top.parent };
            report_own(node, top.parent, errors);
            stack.push(moved);
            assert(stack@.drop_last() =~= rest);
            assert(stack@.last() == moved);
            let ghost after = errors_from(top.nodes@, top.next + 1, top.parent@);
            match &node.children {
                None => {
                    proof {
                        let own = own_errors(*node, top.parent@);
                        assert(node_errors(*node, top.parent@) =~= own);
                        assert(pending_errors(stack@) == after + later);
                        assert((start + own) + (after + later) =~= start + ((own + after) + later));
                    }
                },
                Some(below) => {
                    let inner = Frame {
                        nodes: below.as_slice(),
                        next: 0,
                        parent: node.species.as_str(),
                    };
                    let ghost outer = stack@;
                    stack.push(inner);
                    proof {
                        let own = own_errors(*node, top.parent@);
                        let under = nodes_errors(below@, node.species@);
                        assert(stack@.drop_last() =~= outer);
                        assert(stack@.last() == inner);
                        assert(outer.drop_last() =~= rest);
                        assert(outer.last() == moved);
                        lemma_errors_from(below@, 0, node.species@);
                        assert(below@.take(0) =~= Seq::<HierarchyNode>::empty());
                        assert(nodes_errors(below@.take(0), node.species@) + errors_from(
                            below@,
                            0,
                            node.species@,
                        ) =~= errors_from(below@, 0, node.species@));
                        assert(errors_from(below@, 0, node.species@) == under);
                        assert(node_errors(*node, top.parent@) == own + under);
                        assert(pending_errors(outer) == after + later);
                        assert(pending_errors(stack@) == under + (after + later));
                        assert((start + own) + (under + (after + later)) =~= start + (((own
                            + under) + after) + later));
                        assert(steps_left(stack@) == steps_left(outer) + 1 + steps_from(below@, 0));
                        assert(steps_left(outer) == steps_left(rest) + 1 + steps_from(
                            top.nodes@,
                            top.next + 1,
                        ));
                    }
                },
            }
        } else {
            assert(errors_from(top.nodes@, top.next as int, top.parent@) + later =~= later);
        }
    }
    assert(texts(errors@) + none =~= texts(errors@));
}

/// What a table of name lists says: for each key, the texts stored under it.
pub open spec fn lookup(m: StringHashMap<Vec<String>>) -> Map<Seq<char>, Seq<Seq<char>>> {
    Map::new(|k: Seq<char>| m@.contains_key(k), |k: Seq<char>| texts(m@[k]@))
}

/// The species names of a list of nodes, in order.
pub open spec fn species_of(nodes: Seq<HierarchyNode>) -> Seq<Seq<char>> {
    Seq::new(nodes.len(), |i: int| nodes[i].species@)
}

/// The parent-to-children map after walking the children of `parent`: each
/// node below is entered under its own name, and last `parent` with the names
/// of its children, where it has any. A later entry replaces an earlier one
/// of the same name.
pub open spec fn paths_after(
    parent: Seq<char>,
    children: Option<Vec<HierarchyNode>>,
    m: Map<Seq<char>, Seq<Seq<char>>>,
) -> Map<Seq<char>, Seq<Seq<char>>>
    decreases children, 1nat,
{
    match children {
        None => m,
        Some(v) => {
            let below = paths_after_nodes(v@, m);
            if v@.len() > 0 {
                below.insert(parent, species_of(v@))
            } else {
                below
            }
        },
    }
}

/// The map after walking each node of `nodes` in turn.
pub open spec fn paths_after_nodes(
    nodes: Seq<HierarchyNode>,
    m: Map<Seq<char>, Seq<Seq<char>>>,
) -> Map<Seq<char>, Seq<Seq<char>>>
    decreases nodes, 0nat,
{
    if nodes.len() == 0 {
        m
    } else {
        paths_after(
            nodes.last().species@,
            nodes.last().children,
            paths_after_nodes(nodes.drop_last(), m),
        )
    }
}

/// The parent-to-children map of a hierarchy.
pub open spec fn hierarchy_edges(h: ClassicalHierarchy) -> Map<Seq<char>, Seq<Seq<char>>> {
    paths_after(h.root@, h.children, Map::empty())
}

/// The map after walking the nodes from position `k` on, each in turn.
pub open spec fn paths_after_from(
    nodes: Seq<HierarchyNode>,
    k: int,
    m: Map<Seq<char>, Seq<Seq<char>>>,
) -> Map<Seq<char>, Seq<Seq<char>>>
    decreases nodes.len() - k,
{
    if k < 0 || k >= nodes.len() {
        m
    } else {
        paths_after_from(nodes, k + 1, paths_after(nodes[k].species@, nodes[k].children, m))
    }
}

/// Walking the nodes from position `k` on, after the nodes before `k` were
/// walked, is walking all of them.
pub proof fn lemma_paths_after_from(
    nodes: Seq<HierarchyNode>,
    k: int,
    m: Map<Seq<char>, Seq<Seq<char>>>,
)
    requires
        0 <= k <= nodes.len(),
    ensures
        paths_after_from(nodes, k, paths_after_nodes(nodes.take(k), m)) == paths_after_nodes(
            nodes,
            m,
        ),
    decreases nodes.len() - k,
{
    if k < nodes.len() {
        assert(nodes.take(k + 1).drop_last() =~= nodes.take(k));
        assert(nodes.take(k + 1).last() == nodes[k]);
        lemma_paths_after_from(nodes, k + 1, m);
    } else {
        assert(nodes.take(k) =~= nodes);
    }
}

/// The map after the rest of a list of siblings was walked and their parent entered.
pub open spec fn frame_done(f: Frame, m: Map<Seq<char>, Seq<Seq<char>>>) -> Map<
    Seq<char>,
    Seq<Seq<char>>,
> {
    let below = paths_after_from(f.nodes@, f.next as int, m);
    if f.nodes@.len() > 0 {
        below.insert(f.parent@, species_of(f.nodes@))
    } else {
        below
    }
}

/// The map after every list on the stack was walked to its end, innermost first.
pub open spec fn stack_done(stack: Seq<Frame>, m: Map<Seq<char>, Seq<Seq<char>>>) -> Map<
    Seq<char>,
    Seq<Seq<char>>,
>
    decreases stack.len(),
{
    if stack.len() == 0 {
        m
    } else {
        stack_done(stack.drop_last(), frame_done(stack.last(), m))
    }
}

fn species_names(nodes: &[HierarchyNode]) -> (names: Vec<String>)
    ensures
        texts(names@) == species_of(nodes@),
{
    let mut names: Vec<String> = Vec::new();
    let mut i: usize = 0;
    while i < nodes.len()
        invariant
            i <= nodes@.len(),
            names@.len() == i,
            forall|j: int| 0 <= j < i ==> (#[trigger] names@[j])@ == nodes@[j].species@,
        decreases nodes@.len() - i,
    {
        names.push(nodes[i].species.clone());
        i += 1;
    }
    assert(texts(names@) =~= species_of(nodes@));
    names
}

fn enter(map: &mut StringHashMap<Vec<String>>, parent: &str, names: Vec<String>)
    ensures
        lookup(*final(map)) == lookup(*old(map)).insert(parent@, texts(names@)),
{
    let ghost before = lookup(*map);
    map.insert(parent.to_owned(), names);
    assert(lookup(*map) =~= before.insert(parent@, texts(names@)));
}

/// Enters into `map` the children of `parent` and of every node below it.
/// The walk keeps its own stack of the lists it is in, so that the depth of
/// the hierarchy does not bear on the depth of calls.
#[verifier::rlimit(50)]
pub fn build_valid_paths(
    parent: &str,
    children: &Option<Vec<HierarchyNode>>,
    map: &mut StringHashMap<Vec<String>>,
)
    ensures
        lookup(*final(map)) == paths_after(parent@, *children, lookup(*old(map))),
{
    let ghost target = paths_after(parent@, *children, lookup(*map));
    let mut stack: Vec<Frame> = Vec::new();
    match children {
        None => {},
        Some(nodes) => {
            let first = Frame { nodes: nodes.as_slice(), next: 0, parent };
            stack.push(first);
            proof {
                let m0 = lookup(*map);
                lemma_paths_after_from(nodes@, 0, m0);
                assert(nodes@.take(0) =~= Seq::<HierarchyNode>::empty());
                assert(paths_after_nodes(nodes@.take(0), m0) == m0);
                assert(frame_done(first, m0) == target);
                assert(stack@.drop_last() =~= Seq::<Frame>::empty());
                assert(stack@.last() == first);
                assert(stack_done(stack@.drop_last(), frame_done(first, m0)) == frame_done(
                    first,
                    m0,
                ));
            }
        },
    }
    while stack.len() > 0
        invariant
            stack_done(stack@, lookup(*map)) == target,
            forall|i: int| 0 <= i < stack@.len() ==> (#[trigger] stack@[i]).next <= stack@[i].nodes@.len(),
        decreases steps_left(stack@),
    {
        let ghost whole = stack@;
        let ghost m = lookup(*map);
        let top = stack.pop().unwrap();
        let ghost rest = stack@;
        assert(whole.drop_last() =~= rest);
        assert(whole.last() == top);
        assert(top.next <= top.nodes@.len()) by {
            assert(whole[whole.len() - 1] == top);
        }
        assert forall|i: int| 0 <= i < rest.len() implies (#[trigger] rest[i]).next
            <= rest[i].nodes@.len() by {
            assert(rest[i] == whole[i]);
        }
        assert(stack_done(rest, frame_done(top, m)) == target);
        assert(steps_left(whole) == steps_left(rest) + 1 + steps_from(top.nodes@, top.next as int));
        if top.next < top.nodes.len() {
            let node = &top.nodes[top.next];
            let moved = Frame { nodes: top.nodes, next: top.next + 1, parent: top.parent };
            stack.push(moved);
            assert(stack@.drop_last() =~= rest);
            assert(stack@.last() == moved);
            match &node.children {
                None => {
                    assert(frame_done(moved, m) == frame_done(top, m));
                    assert(stack_done(stack@, m) == stack_done(rest, frame_done(moved, m)));
                },
                Some(below) => {
                    let inner = Frame {
                        nodes: below.as_slice(),
                        next: 0,
                        parent: node.species.as_str(),
                    };
                    let ghost outer = stack@;
                    stack.push(inner);
                    proof {
                        assert(stack@.drop_last() =~= outer);
                        assert(stack@.last() == inner);
                        assert(outer.drop_last() =~= rest);
                        assert(outer.last() == moved);
                        lemma_paths_after_from(below@, 0, m);
                        assert(below@.take(0) =~= Seq::<HierarchyNode>::empty());
                        assert(paths_after_nodes(below@.take(0), m) == m);
                        assert(frame_done(inner, m) == paths_after(
                            node.species@,
                            node.children,
                            m,
                        ));
                        assert(frame_done(moved, frame_done(inner, m)) == frame_done(top, m));
                        assert(stack_done(stack@, m) == stack_done(outer, frame_done(inner, m)));
                        assert(stack_done(outer, frame_done(inner, m)) == stack_done(
                            rest,
                            frame_done(moved, frame_done(inner, m)),
                        ));
                        assert(steps_left(stack@) == steps_left(outer) + 1 + steps_from(below@, 0));
                        assert(steps_left(outer) == steps_left(rest) + 1 + steps_from(
                            top.nodes@,
                            top.next + 1,
                        ));
                    }
                },
            }
        } else {
            if top.nodes.len() > 0 {
                let names = species_names(top.nodes);
                enter(map, top.parent, names);
            }
            assert(lookup(*map) == frame_done(top, m));
        }
    }
}

/// How messages name the item at position `idx` (counted from zero).
pub open spec fn item_ref(idx: nat, name: Seq<char>) -> Seq<char> {
    "Item #"@ + decimal(idx + 1) + " ('"@ + name + "')"@
}

/// The message for a path step whose child is not among the parent's children.
pub open spec fn msg_not_child(item: Seq<char>, child: Seq<char>, parent: Seq<char>) -> Seq<char> {
    item + ": invalid classical_path - '"@ + child + "' is not a valid child of '"@ + parent
        + "'"@
}

/// The message for a path step whose parent has no children.
pub open spec fn msg_no_children(item: Seq<char>, parent: Seq<char>) -> Seq<char> {
    item + ": invalid classical_path - '"@ + parent + "' has no defined children"@
}

/// The violation of one step of a path, if any.
pub open spec fn step_errors(
    item: Seq<char>,
    parent: Seq<char>,
    child: Seq<char>,
    edges: Map<Seq<char>, Seq<Seq<char>>>,
) -> Seq<Seq<char>> {
    if edges.contains_key(parent) {
        if edges[parent].contains(child) {
            Seq::<Seq<char>>::empty()
        } else {
            seq![msg_not_child(item, child, parent)]
        }
    } else {
        seq![msg_no_children(item, parent)]
    }
}

/// The violations of the steps of a path, first step first.
pub open spec fn path_errors(
    item: Seq<char>,
    path: Seq<Seq<char>>,
    edges: Map<Seq<char>, Seq<Seq<char>>>,
) -> Seq<Seq<char>>
    decreases path.len(),
{
    if path.len() < 2 {
        Seq::<Seq<char>>::empty()
    } else {
        path_errors(item, path.drop_last(), edges) + step_errors(
            item,
            path[path.len() - 2],
            path.last(),
            edges,
        )
    }
}

/// Whether `wanted` is one of the strings of `v`.
pub fn contains_string(v: &Vec<String>, wanted: &str) -> (r: bool)
    ensures
        r == texts(v@).contains(wanted@),
{
    let w = wanted.to_owned();
    let mut i: usize = 0;
    while i < v.len()
        invariant
            i <= v@.len(),
            w@ == wanted@,
            forall|j: int| 0 <= j < i ==> texts(v@)[j] != wanted@,
        decreases v@.len() - i,
    {
        if v[i] == w {
            assert(texts(v@)[i as int] == wanted@);
            return true;
        }
        i += 1;
    }
    false
}

/// The name by which messages call the item at position `idx`.
pub fn item_label(idx: usize, name: &str) -> (r: String)
    requires
        idx < usize::MAX,
    ensures
        r@ == item_ref(idx as nat, name@),
{
    let mut r = String::from_str("Item #");
    push_decimal(&mut r, idx + 1);
    r.append(" ('");
    r.append(name);
    r.append("')");
    r
}

fn not_child_message(item: &str, child: &str, parent: &str) -> (m: String)
    ensures
        m@ == msg_not_child(item@, child@, parent@),
{
    let mut m = item.to_owned();
    m.append(": invalid classical_path - '");
    m.append(child);
    m.append("' is not a valid child of '");
    m.append(parent);
    m.append("'");
    m
}

fn no_children_message(item: &str, parent: &str) -> (m: String)
    ensures
        m@ == msg_no_children(item@, parent@),
{
    let mut m = item.to_owned();
    m.append(": invalid classical_path - '");
    m.append(parent);
    m.append("' has no defined children");
    m
}

/// Appends to `errors` the violations of the steps of `path` against the
/// parent-to-children map `edges`.
#[verifier::rlimit(50)]
pub fn check_path_steps(
    path: &Vec<String>,
    edges: &StringHashMap<Vec<String>>,
    item_ref: &str,
    errors: &mut Vec<String>,
)
    ensures
        texts(final(errors)@) == texts(old(errors)@) + path_errors(
            item_ref@,
            texts(path@),
            lookup(*edges),
        ),
{
    let ghost names = texts(path@);
    if path.len() < 2 {
        assert(texts(errors@) =~= texts(errors@) + Seq::<Seq<char>>::empty());
        return ;
    }
    let mut i: usize = 0;
    assert(texts(errors@) =~= texts(errors@) + path_errors(item_ref@, names.take(1), lookup(*edges)));
    while i < path.len() - 1
        invariant
            2 <= path@.len(),
            names == texts(path@),
            i <= path@.len() - 1,
            texts(errors@) == texts(old(errors)@) + path_errors(
                item_ref@,
                names.take(i + 1),
                lookup(*edges),
            ),
        decreases path@.len() - i,
    {
        let parent = &path[i];
        let child = &path[i + 1];
        let ghost start = texts(errors@);
        proof {
            let upto = names.take(i + 2);
            assert(upto.drop_last() =~= names.take(i + 1));
            assert(upto.last() == child@);
            assert(upto[upto.len() - 2] == parent@);
            assert(start =~= start + Seq::<Seq<char>>::empty());
        }
        match edges.get(parent.as_str()) {
            Some(valid_children) => {
                if !contains_string(valid_children, child.as_str()) {
                    report(
                        errors,
                        not_child_message(item_ref, child.as_str(), parent.as_str()),
                    );
                }
            },
            None => {
                report(errors, no_children_message(item_ref, parent.as_str()));
            },
        }
        assert(texts(errors@) =~= start + step_errors(
            item_ref@,
            parent@,
            child@,
            lookup(*edges),
        ));
        assert(texts(errors@) =~= texts(old(errors)@) + path_errors(
            item_ref@,
            names.take(i + 2),
            lookup(*edges),
        ));
        i += 1;
    }
    assert(names.take(path@.len() as int) =~= names);
}

/// Appends to `errors` the violations of the steps of the item's path
/// against the hierarchy of `taxonomy`.
pub fn validate_classical_path(
    item: &Item,
    taxonomy: &HybridTaxonomy,
    item_ref: &str,
    errors: &mut Vec<String>,
)
    ensures
        texts(final(errors)@) == texts(old(errors)@) + path_errors(
            item_ref@,
            texts(item.classical_path@),
            hierarchy_edges(taxonomy.classical_hierarchy),
        ),
{
    if item.classical_path.len() < 2 {
        assert(texts(errors@) =~= texts(errors@) + Seq::<Seq<char>>::empty());
        return ;
    }
    let mut valid_paths: StringHashMap<Vec<String>> = StringHashMap::new();
    assert(lookup(valid_paths) =~= Map::empty());
    build_valid_paths(
        taxonomy.classical_hierarchy.root.as_str(),
        &taxonomy.classical_hierarchy.children,
        &mut valid_paths,
    );
    check_path_steps(&item.classical_path, &valid_paths, item_ref, errors);
}

/// The message for a taxonomy without facet dimensions.
pub open spec fn msg_no_dimensions() -> Seq<char> {
    "At least one faceted dimension must be defined"@
}

/// The message for a facet dimension without a name.
pub open spec fn msg_facet_name_empty() -> Seq<char> {
    "Facet names cannot be empty"@
}

/// The message for a facet dimension without values.
pub open spec fn msg_facet_no_values(facet: Seq<char>) -> Seq<char> {
    "Facet '"@ + facet + "' must have at least one value"@
}

/// The message for a facet dimension with a blank value.
pub open spec fn msg_facet_empty_value(facet: Seq<char>) -> Seq<char> {
    "Facet '"@ + facet + "' contains empty value"@
}

/// The message for a value that a facet dimension lists once more.
pub open spec fn msg_facet_duplicate(facet: Seq<char>, value: Seq<char>) -> Seq<char> {
    "Facet '"@ + facet + "' has duplicate value: '"@ + value + "'"@
}

/// The violations of the first `upto` values of a facet dimension: a blank
/// value, and a value that stands earlier in the list already.
pub open spec fn values_errors(facet: Seq<char>, values: Seq<Seq<char>>, upto: int) -> Seq<
    Seq<char>,
>
    decreases upto,
{
    if upto <= 0 {
        Seq::<Seq<char>>::empty()
    } else {
        values_errors(facet, values, upto - 1) + (if is_blank(values[upto - 1]) {
            seq![msg_facet_empty_value(facet)]
        } else {
            Seq::<Seq<char>>::empty()
        }) + (if values.take(upto - 1).contains(values[upto - 1]) {
            seq![msg_facet_duplicate(facet, values[upto - 1])]
        } else {
            Seq::<Seq<char>>::empty()
        })
    }
}

/// The violations of one facet dimension.
pub open spec fn dimension_errors(facet: Seq<char>, values: Seq<Seq<char>>) -> Seq<Seq<char>> {
    (if is_blank(facet) {
        seq![msg_facet_name_empty()]
    } else {
        Seq::<Seq<char>>::empty()
    }) + (if values.len() == 0 {
        seq![msg_facet_no_values(facet)]
    } else {
        Seq::<Seq<char>>::empty()
    }) + values_errors(facet, values, values.len() as int)
}

/// The violations of the first `upto` facet dimensions.
pub open spec fn dimensions_errors_upto(dims: StrMap<Vec<String>>, upto: int) -> Seq<Seq<char>>
    decreases upto,
{
    if upto <= 0 {
        Seq::<Seq<char>>::empty()
    } else {
        dimensions_errors_upto(dims, upto - 1) + dimension_errors(
            dims.entries@[upto - 1].0@,
            texts(dims.entries@[upto - 1].1@),
        )
    }
}

/// The violations of the facet dimensions.
pub open spec fn dimensions_errors(dims: StrMap<Vec<String>>) -> Seq<Seq<char>> {
    (if dims.entries@.len() == 0 {
        seq![msg_no_dimensions()]
    } else {
        Seq::<Seq<char>>::empty()
    }) + dimensions_errors_upto(dims, dims.entries@.len() as int)
}

fn facet_message(facet: &str, tail: &str) -> (m: String)
    ensures
        m@ == "Facet '"@ + facet@ + tail@,
{
    let mut m = String::from_str("Facet '");
    m.append(facet);
    m.append(tail);
    m
}

fn duplicate_value_message(facet: &str, value: &str) -> (m: String)
    ensures
        m@ == msg_facet_duplicate(facet@, value@),
{
    let mut m = String::from_str("Facet '");
    m.append(facet);
    m.append("' has duplicate value: '");
    m.append(value);
    m.append("'");
    m
}

/// Whether `wanted` is one of the first `upto` strings of `v`.
fn occurs_before(v: &Vec<String>, upto: usize, wanted: &String) -> (r: bool)
    requires
        upto <= v@.len(),
    ensures
        r == texts(v@).take(upto as int).contains(wanted@),
{
    let mut i: usize = 0;
    while i < upto
        invariant
            i <= upto <= v@.len(),
            forall|j: int| 0 <= j < i ==> texts(v@).take(upto as int)[j] != wanted@,
        decreases upto - i,
    {
        if v[i] == *wanted {
            assert(texts(v@).take(upto as int)[i as int] == wanted@);
            return true;
        }
        i += 1;
    }
    false
}

/// Appends to `errors` the violations of the facet dimensions.
#[verifier::rlimit(50)]
pub fn validate_dimensions(dims: &StrMap<Vec<String>>, errors: &mut Vec<String>)
    ensures
        texts(final(errors)@) == texts(old(errors)@) + dimensions_errors(*dims),
{
    let ghost begin = texts(errors@);
    if dims.is_empty() {
        report(errors, String::from_str("At least one faceted dimension must be defined"));
    }
    let ghost head = texts(errors@);
    let mut i: usize = 0;
    assert(head =~= head + dimensions_errors_upto(*dims, 0));
    while i < dims.len()
        invariant
            i <= dims.entries@.len(),
            texts(errors@) == head + dimensions_errors_upto(*dims, i as int),
        decreases dims.entries@.len() - i,
    {
        let facet_name = dims.key_at(i);
        let values = dims.value_at(i);
        let ghost start = texts(errors@);
        let ghost vals = texts(values@);
        if blank(facet_name.as_str()) {
            report(errors, String::from_str("Facet names cannot be empty"));
        }
        if values.len() == 0 {
            report(errors, facet_message(facet_name.as_str(), "' must have at least one value"));
        }
        let ghost mid = texts(errors@);
        let mut j: usize = 0;
        assert(mid =~= mid + values_errors(facet_name@, vals, 0));
        while j < values.len()
            invariant
                j <= values@.len(),
                vals == texts(values@),
                texts(errors@) == mid + values_errors(facet_name@, vals, j as int),
            decreases values@.len() - j,
        {
            if blank(values[j].as_str()) {
                report(errors, facet_message(facet_name.as_str(), "' contains empty value"));
            }
            if occurs_before(values, j, &values[j]) {
                report(errors, duplicate_value_message(facet_name.as_str(), values[j].as_str()));
            }
            assert(texts(errors@) =~= mid + values_errors(facet_name@, vals, j + 1));
            j += 1;
        }
        assert(texts(errors@) =~= start + dimension_errors(facet_name@, vals));
        assert(texts(errors@) =~= head + dimensions_errors_upto(*dims, i + 1));
        i += 1;
    }
    assert(texts(errors@) =~= begin + dimensions_errors(*dims));
}

/// The message for a facet name that the dimensions do not declare.
pub open spec fn msg_undefined_facet(item: Seq<char>, facet: Seq<char>) -> Seq<char> {
    item + ": uses undefined facet '"@ + facet + "'"@
}

/// The message for a facet value outside the allowed values.
pub open spec fn msg_invalid_value(item: Seq<char>, facet: Seq<char>, value: Seq<char>) -> Seq<
    char,
> {
    item + ": facet '"@ + facet + "' has invalid value '"@ + value
        + "' (not in allowed values)"@
}

/// The message for a facet whose value is an empty array.
pub open spec fn msg_empty_array(item: Seq<char>, facet: Seq<char>) -> Seq<char> {
    item + ": facet '"@ + facet + "' has empty array"@
}

/// The message for an array element that is not a string.
pub open spec fn msg_non_string(item: Seq<char>, facet: Seq<char>) -> Seq<char> {
    item + ": facet '"@ + facet + "' array contains non-string value"@
}

/// The message for a facet value that is neither a string nor an array.
pub open spec fn msg_wrong_kind(item: Seq<char>, facet: Seq<char>) -> Seq<char> {
    item + ": facet '"@ + facet + "' must be a string or array of strings"@
}

/// The violations of the elements of an array value, first element first.
pub open spec fn array_errors(
    item: Seq<char>,
    facet: Seq<char>,
    elements: Seq<JsonValue>,
    allowed: Seq<Seq<char>>,
) -> Seq<Seq<char>>
    decreases elements.len(),
{
    if elements.len() == 0 {
        Seq::<Seq<char>>::empty()
    } else {
        array_errors(item, facet, elements.drop_last(), allowed) + (match elements.last() {
            JsonValue::Text(s) => if allowed.contains(s@) {
                Seq::<Seq<char>>::empty()
            } else {
                seq![msg_invalid_value(item, facet, s@)]
            },
            _ => seq![msg_non_string(item, facet)],
        })
    }
}

/// The violations of one facet of an item.
pub open spec fn facet_errors(
    item: Seq<char>,
    facet: Seq<char>,
    value: JsonValue,
    dims: StrMap<Vec<String>>,
) -> Seq<Seq<char>> {
    if !dims.has_key(facet) {
        seq![msg_undefined_facet(item, facet)]
    } else {
        let allowed = texts(dims.spec_get(facet)->0@);
        match value {
            JsonValue::Text(s) => if allowed.contains(s@) {
                Seq::<Seq<char>>::empty()
            } else {
                seq![msg_invalid_value(item, facet, s@)]
            },
            JsonValue::Array(a) => (if a@.len() == 0 {
                seq![msg_empty_array(item, facet)]
            } else {
                Seq::<Seq<char>>::empty()
            }) + array_errors(item, facet, a@, allowed),
            _ => seq![msg_wrong_kind(item, facet)],
        }
    }
}

/// The violations of the first `upto` facets of an item.
pub open spec fn facets_errors_upto(
    item: Seq<char>,
    facets: StrMap<JsonValue>,
    dims: StrMap<Vec<String>>,
    upto: int,
) -> Seq<Seq<char>>
    decreases upto,
{
    if upto <= 0 {
        Seq::<Seq<char>>::empty()
    } else {
        facets_errors_upto(item, facets, dims, upto - 1) + facet_errors(
            item,
            facets.entries@[upto - 1].0@,
            facets.entries@[upto - 1].1,
            dims,
        )
    }
}

fn item_facet_message(item: &str, facet: &str, tail: &str) -> (m: String)
    ensures
        m@ == item@ + ": facet '"@ + facet@ + tail@,
{
    let mut m = item.to_owned();
    m.append(": facet '");
    m.append(facet);
    m.append(tail);
    m
}

fn invalid_value_message(item: &str, facet: &str, value: &str) -> (m: String)
    ensures
        m@ == msg_invalid_value(item@, facet@, value@),
{
    let mut m = item.to_owned();
    m.append(": facet '");
    m.append(facet);
    m.append("' has invalid value '");
    m.append(value);
    m.append("' (not in allowed values)");
    m
}

fn undefined_facet_message(item: &str, facet: &str) -> (m: String)
    ensures
        m@ == msg_undefined_facet(item@, facet@),
{
    let mut m = item.to_owned();
    m.append(": uses undefined facet '");
    m.append(facet);
    m.append("'");
    m
}

/// Appends to `errors` the violations of one facet of an item.
#[verifier::rlimit(50)]
pub fn validate_facet(
    item_ref: &str,
    facet_name: &str,
    facet_value: &JsonValue,
    dims: &StrMap<Vec<String>>,
    errors: &mut Vec<String>,
)
    ensures
        texts(final(errors)@) == texts(old(errors)@) + facet_errors(
            item_ref@,
            facet_name@,
            *facet_value,
            *dims,
        ),
{
    let ghost begin = texts(errors@);
    proof {
        assert(begin =~= begin + Seq::<Seq<char>>::empty());
    }
    match dims.get(facet_name) {
        None => {
            report(errors, undefined_facet_message(item_ref, facet_name));
        },
        Some(allowed_values) => {
            let ghost allowed = texts(allowed_values@);
            match facet_value {
                JsonValue::Text(s) => {
                    if !contains_string(allowed_values, s.as_str()) {
                        report(errors, invalid_value_message(item_ref, facet_name, s.as_str()));
                    }
                },
                JsonValue::Array(arr) => {
                    if arr.len() == 0 {
                        report(
                            errors,
                            item_facet_message(item_ref, facet_name, "' has empty array"),
                        );
                    }
                    let ghost head = texts(errors@);
                    let mut i: usize = 0;
                    assert(head =~= head + array_errors(
                        item_ref@,
                        facet_name@,
                        arr@.take(0),
                        allowed,
                    ));
                    while i < arr.len()
                        invariant
                            i <= arr@.len(),
                            allowed == texts(allowed_values@),
                            texts(errors@) == head + array_errors(
                                item_ref@,
                                facet_name@,
                                arr@.take(i as int),
                                allowed,
                            ),
                        decreases arr@.len() - i,
                    {
                        proof {
                            assert(arr@.take(i + 1).drop_last() =~= arr@.take(i as int));
                            assert(arr@.take(i + 1).last() == arr@[i as int]);
                            assert(head =~= head + Seq::<Seq<char>>::empty());
                        }
                        match &arr[i] {
                            JsonValue::Text(s) => {
                                if !contains_string(allowed_values, s.as_str()) {
                                    report(
                                        errors,
                                        invalid_value_message(item_ref, facet_name, s.as_str()),
                                    );
                                }
                            },
                            _ => {
                                report(
                                    errors,
                                    item_facet_message(
                                        item_ref,
                                        facet_name,
                                        "' array contains non-string value",
                                    ),
                                );
                            },
                        }
                        assert(texts(errors@) =~= head + array_errors(
                            item_ref@,
                            facet_name@,
                            arr@.take(i + 1),
                            allowed,
                        ));
                        i += 1;
                    }
                    assert(arr@.take(arr@.len() as int) =~= arr@);
                    assert(texts(errors@) =~= begin + facet_errors(
                        item_ref@,
                        facet_name@,
                        *facet_value,
                        *dims,
                    ));
                },
                _ => {
                    report(
                        errors,
                        item_facet_message(
                            item_ref,
                            facet_name,
                            "' must be a string or array of strings",
                        ),
                    );
                },
            }
        },
    }
}

/// The message for an item without a name.
pub open spec fn msg_name_empty(item: Seq<char>) -> Seq<char> {
    item + ": name cannot be empty"@
}

/// The message for an item whose name another item has too.
pub open spec fn msg_duplicate_name(item: Seq<char>) -> Seq<char> {
    item + ": duplicate item name"@
}

/// The message for an item without a path.
pub open spec fn msg_path_empty(item: Seq<char>) -> Seq<char> {
    item + ": classical_path cannot be empty"@
}

/// The message for a path that does not start at the root.
pub open spec fn msg_path_start(item: Seq<char>, root: Seq<char>, found: Seq<char>) -> Seq<char> {
    item + ": classical_path must start with root '"@ + root + "', found '"@ + found + "'"@
}

/// The message for an item without facets.
pub open spec fn msg_no_facets(item: Seq<char>) -> Seq<char> {
    item + ": must have at least one facet"@
}

/// Whether another item of `items` has the name of the item at `idx`.
pub open spec fn name_repeated(items: Seq<Item>, idx: int) -> bool {
    exists|j: int| 0 <= j < items.len() && j != idx && #[trigger] items[j].name@ == items[idx].name@
}

/// The violations of the path of an item.
pub open spec fn item_path_errors(
    item: Seq<char>,
    path: Seq<Seq<char>>,
    root: Seq<char>,
    edges: Map<Seq<char>, Seq<Seq<char>>>,
) -> Seq<Seq<char>> {
    if path.len() == 0 {
        seq![msg_path_empty(item)]
    } else {
        (if path[0] != root {
            seq![msg_path_start(item, root, path[0])]
        } else {
            Seq::<Seq<char>>::empty()
        }) + path_errors(item, path, edges)
    }
}

/// The violations of the item at `idx`.
pub open spec fn item_errors(
    items: Seq<Item>,
    idx: int,
    root: Seq<char>,
    edges: Map<Seq<char>, Seq<Seq<char>>>,
    dims: StrMap<Vec<String>>,
) -> Seq<Seq<char>> {
    let it = items[idx];
    let label = item_ref(idx as nat, it.name@);
    (if is_blank(it.name@) {
        seq![msg_name_empty(label)]
    } else {
        Seq::<Seq<char>>::empty()
    }) + (if name_repeated(items, idx) {
        seq![msg_duplicate_name(label)]
    } else {
        Seq::<Seq<char>>::empty()
    }) + item_path_errors(label, texts(it.classical_path@), root, edges) + (if it.facets.entries@.len()
        == 0 {
        seq![msg_no_facets(label)]
    } else {
        Seq::<Seq<char>>::empty()
    }) + facets_errors_upto(label, it.facets, dims, it.facets.entries@.len() as int)
}

/// The violations of the first `upto` items.
pub open spec fn items_errors_upto(
    items: Seq<Item>,
    root: Seq<char>,
    edges: Map<Seq<char>, Seq<Seq<char>>>,
    dims: StrMap<Vec<String>>,
    upto: int,
) -> Seq<Seq<char>>
    decreases upto,
{
    if upto <= 0 {
        Seq::<Seq<char>>::empty()
    } else {
        items_errors_upto(items, root, edges, dims, upto - 1) + item_errors(
            items,
            upto - 1,
            root,
            edges,
            dims,
        )
    }
}

/// The violations of a list of items against a hierarchy and facet dimensions.
pub open spec fn items_errors_in(
    items: Seq<Item>,
    h: ClassicalHierarchy,
    dims: StrMap<Vec<String>>,
) -> Seq<Seq<char>> {
    items_errors_upto(items, h.root@, hierarchy_edges(h), dims, items.len() as int)
}

/// The violations of the items of a taxonomy.
pub open spec fn items_errors(items: Seq<Item>, taxonomy: HybridTaxonomy) -> Seq<Seq<char>> {
    items_errors_in(items, taxonomy.classical_hierarchy, taxonomy.faceted_dimensions)
}

/// All violations of a schema with its data: of the hierarchy, of the facet
/// dimensions, and of the items.
pub open spec fn validation_errors(
    h: ClassicalHierarchy,
    dims: StrMap<Vec<String>>,
    items: Seq<Item>,
) -> Seq<Seq<char>> {
    hierarchy_errors(h) + dimensions_errors(dims) + items_errors_in(items, h, dims)
}

/// All violations of a taxonomy: of the hierarchy, of the facet dimensions,
/// and of the items where it has any.
pub open spec fn taxonomy_errors(taxonomy: HybridTaxonomy) -> Seq<Seq<char>> {
    hierarchy_errors(taxonomy.classical_hierarchy) + dimensions_errors(
        taxonomy.faceted_dimensions,
    ) + match taxonomy.example_items {
        Some(items) => items_errors(items@, taxonomy),
        None => Seq::<Seq<char>>::empty(),
    }
}

fn tail_message(item: &str, tail: &str) -> (m: String)
    ensures
        m@ == item@ + tail@,
{
    let mut m = item.to_owned();
    m.append(tail);
    m
}

fn path_start_message(item: &str, root: &str, found: &str) -> (m: String)
    ensures
        m@ == msg_path_start(item@, root@, found@),
{
    let mut m = item.to_owned();
    m.append(": classical_path must start with root '");
    m.append(root);
    m.append("', found '");
    m.append(found);
    m.append("'");
    m
}

/// Whether another item of `items` has the name of the item at `idx`.
pub fn has_name_twin(items: &[Item], idx: usize) -> (r: bool)
    requires
        idx < items@.len(),
    ensures
        r == name_repeated(items@, idx as int),
{
    let mut j: usize = 0;
    while j < items.len()
        invariant
            j <= items@.len(),
            idx < items@.len(),
            forall|k: int| 0 <= k < j && k != idx ==> items@[k].name@ != items@[idx as int].name@,
        decreases items@.len() - j,
    {
        if j != idx && items[j].name == items[idx].name {
            return true;
        }
        j += 1;
    }
    false
}

/// The violations of the name of an item.
pub open spec fn item_name_errors(label: Seq<char>, name: Seq<char>, twin: bool) -> Seq<Seq<char>> {
    (if is_blank(name) {
        seq![msg_name_empty(label)]
    } else {
        Seq::<Seq<char>>::empty()
    }) + (if twin {
        seq![msg_duplicate_name(label)]
    } else {
        Seq::<Seq<char>>::empty()
    })
}

/// The violations of the facets of an item.
pub open spec fn item_facets_errors(
    label: Seq<char>,
    facets: StrMap<JsonValue>,
    dims: StrMap<Vec<String>>,
) -> Seq<Seq<char>> {
    (if facets.entries@.len() == 0 {
        seq![msg_no_facets(label)]
    } else {
        Seq::<Seq<char>>::empty()
    }) + facets_errors_upto(label, facets, dims, facets.entries@.len() as int)
}

/// The violations of an item are those of its name, of its path and of its facets.
pub proof fn lemma_item_errors_parts(
    items: Seq<Item>,
    idx: int,
    root: Seq<char>,
    edges: Map<Seq<char>, Seq<Seq<char>>>,
    dims: StrMap<Vec<String>>,
)
    ensures
        item_errors(items, idx, root, edges, dims) == item_name_errors(
            item_ref(idx as nat, items[idx].name@),
            items[idx].name@,
            name_repeated(items, idx),
        ) + item_path_errors(
            item_ref(idx as nat, items[idx].name@),
            texts(items[idx].classical_path@),
            root,
            edges,
        ) + item_facets_errors(item_ref(idx as nat, items[idx].name@), items[idx].facets, dims),
{
    let label = item_ref(idx as nat, items[idx].name@);
    let it = items[idx];
    let a = if is_blank(it.name@) {
        seq![msg_name_empty(label)]
    } else {
        Seq::<Seq<char>>::empty()
    };
    let b = if name_repeated(items, idx) {
        seq![msg_duplicate_name(label)]
    } else {
        Seq::<Seq<char>>::empty()
    };
    let c = item_path_errors(label, texts(it.classical_path@), root, edges);
    let d = if it.facets.entries@.len() == 0 {
        seq![msg_no_facets(label)]
    } else {
        Seq::<Seq<char>>::empty()
    };
    let e = facets_errors_upto(label, it.facets, dims, it.facets.entries@.len() as int);
    assert(a + b + c + d + e =~= (a + b) + c + (d + e));
}

fn check_item_name(item_ref: &str, name: &str, twin: bool, errors: &mut Vec<String>)
    ensures
        texts(final(errors)@) == texts(old(errors)@) + item_name_errors(item_ref@, name@, twin),
{
    let ghost begin = texts(errors@);
    if blank(name) {
        report(errors, tail_message(item_ref, ": name cannot be empty"));
    }
    if twin {
        report(errors, tail_message(item_ref, ": duplicate item name"));
    }
    assert(texts(errors@) =~= begin + item_name_errors(item_ref@, name@, twin));
}

fn check_item_path(
    path: &Vec<String>,
    root: &str,
    edges: &StringHashMap<Vec<String>>,
    item_ref: &str,
    errors: &mut Vec<String>,
)
    ensures
        texts(final(errors)@) == texts(old(errors)@) + item_path_errors(
            item_ref@,
            texts(path@),
            root@,
            lookup(*edges),
        ),
{
    let ghost begin = texts(errors@);
    if path.len() == 0 {
        report(errors, tail_message(item_ref, ": classical_path cannot be empty"));
    } else {
        if !same_text(path[0].as_str(), root) {
            report(errors, path_start_message(item_ref, root, path[0].as_str()));
        }
        check_path_steps(path, edges, item_ref, errors);
        assert(texts(errors@) =~= begin + item_path_errors(
            item_ref@,
            texts(path@),
            root@,
            lookup(*edges),
        ));
    }
}

#[verifier::rlimit(50)]
fn check_item_facets(
    facets: &StrMap<JsonValue>,
    dims: &StrMap<Vec<String>>,
    item_ref: &str,
    errors: &mut Vec<String>,
)
    ensures
        texts(final(errors)@) == texts(old(errors)@) + item_facets_errors(item_ref@, *facets, *dims),
{
    let ghost begin = texts(errors@);
    if facets.is_empty() {
        report(errors, tail_message(item_ref, ": must have at least one facet"));
    }
    let ghost head = texts(errors@);
    let mut k: usize = 0;
    assert(head =~= head + facets_errors_upto(item_ref@, *facets, *dims, 0));
    while k < facets.len()
        invariant
            k <= facets.entries@.len(),
            texts(errors@) == head + facets_errors_upto(item_ref@, *facets, *dims, k as int),
        decreases facets.entries@.len() - k,
    {
        validate_facet(item_ref, facets.key_at(k).as_str(), facets.value_at(k), dims, errors);
        assert(texts(errors@) =~= head + facets_errors_upto(item_ref@, *facets, *dims, k + 1));
        k += 1;
    }
    assert(texts(errors@) =~= begin + item_facets_errors(item_ref@, *facets, *dims));
}

fn validate_item_flagged(
    items: &[Item],
    idx: usize,
    twin: bool,
    root: &str,
    edges: &StringHashMap<Vec<String>>,
    dims: &StrMap<Vec<String>>,
    errors: &mut Vec<String>,
)
    requires
        idx < items@.len(),
        twin == name_repeated(items@, idx as int),
    ensures
        texts(final(errors)@) == texts(old(errors)@) + item_errors(
            items@,
            idx as int,
            root@,
            lookup(*edges),
            *dims,
        ),
{
    let item = &items[idx];
    let label = item_label(idx, item.name.as_str());
    let ghost begin = texts(errors@);
    check_item_name(label.as_str(), item.name.as_str(), twin, errors);
    check_item_path(&item.classical_path, root, edges, label.as_str(), errors);
    check_item_facets(&item.facets, dims, label.as_str(), errors);
    proof {
        lemma_item_errors_parts(items@, idx as int, root@, lookup(*edges), *dims);
        let a = item_name_errors(label@, item.name@, twin);
        let b = item_path_errors(label@, texts(item.classical_path@), root@, lookup(*edges));
        let c = item_facets_errors(label@, item.facets, *dims);
        assert(begin + a + b + c =~= begin + (a + b + c));
    }
}

/// Appends to `errors` the violations of the item at `idx`, against the root
/// name, the parent-to-children map and the facet dimensions.
pub fn validate_item(
    items: &[Item],
    idx: usize,
    root: &str,
    edges: &StringHashMap<Vec<String>>,
    dims: &StrMap<Vec<String>>,
    errors: &mut Vec<String>,
)
    requires
        idx < items@.len(),
    ensures
        texts(final(errors)@) == texts(old(errors)@) + item_errors(
            items@,
            idx as int,
            root@,
            lookup(*edges),
            *dims,
        ),
{
    let twin = has_name_twin(items, idx);
    validate_item_flagged(items, idx, twin, root, edges, dims, errors);
}

/// For each item, whether another item has its name. One pass over the
/// items, with a table from each name to the position where it first stood.
#[verifier::rlimit(50)]
pub fn twin_flags(items: &[Item]) -> (flags: Vec<bool>)
    ensures
        flags@.len() == items@.len(),
        forall|k: int| 0 <= k < items@.len() ==> flags@[k] == name_repeated(items@, k),
{
    let mut first: StringHashMap<usize> = StringHashMap::new();
    let mut flags: Vec<bool> = Vec::new();
    let mut i: usize = 0;
    while i < items.len()
        invariant
            i <= items@.len(),
            flags@.len() == i,
            forall|name: Seq<char>|
                first@.contains_key(name) ==> (#[trigger] first@[name]) < i && items@[first@[name] as int].name@
                    == name,
            forall|k: int| 0 <= k < i ==> first@.contains_key(#[trigger] items@[k].name@),
            forall|k: int|
                0 <= k < i ==> (#[trigger] flags@[k] <==> exists|j: int|
                    0 <= j < i && j != k && #[trigger] items@[j].name@ == items@[k].name@),
        decreases items@.len() - i,
    {
        let ghost before = flags@;
        let found = match first.get(items[i].name.as_str()) {
            Some(at) => Some(*at),
            None => None,
        };
        match found {
            Some(at) => {
                flags.set(at, true);
                flags.push(true);
                proof {
                    let name = items@[i as int].name@;
                    assert(items@[at as int].name@ == name);
                    assert forall|k: int| 0 <= k < i + 1 implies (#[trigger] flags@[k] <==> exists|
                        j: int,
                    |
                        0 <= j < i + 1 && j != k && #[trigger] items@[j].name@
                            == items@[k].name@) by {
                        if k == i {
                            assert(items@[at as int].name@ == items@[k].name@);
                        } else if k == at {
                            assert(items@[i as int].name@ == items@[k].name@);
                        } else {
                            assert(flags@[k] == before[k]);
                            if before[k] {
                                let j = choose|j: int|
                                    0 <= j < i && j != k && #[trigger] items@[j].name@
                                        == items@[k].name@;
                                assert(items@[j].name@ == items@[k].name@);
                            } else {
                                if items@[k].name@ == name {
                                    assert(items@[at as int].name@ == items@[k].name@);
                                }
                            }
                        }
                    }
                }
            },
            None => {
                first.insert(items[i].name.clone(), i);
                flags.push(false);
                proof {
                    let name = items@[i as int].name@;
                    assert forall|k: int| 0 <= k < i implies items@[k].name@ != name by {
                        assert(first@.remove(name).contains_key(items@[k].name@) || items@[k].name@
                            == name);
                    }
                    assert forall|k: int| 0 <= k < i + 1 implies (#[trigger] flags@[k] <==> exists|
                        j: int,
                    |
                        0 <= j < i + 1 && j != k && #[trigger] items@[j].name@
                            == items@[k].name@) by {
                        if k < i {
                            assert(flags@[k] == before[k]);
                            if before[k] {
                                let j = choose|j: int|
                                    0 <= j < i && j != k && #[trigger] items@[j].name@
                                        == items@[k].name@;
                                assert(items@[j].name@ == items@[k].name@);
                            }
                        }
                    }
                }
            },
        }
        i += 1;
    }
    flags
}

/// Appends to `errors` the violations of `items` against a hierarchy and
/// facet dimensions. The parent-to-children map is built once, by one walk
/// over the hierarchy.
#[verifier::rlimit(50)]
pub fn validate_items_in(
    items: &[Item],
    hierarchy: &ClassicalHierarchy,
    dims: &StrMap<Vec<String>>,
    errors: &mut Vec<String>,
)
    ensures
        texts(final(errors)@) == texts(old(errors)@) + items_errors_in(items@, *hierarchy, *dims),
{
    let mut edges: StringHashMap<Vec<String>> = StringHashMap::new();
    assert(lookup(edges) =~= Map::empty());
    build_valid_paths(hierarchy.root.as_str(), &hierarchy.children, &mut edges);
    let ghost begin = texts(errors@);
    let ghost root = hierarchy.root@;
    let flags = twin_flags(items);
    let mut i: usize = 0;
    assert(begin =~= begin + items_errors_upto(items@, root, lookup(edges), *dims, 0));
    while i < items.len()
        invariant
            i <= items@.len(),
            flags@.len() == items@.len(),
            forall|k: int| 0 <= k < items@.len() ==> flags@[k] == name_repeated(items@, k),
            root == hierarchy.root@,
            lookup(edges) == hierarchy_edges(*hierarchy),
            texts(errors@) == begin + items_errors_upto(
                items@,
                root,
                lookup(edges),
                *dims,
                i as int,
            ),
        decreases items@.len() - i,
    {
        validate_item_flagged(items, i, flags[i], hierarchy.root.as_str(), &edges, dims, errors);
        assert(texts(errors@) =~= begin + items_errors_upto(
            items@,
            root,
            lookup(edges),
            *dims,
            i + 1,
        ));
        i += 1;
    }
}

/// Appends to `errors` the violations of `items` against the hierarchy and
/// the facet dimensions of `taxonomy`.
pub fn validate_items(items: &[Item], taxonomy: &HybridTaxonomy, errors: &mut Vec<String>)
    ensures
        texts(final(errors)@) == texts(old(errors)@) + items_errors(items@, *taxonomy),
{
    validate_items_in(items, &taxonomy.classical_hierarchy, &taxonomy.faceted_dimensions, errors);
}

/// Appends to `errors` the violations of a hierarchy.
pub fn validate_hierarchy(hierarchy: &ClassicalHierarchy, errors: &mut Vec<String>)
    ensures
        texts(final(errors)@) == texts(old(errors)@) + hierarchy_errors(*hierarchy),
{
    let ghost begin = texts(errors@);
    let ghost none = Seq::<Seq<char>>::empty();
    assert(begin =~= begin + none);
    if blank(hierarchy.root.as_str()) {
        report(errors, String::from_str("Classical hierarchy root cannot be empty"));
    }
    let ghost e0 = texts(errors@);
    match &hierarchy.children {
        Some(children) => {
            validate_hierarchy_nodes(children.as_slice(), hierarchy.root.as_str(), errors);
        },
        None => {
            assert(e0 =~= e0 + none);
        },
    }
    assert(texts(errors@) =~= begin + hierarchy_errors(*hierarchy));
}

/// Checks data against its schema by every rule. Returns `Ok` where nothing
/// is violated, otherwise all violations: those of the hierarchy, those of
/// the facet dimensions, those of the items, each group in document order.
pub fn validate(schema: &TaxonomySchema, data: &TaxonomyData) -> (r: Result<(), Vec<String>>)
    ensures
        r is Ok <==> validation_errors(
            schema.classical_hierarchy,
            schema.faceted_dimensions,
            data.items@,
        ).len() == 0,
        r matches Err(errors) ==> texts(errors@) == validation_errors(
            schema.classical_hierarchy,
            schema.faceted_dimensions,
            data.items@,
        ),
{
    let mut errors: Vec<String> = Vec::new();
    assert(texts(errors@) =~= Seq::<Seq<char>>::empty());
    validate_hierarchy(&schema.classical_hierarchy, &mut errors);
    validate_dimensions(&schema.faceted_dimensions, &mut errors);
    validate_items_in(
        data.items.as_slice(),
        &schema.classical_hierarchy,
        &schema.faceted_dimensions,
        &mut errors,
    );
    assert(texts(errors@) =~= validation_errors(
        schema.classical_hierarchy,
        schema.faceted_dimensions,
        data.items@,
    ));
    assert(texts(errors@).len() == errors@.len());
    if errors.len() == 0 {
        Ok(())
    } else {
        Err(errors)
    }
}

/// Checks a taxonomy against every rule. Returns `Ok` where nothing is
/// violated, otherwise all violations: those of the hierarchy, those of the
/// facet dimensions, those of the items, each group in document order.
#[verifier::rlimit(50)]
pub fn validate_taxonomy(taxonomy: &HybridTaxonomy) -> (r: Result<(), Vec<String>>)
    ensures
        r is Ok <==> taxonomy_errors(*taxonomy).len() == 0,
        r matches Err(errors) ==> texts(errors@) == taxonomy_errors(*taxonomy),
{
    let mut errors: Vec<String> = Vec::new();
    let ghost none = Seq::<Seq<char>>::empty();
    assert(texts(errors@) =~= none);
    validate_hierarchy(&taxonomy.classical_hierarchy, &mut errors);
    assert(texts(errors@) =~= hierarchy_errors(taxonomy.classical_hierarchy));
    validate_dimensions(&taxonomy.faceted_dimensions, &mut errors);
    let ghost e1 = texts(errors@);
    match &taxonomy.example_items {
        Some(items) => {
            validate_items(items.as_slice(), taxonomy, &mut errors);
        },
        None => {
            assert(e1 =~= e1 + none);
        },
    }
    assert(texts(errors@) =~= taxonomy_errors(*taxonomy));
    assert(texts(errors@).len() == errors@.len());
    if errors.len() == 0 {
        Ok(())
    } else {
        Err(errors)
    }
}

/// Whether every node of the list names `parent` as its genus, and every
/// node below names the species above it.
pub open spec fn nodes_linked(nodes: Seq<HierarchyNode>, parent: Seq<char>) -> bool
    decreases nodes, 0nat,
{
    nodes.len() == 0 || (nodes_linked(nodes.drop_last(), parent) && node_linked(
        nodes.last(),
        parent,
    ))
}

/// Whether the node names `parent` as its genus, and every node below names
/// the species above it.
pub open spec fn node_linked(n: HierarchyNode, parent: Seq<char>) -> bool
    decreases n, 1nat,
{
    n.genus@ == parent && match n.children {
        Some(v) => nodes_linked(v@, n.species@),
        None => true,
    }
}

/// Whether no node of the list, and none below, has a blank genus, species or differentia.
pub open spec fn nodes_filled(nodes: Seq<HierarchyNode>) -> bool
    decreases nodes, 0nat,
{
    nodes.len() == 0 || (nodes_filled(nodes.drop_last()) && node_filled(nodes.last()))
}

/// Whether neither the node nor any node below has a blank genus, species or differentia.
pub open spec fn node_filled(n: HierarchyNode) -> bool
    decreases n, 1nat,
{
    !is_blank(n.genus@) && !is_blank(n.species@) && !is_blank(n.differentia@) && match n.children {
        Some(v) => nodes_filled(v@),
        None => true,
    }
}

/// Whether every node of the hierarchy names as its genus the species of its
/// parent, the root name at the top.
pub open spec fn hierarchy_linked(h: ClassicalHierarchy) -> bool {
    match h.children {
        Some(v) => nodes_linked(v@, h.root@),
        None => true,
    }
}

/// Whether the root name and every name and differentia in the hierarchy is not blank.
pub open spec fn hierarchy_filled(h: ClassicalHierarchy) -> bool {
    !is_blank(h.root@) && match h.children {
        Some(v) => nodes_filled(v@),
        None => true,
    }
}

/// A list of siblings is free of violations exactly where it is linked and filled.
pub proof fn lemma_nodes_valid(nodes: Seq<HierarchyNode>, parent: Seq<char>)
    ensures
        nodes_errors(nodes, parent).len() == 0 <==> nodes_linked(nodes, parent) && nodes_filled(
            nodes,
        ),
    decreases nodes, 0nat,
{
    if nodes.len() > 0 {
        lemma_nodes_valid(nodes.drop_last(), parent);
        lemma_node_valid(nodes.last(), parent);
    }
}

/// A node is free of violations exactly where it is linked and filled.
pub proof fn lemma_node_valid(n: HierarchyNode, parent: Seq<char>)
    ensures
        node_errors(n, parent).len() == 0 <==> node_linked(n, parent) && node_filled(n),
    decreases n, 1nat,
{
    match n.children {
        Some(v) => {
            lemma_nodes_valid(v@, n.species@);
        },
        None => {},
    }
}

/// A hierarchy is free of violations exactly where every node names as its
/// genus the species of its parent and no name or differentia is blank.
pub proof fn lemma_hierarchy_valid(h: ClassicalHierarchy)
    ensures
        hierarchy_errors(h).len() == 0 <==> hierarchy_linked(h) && hierarchy_filled(h),
{
    match h.children {
        Some(v) => {
            lemma_nodes_valid(v@, h.root@);
        },
        None => {},
    }
}

/// Among hierarchies without blank names, the valid ones are those in which
/// every node's genus equals the species of its parent.
pub proof fn lemma_valid_iff_linked(h: ClassicalHierarchy)
    requires
        hierarchy_filled(h),
    ensures
        hierarchy_errors(h).len() == 0 <==> hierarchy_linked(h),
{
    lemma_hierarchy_valid(h);
}

} // verus!
