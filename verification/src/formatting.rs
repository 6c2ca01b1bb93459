//! Texts for display: the facet dimensions on one line, and the hierarchy as
//! a list of indented labels.

use crate::json::{compact_text, json_model, json_text, JsonValue};
use crate::models::{string_elements, text_elements, ClassicalHierarchy, HierarchyNode};
use crate::sorting::{sort_strings, sorted_texts};
use crate::strmap::StrMap;
use crate::text::{join, join_texts, texts};
use crate::validation::steps_from;
use vstd::prelude::*;
use vstd::string::StringExecFns;

verus! {

/// A line of the hierarchy display: a label and how far it is indented.
#[derive(Debug, PartialEq, Eq)]
pub struct TreeNode {
    pub label: String,
    pub indent_level: i32,
}

/// The line for one facet dimension: its name, a colon, its values with commas.
pub open spec fn dimension_line(name: Seq<char>, values: Seq<Seq<char>>) -> Seq<char> {
    name + ": "@ + join(values, ", "@)
}

/// The lines of all facet dimensions, in entry order.
pub open spec fn dimension_lines(dims: StrMap<Vec<String>>) -> Seq<Seq<char>> {
    Seq::new(
        dims.entries@.len(),
        |i: int| dimension_line(dims.entries@[i].0@, texts(dims.entries@[i].1@)),
    )
}

/// The facet dimensions on one line: the line of each, in the order of
/// strings, with a bullet between neighbours.
pub open spec fn dimensions_text(dims: StrMap<Vec<String>>) -> Seq<char> {
    join(sorted_texts(dimension_lines(dims)), " \u{2022} "@)
}

/// The facet dimensions on one line.
#[verifier::rlimit(50)]
pub fn format_facet_dimensions(dimensions: &StrMap<Vec<String>>) -> (r: String)
    ensures
        r@ == dimensions_text(*dimensions),
{
    let mut dim_lines: Vec<String> = Vec::new();
    let mut i: usize = 0;
    while i < dimensions.len()
        invariant
            i <= dimensions.entries@.len(),
            dim_lines@.len() == i,
            forall|k: int|
                0 <= k < i ==> (#[trigger] dim_lines@[k])@ == dimension_line(
                    dimensions.entries@[k].0@,
                    texts(dimensions.entries@[k].1@),
                ),
        decreases dimensions.entries@.len() - i,
    {
        let mut line = dimensions.key_at(i).clone();
        line.append(": ");
        let values = join_texts(dimensions.value_at(i), ", ");
        line.append(values.as_str());
        dim_lines.push(line);
        i += 1;
    }
    assert(texts(dim_lines@) =~= dimension_lines(*dimensions));
    let sorted = sort_strings(&dim_lines);
    join_texts(&sorted, " \u{2022} ")
}

/// How a facet value is shown: a string as it is, an array as its string
/// elements with commas between them, anything else as its JSON text.
pub open spec fn shown_value(v: JsonValue) -> Seq<char> {
    match v {
        JsonValue::Text(s) => s@,
        JsonValue::Array(a) => join(text_elements(a@), ", "@),
        _ => json_text(json_model(v)),
    }
}

/// The line for one facet: a bullet, its name, a colon, its value.
pub open spec fn facet_line(name: Seq<char>, value: JsonValue) -> Seq<char> {
    "\u{2022} "@ + name + ": "@ + shown_value(value)
}

/// The lines of all facets, in entry order.
pub open spec fn facet_lines(facets: StrMap<JsonValue>) -> Seq<Seq<char>> {
    Seq::new(
        facets.entries@.len(),
        |i: int| facet_line(facets.entries@[i].0@, facets.entries@[i].1),
    )
}

/// The facets of an item for display: one line for each, in the order of strings.
pub fn format_facets(facets: &StrMap<JsonValue>) -> (r: String)
    ensures
        r@ == join(sorted_texts(facet_lines(*facets)), "\n"@),
{
    let mut lines: Vec<String> = Vec::new();
    let mut i: usize = 0;
    while i < facets.len()
        invariant
            i <= facets.entries@.len(),
            lines@.len() == i,
            forall|k: int|
                0 <= k < i ==> (#[trigger] lines@[k])@ == facet_line(
                    facets.entries@[k].0@,
                    facets.entries@[k].1,
                ),
        decreases facets.entries@.len() - i,
    {
        let value = facets.value_at(i);
        let shown = match value {
            JsonValue::Text(s) => s.clone(),
            JsonValue::Array(a) => {
                let elements = string_elements(a);
                join_texts(&elements, ", ")
            },
            _ => compact_text(value),
        };
        let mut line = String::from_str("\u{2022} ");
        line.append(facets.key_at(i).as_str());
        line.append(": ");
        line.append(shown.as_str());
        lines.push(line);
        i += 1;
    }
    assert(texts(lines@) =~= facet_lines(*facets));
    let sorted = sort_strings(&lines);
    join_texts(&sorted, "\n")
}

/// The label of a node: its species, with the differentia in brackets where it has one.
pub open spec fn node_label(n: HierarchyNode) -> Seq<char> {
    if n.differentia@.len() == 0 {
        n.species@
    } else {
        n.species@ + " ("@ + n.differentia@ + ")"@
    }
}

/// The level below `level`; the deepest level that can be written stays as it is.
pub open spec fn deeper(level: int) -> int {
    if level < i32::MAX {
        level + 1
    } else {
        level
    }
}

/// The lines of a node and of all nodes below it, in pre-order.
pub open spec fn flat_node(n: HierarchyNode, level: int) -> Seq<(Seq<char>, int)>
    decreases n, 1nat,
{
    seq![(node_label(n), level)] + match n.children {
        Some(v) => flat_nodes(v@, deeper(level)),
        None => Seq::<(Seq<char>, int)>::empty(),
    }
}

/// The lines of a list of siblings at `level`.
pub open spec fn flat_nodes(nodes: Seq<HierarchyNode>, level: int) -> Seq<(Seq<char>, int)>
    decreases nodes, 0nat,
{
    if nodes.len() == 0 {
        Seq::<(Seq<char>, int)>::empty()
    } else {
        flat_nodes(nodes.drop_last(), level) + flat_node(nodes.last(), level)
    }
}

/// The lines of a hierarchy: its top-level nodes at level zero.
pub open spec fn flat_hierarchy(h: ClassicalHierarchy) -> Seq<(Seq<char>, int)> {
    match h.children {
        Some(v) => flat_nodes(v@, 0),
        None => Seq::<(Seq<char>, int)>::empty(),
    }
}

/// What a list of display lines holds.
pub open spec fn lines_of(nodes: Seq<TreeNode>) -> Seq<(Seq<char>, int)> {
    Seq::new(nodes.len(), |i: int| (nodes[i].label@, nodes[i].indent_level as int))
}

/// A list of siblings that is being written out: the nodes, how many of
/// them were written, and their level.
pub struct LevelFrame<'a> {
    pub nodes: &'a [HierarchyNode],
    pub next: usize,
    pub level: i32,
}

/// The lines of the nodes from position `k` on, and of all nodes below them.
pub open spec fn flat_from(nodes: Seq<HierarchyNode>, k: int, level: int) -> Seq<(Seq<char>, int)>
    decreases nodes.len() - k,
{
    if k < 0 || k >= nodes.len() {
        Seq::<(Seq<char>, int)>::empty()
    } else {
        flat_node(nodes[k], level) + flat_from(nodes, k + 1, level)
    }
}

/// The lines of the nodes before `k` and of those from `k` on are those of all.
pub proof fn lemma_flat_from(nodes: Seq<HierarchyNode>, k: int, level: int)
    requires
        0 <= k <= nodes.len(),
    ensures
        flat_nodes(nodes.take(k), level) + flat_from(nodes, k, level) == flat_nodes(nodes, level),
    decreases nodes.len() - k,
{
    if k < nodes.len() {
        assert(nodes.take(k + 1).drop_last() =~= nodes.take(k));
        assert(nodes.take(k + 1).last() == nodes[k]);
        lemma_flat_from(nodes, k + 1, level);
        assert(flat_nodes(nodes.take(k), level) + (flat_node(nodes[k], level) + flat_from(
            nodes,
            k + 1,
            level,
        )) =~= (flat_nodes(nodes.take(k), level) + flat_node(nodes[k], level)) + flat_from(
            nodes,
            k + 1,
            level,
        ));
    } else {
        assert(nodes.take(k) =~= nodes);
        assert(flat_nodes(nodes, level) + Seq::<(Seq<char>, int)>::empty() =~= flat_nodes(
            nodes,
            level,
        ));
    }
}

/// The lines that the lists on the stack still hold, innermost list first.
pub open spec fn pending_lines(stack: Seq<LevelFrame>) -> Seq<(Seq<char>, int)>
    decreases stack.len(),
{
    if stack.len() == 0 {
        Seq::<(Seq<char>, int)>::empty()
    } else {
        flat_from(stack.last().nodes@, stack.last().next as int, stack.last().level as int)
            + pending_lines(stack.drop_last())
    }
}

/// The steps that the stack still takes.
pub open spec fn lines_left(stack: Seq<LevelFrame>) -> nat
    decreases stack.len(),
{
    if stack.len() == 0 {
        0
    } else {
        lines_left(stack.drop_last()) + 1 + steps_from(
            stack.last().nodes@,
            stack.last().next as int,
        )
    }
}

fn label_of(node: &HierarchyNode) -> (label: String)
    ensures
        label@ == node_label(*node),
{
    if node.differentia.as_str().is_empty() {
        node.species.clone()
    } else {
        let mut l = node.species.clone();
        l.append(" (");
        l.append(node.differentia.as_str());
        l.append(")");
        l
    }
}

#[verifier::rlimit(50)]
fn flatten_nodes(list: &[HierarchyNode], indent_level: i32, nodes: &mut Vec<TreeNode>)
    ensures
        lines_of(final(nodes)@) == lines_of(old(nodes)@) + flat_nodes(list@, indent_level as int),
{
    let ghost target = lines_of(nodes@) + flat_nodes(list@, indent_level as int);
    let mut stack: Vec<LevelFrame> = Vec::new();
    let first = LevelFrame { nodes: list, next: 0, level: indent_level };
    stack.push(first);
    proof {
        lemma_flat_from(list@, 0, indent_level as int);
        assert(list@.take(0) =~= Seq::<HierarchyNode>::empty());
        assert(flat_nodes(list@.take(0), indent_level as int) + flat_from(
            list@,
            0,
            indent_level as int,
        ) =~= flat_from(list@, 0, indent_level as int));
        assert(stack@.drop_last() =~= Seq::<LevelFrame>::empty());
        assert(stack@.last() == first);
        assert(pending_lines(stack@.drop_last()) == Seq::<(Seq<char>, int)>::empty());
        assert(pending_lines(stack@) =~= flat_nodes(list@, indent_level as int));
    }
    while stack.len() > 0
        invariant
            lines_of(nodes@) + pending_lines(stack@) == target,
            forall|i: int| 0 <= i < stack@.len() ==> (#[trigger] stack@[i]).next <= stack@[i].nodes@.len(),
        decreases lines_left(stack@),
    {
        let ghost whole = stack@;
        let ghost start = lines_of(nodes@);
        let top = stack.pop().unwrap();
        let ghost rest = stack@;
        assert(whole.drop_last() =~= rest);
        assert(whole.last() == top);
        assert(top.next <= top.nodes@.len()) by {
            assert(whole[whole.len() - 1] == top);
        }
        assert forall|i: int| 0 <= i < rest.len() implies (#[trigger] rest[i]).next
            <= rest[i].nodes@.len() by {
            assert(rest[i] == whole[i]);
        }
        let ghost later = pending_lines(rest);
        assert(pending_lines(whole) == flat_from(top.nodes@, top.next as int, top.level as int)
            + later);
        assert(lines_left(whole) == lines_left(rest) + 1 + steps_from(top.nodes@, top.next as int));
        if top.next < top.nodes.len() {
            let node = &top.nodes[top.next];
            let moved = LevelFrame { nodes: top.nodes, next: top.next + 1, level: top.level };
            let ghost own = seq![(node_label(*node), top.level as int)];
            nodes.push(TreeNode { label: label_of(node), indent_level: top.level });
            assert(lines_of(nodes@) =~= start + own);
            stack.push(moved);
            assert(stack@.drop_last() =~= rest);
            assert(stack@.last() == moved);
            let ghost after = flat_from(top.nodes@, top.next + 1, top.level as int);
            match &node.children {
                None => {
                    proof {
                        assert(flat_node(*node, top.level as int) =~= own);
                        assert(pending_lines(stack@) == after + later);
                        assert((start + own) + (after + later) =~= start + ((own + after) + later));
                    }
                },
                Some(below) => {
                    let next_level: i32 = if top.level < i32::MAX {
                        top.level + 1
                    } else {
                        top.level
                    };
                    let inner = LevelFrame { nodes: below.as_slice(), next: 0, level: next_level };
                    let ghost outer = stack@;
                    stack.push(inner);
                    proof {
                        let under = flat_nodes(below@, deeper(top.level as int));
                        assert(stack@.drop_last() =~= outer);
                        assert(stack@.last() == inner);
                        assert(outer.drop_last() =~= rest);
                        assert(outer.last() == moved);
                        lemma_flat_from(below@, 0, next_level as int);
                        assert(below@.take(0) =~= Seq::<HierarchyNode>::empty());
                        assert(flat_nodes(below@.take(0), next_level as int) + flat_from(
                            below@,
                            0,
                            next_level as int,
                        ) =~= flat_from(below@, 0, next_level as int));
                        assert(flat_from(below@, 0, next_level as int) == under);
                        assert(flat_node(*node, top.level as int) == own + under);
                        assert(pending_lines(outer) == after + later);
                        assert(pending_lines(stack@) == under + (after + later));
                        assert((start + own) + (under + (after + later)) =~= start + (((own
                            + under) + after) + later));
                        assert(lines_left(stack@) == lines_left(outer) + 1 + steps_from(below@, 0));
                        assert(lines_left(outer) == lines_left(rest) + 1 + steps_from(
                            top.nodes@,
                            top.next + 1,
                        ));
                    }
                },
            }
        } else {
            assert(flat_from(top.nodes@, top.next as int, top.level as int) + later =~= later);
        }
    }
    assert(lines_of(nodes@) + Seq::<(Seq<char>, int)>::empty() =~= lines_of(nodes@));
}

/// The hierarchy as a list of lines, each node before the nodes below it,
/// with the level of each.
pub fn flatten_hierarchy(hierarchy: &ClassicalHierarchy) -> (r: Vec<TreeNode>)
    ensures
        lines_of(r@) == flat_hierarchy(*hierarchy),
{
    let mut nodes: Vec<TreeNode> = Vec::new();
    assert(lines_of(nodes@) =~= Seq::<(Seq<char>, int)>::empty());
    match &hierarchy.children {
        Some(children) => {
            flatten_nodes(children.as_slice(), 0, &mut nodes);
        },
        None => {},
    }
    nodes
}

} // verus!
