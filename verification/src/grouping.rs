//! The group engine: items gathered under the values of one facet. An item
//! with several values stands in several groups.

use crate::models::{item_models, Item, ItemModel};
use crate::strmap::{
    added, keys_of, lemma_position_bounds, lemma_pushed_under, position, seen_lists, StrMap,
};
use crate::sorting::{sort_strings, sorted_texts};
use crate::text::texts;
use vstd::prelude::*;

verus! {

/// The label of the group for items that lack the facet.
pub open spec fn unspecified() -> Seq<char> {
    "_unspecified_"@
}

/// `x` added to the group of each label in turn.
pub open spec fn added_all<X>(m: Seq<(Seq<char>, Seq<X>)>, labels: Seq<Seq<char>>, x: X) -> Seq<
    (Seq<char>, Seq<X>),
>
    decreases labels.len(),
{
    if labels.len() == 0 {
        m
    } else {
        added(added_all(m, labels.drop_last(), x), labels.last(), x)
    }
}

/// The groups of `items` by the facet called `field`: each item goes into
/// the group of each of its values, or into the unspecified group where it
/// has none. Groups stand in the order in which they first got an item, and
/// the items of a group in their own order.
pub open spec fn grouped(items: Seq<Item>, field: Seq<char>) -> Seq<(Seq<char>, Seq<ItemModel>)>
    decreases items.len(),
{
    if items.len() == 0 {
        Seq::<(Seq<char>, Seq<ItemModel>)>::empty()
    } else {
        let before = grouped(items.drop_last(), field);
        let labels = items.last().spec_facet_texts(field);
        if labels.len() == 0 {
            added(before, unspecified(), items.last().deep_view())
        } else {
            added_all(before, labels, items.last().deep_view())
        }
    }
}

/// The groups of a map, each with the models of its items.
pub open spec fn group_lists(m: StrMap<Vec<Item>>) -> Seq<(Seq<char>, Seq<ItemModel>)> {
    Seq::new(m.entries@.len(), |i: int| (m.entries@[i].0@, item_models(m.entries@[i].1@)))
}

/// Puts a copy of `item` into the group called `label`.
#[verifier::rlimit(50)]
fn add_to_group(groups: &mut StrMap<Vec<Item>>, label: String, item: &Item)
    ensures
        group_lists(*final(groups)) == added(group_lists(*old(groups)), label@, item.deep_view()),
        old(groups).wf() ==> final(groups).wf(),
{
    let ghost before = *groups;
    let copy = item.clone();
    groups.push_under(label, copy);
    proof {
        let f = |it: Item| it.deep_view();
        lemma_pushed_under(before, *groups, label@, copy, f);
        assert(group_lists(before) =~~= seen_lists(before, f));
        assert(group_lists(*groups) =~~= seen_lists(*groups, f));
    }
}

/// Groups the items by the facet called `group_field`.
#[verifier::rlimit(50)]
pub fn group_items_by_facet(items: &[Item], group_field: &str) -> (r: StrMap<Vec<Item>>)
    ensures
        group_lists(r) == grouped(items@, group_field@),
        r.wf(),
{
    let mut groups: StrMap<Vec<Item>> = StrMap::new();
    let mut i: usize = 0;
    assert(group_lists(groups) =~= grouped(items@.take(0), group_field@));
    while i < items.len()
        invariant
            i <= items@.len(),
            group_lists(groups) == grouped(items@.take(i as int), group_field@),
            groups.wf(),
        decreases items@.len() - i,
    {
        proof {
            assert(items@.take(i + 1).drop_last() =~= items@.take(i as int));
            assert(items@.take(i + 1).last() == items@[i as int]);
        }
        let item = &items[i];
        let facet_values = item.get_facet_as_vec(group_field);
        let ghost labels = texts(facet_values@);
        let ghost start = group_lists(groups);
        if facet_values.len() == 0 {
            assert(labels.len() == 0);
            add_to_group(&mut groups, "_unspecified_".to_owned(), item);
        } else {
            let mut k: usize = 0;
            while k < facet_values.len()
                invariant
                    k <= facet_values@.len(),
                    labels == texts(facet_values@),
                    group_lists(groups) == added_all(start, labels.take(k as int), item.deep_view()),
                    groups.wf(),
                decreases facet_values@.len() - k,
            {
                proof {
                    assert(labels.take(k + 1).drop_last() =~= labels.take(k as int));
                    assert(labels.take(k + 1).last() == facet_values@[k as int]@);
                }
                add_to_group(&mut groups, facet_values[k].clone(), item);
                k += 1;
            }
            assert(labels.take(facet_values@.len() as int) =~= labels);
        }
        i += 1;
    }
    assert(items@.take(items@.len() as int) =~= items@);
    groups
}

/// The labels of the groups in the order of strings.
pub fn get_sorted_group_names(groups: &StrMap<Vec<Item>>) -> (r: Vec<String>)
    ensures
        texts(r@) == sorted_texts(groups.spec_keys()),
{
    let mut group_names: Vec<String> = Vec::new();
    let mut i: usize = 0;
    while i < groups.len()
        invariant
            i <= groups.entries@.len(),
            group_names@.len() == i,
            forall|k: int| 0 <= k < i ==> (#[trigger] group_names@[k])@ == groups.entries@[k].0@,
        decreases groups.entries@.len() - i,
    {
        group_names.push(groups.key_at(i).clone());
        i += 1;
    }
    assert(texts(group_names@) =~= groups.spec_keys());
    sort_strings(&group_names)
}

/// Whether the group called `label` holds `x`.
pub open spec fn in_group<X>(m: Seq<(Seq<char>, Seq<X>)>, label: Seq<char>, x: X) -> bool {
    exists|i: int| 0 <= i < m.len() && (#[trigger] m[i]).0 == label && m[i].1.contains(x)
}

/// What is added to a group is in it afterwards.
pub proof fn lemma_added_is_in_group<X>(m: Seq<(Seq<char>, Seq<X>)>, label: Seq<char>, x: X)
    ensures
        in_group(added(m, label, x), label, x),
{
    lemma_position_bounds(keys_of(m), label);
    let p = position(keys_of(m), label);
    let after = added(m, label, x);
    if p < m.len() {
        assert(keys_of(m)[p] == label);
        assert(after[p].1.last() == x);
        assert(after[p].0 == label && after[p].1.contains(x));
    } else {
        let n = m.len() as int;
        assert(after[n].1[0] == x);
        assert(after[n].0 == label && after[n].1.contains(x));
    }
}

/// What is in a group stays in it when something is added anywhere.
pub proof fn lemma_added_keeps_groups<X>(
    m: Seq<(Seq<char>, Seq<X>)>,
    label: Seq<char>,
    x: X,
    other_label: Seq<char>,
    other: X,
)
    requires
        in_group(m, other_label, other),
    ensures
        in_group(added(m, label, x), other_label, other),
{
    lemma_position_bounds(keys_of(m), label);
    let p = position(keys_of(m), label);
    let after = added(m, label, x);
    let i = choose|i: int| 0 <= i < m.len() && (#[trigger] m[i]).0 == other_label && m[i].1.contains(
        other,
    );
    if i == p {
        let j = choose|j: int| 0 <= j < m[i].1.len() && m[i].1[j] == other;
        assert(after[i].1[j] == other);
    }
    assert(after[i].0 == other_label && after[i].1.contains(other));
}

/// After adding to the group of each of several labels, each of these groups holds what was added.
pub proof fn lemma_added_all_in_groups<X>(
    m: Seq<(Seq<char>, Seq<X>)>,
    labels: Seq<Seq<char>>,
    x: X,
    at: int,
)
    requires
        0 <= at < labels.len(),
    ensures
        in_group(added_all(m, labels, x), labels[at], x),
    decreases labels.len(),
{
    let before = added_all(m, labels.drop_last(), x);
    if at == labels.len() - 1 {
        lemma_added_is_in_group(before, labels.last(), x);
    } else {
        lemma_added_all_in_groups(m, labels.drop_last(), x, at);
        lemma_added_keeps_groups(before, labels.last(), x, labels[at], x);
    }
}

/// What is in a group stays in it when something is added to several groups.
pub proof fn lemma_added_all_keeps_groups<X>(
    m: Seq<(Seq<char>, Seq<X>)>,
    labels: Seq<Seq<char>>,
    x: X,
    other_label: Seq<char>,
    other: X,
)
    requires
        in_group(m, other_label, other),
    ensures
        in_group(added_all(m, labels, x), other_label, other),
    decreases labels.len(),
{
    if labels.len() > 0 {
        lemma_added_all_keeps_groups(m, labels.drop_last(), x, other_label, other);
        lemma_added_keeps_groups(
            added_all(m, labels.drop_last(), x),
            labels.last(),
            x,
            other_label,
            other,
        );
    }
}

/// The label under which an item without values of the facet is grouped,
/// or else one of its values.
pub open spec fn is_label_of(item: Item, field: Seq<char>, label: Seq<char>) -> bool {
    if item.spec_facet_texts(field).len() == 0 {
        label == unspecified()
    } else {
        item.spec_facet_texts(field).contains(label)
    }
}

/// Every item stands in the group of each of its values: an item with
/// several values in several groups, an item without the facet in the
/// unspecified group.
#[verifier::rlimit(50)]
pub proof fn lemma_item_in_each_group(
    items: Seq<Item>,
    field: Seq<char>,
    k: int,
    label: Seq<char>,
)
    requires
        0 <= k < items.len(),
        is_label_of(items[k], field, label),
    ensures
        in_group(grouped(items, field), label, items[k].deep_view()),
    decreases items.len(),
{
    let before = grouped(items.drop_last(), field);
    let last = items.last();
    let labels = last.spec_facet_texts(field);
    if k == items.len() - 1 {
        if labels.len() == 0 {
            lemma_added_is_in_group(before, unspecified(), last.deep_view());
        } else {
            let at = choose|at: int| 0 <= at < labels.len() && labels[at] == label;
            lemma_added_all_in_groups(before, labels, last.deep_view(), at);
        }
    } else {
        assert(items.drop_last()[k] == items[k]);
        lemma_item_in_each_group(items.drop_last(), field, k, label);
        if labels.len() == 0 {
            lemma_added_keeps_groups(
                before,
                unspecified(),
                last.deep_view(),
                label,
                items[k].deep_view(),
            );
        } else {
            lemma_added_all_keeps_groups(before, labels, last.deep_view(), label, items[k].deep_view());
        }
    }
}

} // verus!
