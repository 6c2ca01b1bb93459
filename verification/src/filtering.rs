//! The filter engine: which items a query selects.

use crate::models::{item_models, lemma_item_facet_by_model, Filters, Item};
use crate::strmap::{added, lemma_pushed_under, seen_lists, StrMap};
use crate::text::{split_once, split_once_spec, texts, trim, trimmed};
use vstd::prelude::*;

verus! {

/// Whether some text is both in `wanted` and in `present`.
pub open spec fn shares_text(wanted: Seq<Seq<char>>, present: Seq<Seq<char>>) -> bool {
    exists|i: int| 0 <= i < wanted.len() && present.contains(#[trigger] wanted[i])
}

/// The genus clause: no genus is asked for, or one that is asked for stands on the path.
pub open spec fn genus_clause(genera: Seq<Seq<char>>, path: Seq<Seq<char>>) -> bool {
    genera.len() == 0 || shares_text(genera, path)
}

/// One facet clause: the item has the facet, and one of the requested values
/// is one of the item's values.
pub open spec fn facet_clause(item: Item, facet: Seq<char>, requested: Seq<Seq<char>>) -> bool {
    item.spec_facet_texts(facet).len() > 0 && shares_text(requested, item.spec_facet_texts(facet))
}

/// All facet clauses hold.
pub open spec fn facet_clauses(item: Item, facets: StrMap<Vec<String>>) -> bool {
    forall|i: int|
        0 <= i < facets.entries@.len() ==> facet_clause(
            item,
            (#[trigger] facets.entries@[i]).0@,
            texts(facets.entries@[i].1@),
        )
}

/// Whether the query selects the item: the genus clause and every facet clause hold.
pub open spec fn matches(item: Item, filters: Filters) -> bool {
    genus_clause(texts(filters.genera@), texts(item.classical_path@)) && facet_clauses(
        item,
        filters.facets,
    )
}

/// The items that the query selects, in their order.
pub open spec fn selected(items: Seq<Item>, filters: Filters) -> Seq<Item>
    decreases items.len(),
{
    if items.len() == 0 {
        Seq::<Item>::empty()
    } else if matches(items.last(), filters) {
        selected(items.drop_last(), filters).push(items.last())
    } else {
        selected(items.drop_last(), filters)
    }
}

/// Whether the query asks for anything.
pub open spec fn spec_has_filters(filters: Filters) -> bool {
    filters.genera@.len() > 0 || filters.facets.entries@.len() > 0
}

/// Whether some string of `wanted` is one of the strings of `present`.
pub fn any_shared(wanted: &Vec<String>, present: &Vec<String>) -> (r: bool)
    ensures
        r == shares_text(texts(wanted@), texts(present@)),
{
    let mut i: usize = 0;
    while i < wanted.len()
        invariant
            i <= wanted@.len(),
            forall|k: int| 0 <= k < i ==> !texts(present@).contains(#[trigger] texts(wanted@)[k]),
        decreases wanted@.len() - i,
    {
        if crate::validation::contains_string(present, wanted[i].as_str()) {
            assert(texts(present@).contains(texts(wanted@)[i as int]));
            return true;
        }
        i += 1;
    }
    false
}

/// Whether the query selects the item.
#[verifier::rlimit(50)]
pub fn matches_filters(item: &Item, filters: &Filters) -> (r: bool)
    ensures
        r == matches(*item, *filters),
{
    if filters.genera.len() > 0 {
        if !any_shared(&filters.genera, &item.classical_path) {
            return false;
        }
    }
    let mut i: usize = 0;
    while i < filters.facets.len()
        invariant
            i <= filters.facets.entries@.len(),
            genus_clause(texts(filters.genera@), texts(item.classical_path@)),
            forall|k: int|
                0 <= k < i ==> facet_clause(
                    *item,
                    (#[trigger] filters.facets.entries@[k]).0@,
                    texts(filters.facets.entries@[k].1@),
                ),
        decreases filters.facets.entries@.len() - i,
    {
        let facet_name = filters.facets.key_at(i);
        let required_values = filters.facets.value_at(i);
        let item_values = item.get_facet_as_vec(facet_name.as_str());
        assert(texts(item_values@).len() == item_values@.len());
        if item_values.len() == 0 {
            assert(!facet_clause(
                *item,
                filters.facets.entries@[i as int].0@,
                texts(filters.facets.entries@[i as int].1@),
            ));
            return false;
        }
        if !any_shared(required_values, &item_values) {
            assert(!facet_clause(
                *item,
                filters.facets.entries@[i as int].0@,
                texts(filters.facets.entries@[i as int].1@),
            ));
            return false;
        }
        i += 1;
    }
    true
}

/// The items that the query selects, copied, in their order.
#[verifier::rlimit(50)]
pub fn apply_filters(items: &[Item], filters: &Filters) -> (r: Vec<Item>)
    ensures
        item_models(r@) == item_models(selected(items@, *filters)),
{
    let mut out: Vec<Item> = Vec::new();
    let mut i: usize = 0;
    assert(item_models(out@) =~= item_models(selected(items@.take(0), *filters)));
    while i < items.len()
        invariant
            i <= items@.len(),
            item_models(out@) == item_models(selected(items@.take(i as int), *filters)),
        decreases items@.len() - i,
    {
        proof {
            assert(items@.take(i + 1).drop_last() =~= items@.take(i as int));
            assert(items@.take(i + 1).last() == items@[i as int]);
        }
        if matches_filters(&items[i], filters) {
            let copy = items[i].clone();
            let ghost before = out@;
            out.push(copy);
            assert(item_models(out@) =~= item_models(before).push(copy.deep_view()));
            assert(item_models(selected(items@.take(i + 1), *filters)) =~= item_models(
                selected(items@.take(i as int), *filters),
            ).push(items@[i as int].deep_view()));
        }
        i += 1;
    }
    assert(items@.take(items@.len() as int) =~= items@);
    out
}

/// Whether the query asks for anything.
pub fn has_filters(filters: &Filters) -> (r: bool)
    ensures
        r == spec_has_filters(*filters),
{
    filters.genera.len() > 0 || !filters.facets.is_empty()
}

/// What a filter argument asks for: the facet name before the first `=` and
/// the value after it, both trimmed; nothing where it holds no `=`.
pub open spec fn filter_entry(s: Seq<char>) -> Option<(Seq<char>, Seq<char>)> {
    match split_once_spec(s, '=') {
        Some((name, value)) => Some((trimmed(name), trimmed(value))),
        None => None,
    }
}

/// The facet clauses that a list of filter arguments asks for: the values of
/// one facet name are gathered in the order of the arguments, and the facet
/// names stand in the order in which each first occurs.
pub open spec fn parsed_filters(args: Seq<Seq<char>>) -> Seq<(Seq<char>, Seq<Seq<char>>)>
    decreases args.len(),
{
    if args.len() == 0 {
        Seq::<(Seq<char>, Seq<Seq<char>>)>::empty()
    } else {
        match filter_entry(args.last()) {
            Some((name, value)) => added(parsed_filters(args.drop_last()), name, value),
            None => parsed_filters(args.drop_last()),
        }
    }
}

/// Reads filter arguments of the form `name=value` into facet clauses.
/// Arguments without `=` are passed over.
#[verifier::rlimit(50)]
pub fn parse_facet_filters(facet_strings: &[String]) -> (r: StrMap<Vec<String>>)
    ensures
        r.text_lists() == parsed_filters(texts(facet_strings@)),
        r.wf(),
{
    let mut facet_map: StrMap<Vec<String>> = StrMap::new();
    let ghost args = texts(facet_strings@);
    let mut i: usize = 0;
    assert(facet_map.text_lists() =~= parsed_filters(args.take(0)));
    while i < facet_strings.len()
        invariant
            i <= facet_strings@.len(),
            args == texts(facet_strings@),
            facet_map.text_lists() == parsed_filters(args.take(i as int)),
            facet_map.wf(),
        decreases facet_strings@.len() - i,
    {
        proof {
            assert(args.take(i + 1).drop_last() =~= args.take(i as int));
            assert(args.take(i + 1).last() == facet_strings@[i as int]@);
        }
        match split_once(facet_strings[i].as_str(), '=') {
            Some((name, value)) => {
                let key = trim(name.as_str());
                let item = trim(value.as_str());
                let ghost before = facet_map;
                facet_map.push_under(key, item);
                proof {
                    let f = |s: String| s@;
                    lemma_pushed_under(before, facet_map, key@, item, f);
                    assert(before.text_lists() =~~= seen_lists(before, f));
                    assert(facet_map.text_lists() =~~= seen_lists(facet_map, f));
                }
            },
            None => {},
        }
        i += 1;
    }
    assert(args.take(facet_strings@.len() as int) =~= args);
    facet_map
}

/// A query that asks for nothing selects every item, in the same order.
pub proof fn lemma_no_filters_select_all(items: Seq<Item>, filters: Filters)
    requires
        !spec_has_filters(filters),
    ensures
        selected(items, filters) == items,
    decreases items.len(),
{
    if items.len() > 0 {
        lemma_no_filters_select_all(items.drop_last(), filters);
        assert(matches(items.last(), filters));
        assert(items.drop_last().push(items.last()) =~= items);
    }
}

/// A query for one genus and no facet selects exactly the items whose path holds that genus.
pub proof fn lemma_single_genus(item: Item, filters: Filters, genus: Seq<char>)
    requires
        texts(filters.genera@) == seq![genus],
        filters.facets.entries@.len() == 0,
    ensures
        matches(item, filters) <==> texts(item.classical_path@).contains(genus),
{
    let wanted = texts(filters.genera@);
    let path = texts(item.classical_path@);
    assert(wanted.len() == 1 && wanted[0] == genus);
    if path.contains(genus) {
        assert(path.contains(wanted[0]));
    }
}

/// A query with a clause for a facet never selects an item that lacks the facet.
pub proof fn lemma_missing_facet_excludes(item: Item, filters: Filters, clause: int)
    requires
        0 <= clause < filters.facets.entries@.len(),
        item.spec_facet(filters.facets.entries@[clause].0@) is None,
    ensures
        !matches(item, filters),
{
    assert(!facet_clause(
        item,
        filters.facets.entries@[clause].0@,
        texts(filters.facets.entries@[clause].1@),
    ));
}

/// A facet clause holds where one of the requested values is one of the item's values.
pub proof fn lemma_shared_value_satisfies(
    item: Item,
    facet: Seq<char>,
    requested: Seq<Seq<char>>,
    at: int,
)
    requires
        0 <= at < requested.len(),
        item.spec_facet_texts(facet).contains(requested[at]),
    ensures
        facet_clause(item, facet, requested),
{
}

/// Whether a query selects an item depends on the model of the item alone.
pub proof fn lemma_matches_by_model(x: Item, y: Item, filters: Filters)
    requires
        x.deep_view() == y.deep_view(),
    ensures
        matches(x, filters) == matches(y, filters),
{
    assert forall|i: int| 0 <= i < filters.facets.entries@.len() implies facet_clause(
        x,
        (#[trigger] filters.facets.entries@[i]).0@,
        texts(filters.facets.entries@[i].1@),
    ) == facet_clause(y, filters.facets.entries@[i].0@, texts(filters.facets.entries@[i].1@)) by {
        lemma_item_facet_by_model(x, y, filters.facets.entries@[i].0@);
    }
}

} // verus!
