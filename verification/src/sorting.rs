//! The sort engine: items in library order, in which leading articles, case
//! and diacritics do not count.

use crate::models::{item_models, lemma_item_facet_by_model, Item, ItemModel};
use crate::text::{
    collapse, collapse_whitespace, lowercase, same_text, texts, lemma_text_less_irreflexive, lemma_text_less_total, lemma_text_less_transitive, less_text,
    text_less,
};
use vstd::prelude::*;
use vstd::relations::{sorted_by, total_ordering};
use unicode_normalization::UnicodeNormalization;

verus! {

/// A sort key: the text to sort by, and the text that decides between equal ones.
pub type KeyPair = (Seq<char>, Seq<char>);

/// The sort keys that a list of string pairs denotes.
pub open spec fn key_pairs(keys: Seq<(String, String)>) -> Seq<KeyPair> {
    Seq::new(keys.len(), |i: int| (keys[i].0@, keys[i].1@))
}

/// Strict order of sort keys: by the first text, and by the second where the first are equal.
pub open spec fn pair_less(a: KeyPair, b: KeyPair) -> bool {
    text_less(a.0, b.0) || (a.0 == b.0 && text_less(a.1, b.1))
}

/// Whether position `i` comes no later than position `j` in sorted order:
/// by key, and by position where the keys are equal.
pub open spec fn index_leq(keys: Seq<KeyPair>, i: int, j: int) -> bool {
    i == j || pair_less(keys[i], keys[j]) || (keys[i] == keys[j] && i < j)
}

/// `index_leq` as a relation on positions.
pub open spec fn by_key(keys: Seq<KeyPair>) -> spec_fn(int, int) -> bool {
    |i: int, j: int| index_leq(keys, i, j)
}

/// The positions `0, 1, .., n - 1`.
pub open spec fn positions(n: nat) -> Seq<int> {
    Seq::new(n, |i: int| i)
}

/// The integers that a sequence of machine integers denotes.
pub open spec fn ints(v: Seq<usize>) -> Seq<int> {
    Seq::new(v.len(), |i: int| v[i] as int)
}

/// Whether `order` is the sorted order of the positions of `keys`: it holds
/// each position once, and runs up by key and, between equal keys, by position.
pub open spec fn is_sorted_order(keys: Seq<KeyPair>, order: Seq<int>) -> bool {
    order.to_multiset() == positions(keys.len()).to_multiset() && sorted_by(order, by_key(keys))
}

proof fn lemma_pair_less_irreflexive(a: KeyPair)
    ensures
        !pair_less(a, a),
{
    lemma_text_less_irreflexive(a.0);
    lemma_text_less_irreflexive(a.1);
}

proof fn lemma_pair_less_transitive(a: KeyPair, b: KeyPair, c: KeyPair)
    requires
        pair_less(a, b),
        pair_less(b, c),
    ensures
        pair_less(a, c),
{
    if text_less(a.0, b.0) && text_less(b.0, c.0) {
        lemma_text_less_transitive(a.0, b.0, c.0);
    } else if a.0 == b.0 && b.0 == c.0 {
        lemma_text_less_transitive(a.1, b.1, c.1);
    }
}

proof fn lemma_pair_less_total(a: KeyPair, b: KeyPair)
    ensures
        pair_less(a, b) || pair_less(b, a) || a == b,
{
    lemma_text_less_total(a.0, b.0);
    lemma_text_less_total(a.1, b.1);
}

/// The order of positions by key is a total order.
#[verifier::rlimit(50)]
pub proof fn lemma_by_key_total(keys: Seq<KeyPair>)
    ensures
        total_ordering(by_key(keys)),
{
    let r = by_key(keys);
    assert forall|x: int| #[trigger] r(x, x) by {}
    assert forall|x: int, y: int| #[trigger] r(x, y) && #[trigger] r(y, x) implies x == y by {
        lemma_pair_less_irreflexive(keys[x]);
        if pair_less(keys[x], keys[y]) && pair_less(keys[y], keys[x]) {
            lemma_pair_less_transitive(keys[x], keys[y], keys[x]);
        }
    }
    assert forall|x: int, y: int, z: int| #[trigger] r(x, y) && #[trigger] r(y, z) implies r(
        x,
        z,
    ) by {
        lemma_pair_less_irreflexive(keys[x]);
        if pair_less(keys[x], keys[y]) && pair_less(keys[y], keys[z]) {
            lemma_pair_less_transitive(keys[x], keys[y], keys[z]);
        }
    }
    assert forall|x: int, y: int| #[trigger] r(x, y) || #[trigger] r(y, x) by {
        lemma_pair_less_total(keys[x], keys[y]);
    }
}

/// The sorted order of a list of keys is unique.
pub proof fn lemma_sorted_order_unique(keys: Seq<KeyPair>, a: Seq<int>, b: Seq<int>)
    requires
        is_sorted_order(keys, a),
        is_sorted_order(keys, b),
    ensures
        a == b,
{
    lemma_by_key_total(keys);
    vstd::seq_lib::lemma_sorted_unique(a, b, by_key(keys));
}

/// The sorted order of the positions of `keys`.
pub open spec fn sorted_order(keys: Seq<KeyPair>) -> Seq<int> {
    choose|order: Seq<int>| is_sorted_order(keys, order)
}

/// Every list of keys has a sorted order, and `sorted_order` is it.
pub proof fn lemma_sorted_order_exists(keys: Seq<KeyPair>)
    ensures
        is_sorted_order(keys, sorted_order(keys)),
{
    lemma_by_key_total(keys);
    let all = positions(keys.len());
    all.lemma_sort_by_ensures(by_key(keys));
    assert(is_sorted_order(keys, all.sort_by(by_key(keys))));
}

/// An order that is sorted is the sorted order.
pub proof fn lemma_is_sorted_order(keys: Seq<KeyPair>, order: Seq<int>)
    requires
        is_sorted_order(keys, order),
    ensures
        sorted_order(keys) == order,
{
    lemma_sorted_order_unique(keys, sorted_order(keys), order);
}

/// The elements of `s` in the order that `order` gives.
pub open spec fn reordered<X>(s: Seq<X>, order: Seq<int>) -> Seq<X> {
    Seq::new(order.len(), |p: int| s[order[p]])
}

/// The keys for sorting plain texts: each text by itself.
pub open spec fn plain_keys(lines: Seq<Seq<char>>) -> Seq<KeyPair> {
    Seq::new(lines.len(), |i: int| (lines[i], Seq::<char>::empty()))
}

/// The texts in the order of strings.
pub open spec fn sorted_texts(lines: Seq<Seq<char>>) -> Seq<Seq<char>> {
    reordered(lines, sorted_order(plain_keys(lines)))
}

/// Whether position `i` comes no later than position `j` in sorted order.
pub fn index_before(keys: &Vec<(String, String)>, i: usize, j: usize) -> (r: bool)
    requires
        i < keys@.len(),
        j < keys@.len(),
    ensures
        r == index_leq(key_pairs(keys@), i as int, j as int),
{
    if i == j {
        return true;
    }
    let a = &keys[i];
    let b = &keys[j];
    if less_text(a.0.as_str(), b.0.as_str()) {
        return true;
    }
    if a.0 == b.0 {
        if less_text(a.1.as_str(), b.1.as_str()) {
            return true;
        }
        if a.1 == b.1 {
            return i < j;
        }
    }
    proof {
        lemma_text_less_irreflexive(a.0@);
    }
    false
}

/// Whether every entry of `v` is a position below `n`.
pub open spec fn below(v: Seq<usize>, n: nat) -> bool {
    forall|k: int| 0 <= k < v.len() ==> (#[trigger] v[k]) < n
}

/// Merges two sorted runs of positions into one.
#[verifier::rlimit(50)]
fn merge(keys: &Vec<(String, String)>, left: &Vec<usize>, right: &Vec<usize>) -> (out: Vec<usize>)
    requires
        below(left@, keys@.len()),
        below(right@, keys@.len()),
        sorted_by(ints(left@), by_key(key_pairs(keys@))),
        sorted_by(ints(right@), by_key(key_pairs(keys@))),
    ensures
        below(out@, keys@.len()),
        sorted_by(ints(out@), by_key(key_pairs(keys@))),
        ints(out@).to_multiset() == ints(left@).to_multiset().add(ints(right@).to_multiset()),
{
    broadcast use {vstd::seq_lib::group_to_multiset_ensures, vstd::multiset::group_multiset_axioms};

    let ghost rel = by_key(key_pairs(keys@));
    let ghost l = ints(left@);
    let ghost r = ints(right@);
    proof {
        lemma_by_key_total(key_pairs(keys@));
    }
    let mut out: Vec<usize> = Vec::new();
    let mut i: usize = 0;
    let mut j: usize = 0;
    proof {
        assert(l.take(0) =~= Seq::<int>::empty());
        assert(r.take(0) =~= Seq::<int>::empty());
        assert(ints(out@) =~= Seq::<int>::empty());
        assert(Seq::<int>::empty().to_multiset() =~= vstd::multiset::Multiset::<int>::empty());
        assert(ints(out@).to_multiset() =~= l.take(0).to_multiset().add(r.take(0).to_multiset()));
    }
    while i < left.len() || j < right.len()
        invariant
            i <= left@.len(),
            j <= right@.len(),
            rel == by_key(key_pairs(keys@)),
            l == ints(left@),
            r == ints(right@),
            total_ordering(rel),
            below(left@, keys@.len()),
            below(right@, keys@.len()),
            below(out@, keys@.len()),
            sorted_by(l, rel),
            sorted_by(r, rel),
            sorted_by(ints(out@), rel),
            ints(out@).to_multiset() == l.take(i as int).to_multiset().add(
                r.take(j as int).to_multiset(),
            ),
            forall|k: int, p: int|
                0 <= k < out@.len() && i <= p < left@.len() ==> #[trigger] rel(
                    out@[k] as int,
                    #[trigger] l[p],
                ),
            forall|k: int, q: int|
                0 <= k < out@.len() && j <= q < right@.len() ==> #[trigger] rel(
                    out@[k] as int,
                    #[trigger] r[q],
                ),
        decreases (left@.len() - i) + (right@.len() - j),
    {
        let take_left = if j >= right.len() {
            true
        } else if i >= left.len() {
            false
        } else {
            index_before(keys, left[i], right[j])
        };
        let ghost before = ints(out@);
        if take_left {
            let x = left[i];
            proof {
                assert(l[i as int] == x as int);
                assert(l.take(i + 1) =~= l.take(i as int).push(x as int));
                assert forall|p: int| i + 1 <= p < left@.len() implies rel(x as int, l[p]) by {
                    assert(rel(l[i as int], l[p]));
                }
                assert forall|q: int| j <= q < right@.len() implies rel(x as int, r[q]) by {
                    assert(rel(x as int, r[j as int]));
                    if q > j {
                        assert(rel(r[j as int], r[q]));
                    }
                }
            }
            out.push(x);
            proof {
                assert(ints(out@) =~= before.push(x as int));
                assert forall|a: int, b: int| 0 <= a < b < ints(out@).len() implies rel(
                    ints(out@)[a],
                    ints(out@)[b],
                ) by {
                    if b < before.len() {
                        assert(rel(before[a], before[b]));
                    } else {
                        assert(rel(out@[a] as int, l[i as int]));
                    }
                }
                vstd::seq_lib::to_multiset_build(before, x as int);
                vstd::seq_lib::to_multiset_build(l.take(i as int), x as int);
                let ma = l.take(i as int).to_multiset();
                let mb = r.take(j as int).to_multiset();
                assert(ma.add(mb).insert(x as int) =~= ma.insert(x as int).add(mb));
                assert(ints(out@).to_multiset() =~= l.take(i + 1).to_multiset().add(
                    r.take(j as int).to_multiset(),
                ));
            }
            i += 1;
        } else {
            let x = right[j];
            proof {
                assert(r[j as int] == x as int);
                assert(r.take(j + 1) =~= r.take(j as int).push(x as int));
                assert forall|q: int| j + 1 <= q < right@.len() implies rel(x as int, r[q]) by {
                    assert(rel(r[j as int], r[q]));
                }
                assert forall|p: int| i <= p < left@.len() implies rel(x as int, l[p]) by {
                    assert(rel(l[i as int], x as int) || rel(x as int, l[i as int]));
                    assert(rel(x as int, l[i as int]));
                    if p > i {
                        assert(rel(l[i as int], l[p]));
                    }
                }
            }
            out.push(x);
            proof {
                assert(ints(out@) =~= before.push(x as int));
                assert forall|a: int, b: int| 0 <= a < b < ints(out@).len() implies rel(
                    ints(out@)[a],
                    ints(out@)[b],
                ) by {
                    if b < before.len() {
                        assert(rel(before[a], before[b]));
                    } else {
                        assert(rel(out@[a] as int, r[j as int]));
                    }
                }
                vstd::seq_lib::to_multiset_build(before, x as int);
                vstd::seq_lib::to_multiset_build(r.take(j as int), x as int);
                let ma = l.take(i as int).to_multiset();
                let mb = r.take(j as int).to_multiset();
                assert(ma.add(mb).insert(x as int) =~= ma.add(mb.insert(x as int)));
                assert(ints(out@).to_multiset() =~= l.take(i as int).to_multiset().add(
                    r.take(j + 1).to_multiset(),
                ));
            }
            j += 1;
        }
    }
    proof {
        assert(l.take(left@.len() as int) =~= l);
        assert(r.take(right@.len() as int) =~= r);
    }
    out
}

/// Sorts a list of positions by key and, between equal keys, by position.
#[verifier::rlimit(50)]
fn merge_sort(keys: &Vec<(String, String)>, v: Vec<usize>) -> (out: Vec<usize>)
    requires
        below(v@, keys@.len()),
    ensures
        below(out@, keys@.len()),
        sorted_by(ints(out@), by_key(key_pairs(keys@))),
        ints(out@).to_multiset() == ints(v@).to_multiset(),
    decreases v@.len(),
{
    if v.len() <= 1 {
        return v;
    }
    let mid: usize = v.len() / 2;
    let mut left: Vec<usize> = Vec::new();
    let mut right: Vec<usize> = Vec::new();
    let mut k: usize = 0;
    while k < v.len()
        invariant
            k <= v@.len(),
            0 < mid < v@.len(),
            below(v@, keys@.len()),
            left@ =~= v@.take(if k < mid { k as int } else { mid as int }),
            right@ =~= v@.subrange(mid as int, if k < mid { mid as int } else { k as int }),
        decreases v@.len() - k,
    {
        if k < mid {
            left.push(v[k]);
        } else {
            right.push(v[k]);
        }
        k += 1;
    }
    proof {
        assert(ints(v@) =~= ints(left@) + ints(right@));
        vstd::seq_lib::lemma_multiset_commutative(ints(left@), ints(right@));
    }
    let sorted_left = merge_sort(keys, left);
    let sorted_right = merge_sort(keys, right);
    merge(keys, &sorted_left, &sorted_right)
}

/// The positions of `keys` in sorted order: by key, and by position where
/// keys are equal, so that equal keys keep their order.
pub fn sort_positions(keys: &Vec<(String, String)>) -> (order: Vec<usize>)
    ensures
        is_sorted_order(key_pairs(keys@), ints(order@)),
        below(order@, keys@.len()),
        order@.len() == keys@.len(),
{
    let mut all: Vec<usize> = Vec::new();
    let mut i: usize = 0;
    while i < keys.len()
        invariant
            i <= keys@.len(),
            all@.len() == i,
            forall|k: int| 0 <= k < i ==> all@[k] == k,
        decreases keys@.len() - i,
    {
        all.push(i);
        i += 1;
    }
    assert(ints(all@) =~= positions(keys@.len()));
    let order = merge_sort(keys, all);
    proof {
        vstd::seq_lib::to_multiset_len(ints(order@));
        vstd::seq_lib::to_multiset_len(ints(all@));
    }
    order
}

/// Whether the regular-expression engine accepts `pattern`.
pub uninterp spec fn regex_accepts(pattern: Seq<char>) -> bool;

/// `text` with its leftmost match of `pattern` replaced by the expansion of `replacement`.
pub uninterp spec fn regex_replaced(
    pattern: Seq<char>,
    text: Seq<char>,
    replacement: Seq<char>,
) -> Seq<char>;

/// The canonical decomposition (Normalization Form D) of `text`.
pub uninterp spec fn nfd_of(text: Seq<char>) -> Seq<char>;

/// Compiles `pattern` with `regex::Regex::new` and, where that succeeds,
/// replaces the leftmost match in `text` with `regex::Regex::replace`. The
/// result is `None` exactly where the engine rejects the pattern.
#[verifier::external_body]
fn replace_first(pattern: &str, text: &str, replacement: &str) -> (r: Option<String>)
    ensures
        r is Some <==> regex_accepts(pattern@),
        r matches Some(out) ==> out@ == regex_replaced(pattern@, text@, replacement@),
{
    match regex::Regex::new(pattern) {
        Ok(re) => Some(re.replace(text, replacement).into_owned()),
        Err(_) => None,
    }
}

/// Runs `unicode_normalization`'s `nfd` over the text and collects the
/// characters it yields.
#[verifier::external_body]
fn decompose(text: &str) -> (r: String)
    ensures
        r@ == nfd_of(text@),
{
    text.nfd().collect::<String>()
}

/// The pattern of a leading article: one of a closed list of English, German,
/// French, Spanish, Italian and Dutch articles at the very start, in any
/// case, with the whitespace after it.
pub open spec fn article_pattern() -> Seq<char> {
    "^(?i)(the|a|an|der|die|das|le|la|les|el|la|los|las|il|lo|i|gli|un|une|een)\\s+"@
}

/// The text without its leading article.
pub open spec fn without_article(s: Seq<char>) -> Seq<char> {
    if regex_accepts(article_pattern()) {
        regex_replaced(article_pattern(), s, Seq::<char>::empty())
    } else {
        s
    }
}

/// The text as it counts in sorting: without leading article, decomposed,
/// in lower case, with whitespace collapsed.
pub open spec fn normalized(s: Seq<char>) -> Seq<char> {
    collapse(lowercase(nfd_of(without_article(s))))
}

/// Strips one leading article, if the text starts with one.
pub fn strip_leading_articles(s: &str) -> (r: String)
    ensures
        r@ == without_article(s@),
{
    proof {
        reveal_strlit("");
        assert(""@ =~= Seq::<char>::empty());
    }
    match replace_first(
        "^(?i)(the|a|an|der|die|das|le|la|les|el|la|los|las|il|lo|i|gli|un|une|een)\\s+",
        s,
        "",
    ) {
        Some(out) => out,
        None => s.to_owned(),
    }
}

/// The text as it counts in sorting.
pub fn normalize_for_sorting(s: &str) -> (r: String)
    ensures
        r@ == normalized(s@),
{
    let without_articles = strip_leading_articles(s);
    let decomposed = decompose(without_articles.as_str());
    let lowered = decomposed.as_str().to_lowercase();
    collapse_whitespace(lowered.as_str())
}

/// The sort key of an item: by name, the normalized name and the name as it
/// is; by a facet, the normalized value of the facet (empty where the item
/// lacks it) and the normalized name.
pub open spec fn sort_key(item: Item, field: Seq<char>) -> KeyPair {
    if field == "name"@ {
        (normalized(item.name@), item.name@)
    } else {
        (
            normalized(
                match item.spec_facet_label(field) {
                    Some(label) => label,
                    None => Seq::<char>::empty(),
                },
            ),
            normalized(item.name@),
        )
    }
}

/// The sort keys of a list of items.
pub open spec fn sort_keys(items: Seq<Item>, field: Seq<char>) -> Seq<KeyPair> {
    Seq::new(items.len(), |i: int| sort_key(items[i], field))
}

/// The models of the items in sorted order.
pub open spec fn sorted_models(items: Seq<Item>, field: Seq<char>) -> Seq<ItemModel> {
    reordered(item_models(items), sorted_order(sort_keys(items, field)))
}

/// The sort key of an item.
pub fn item_sort_key(item: &Item, sort_field: &str) -> (r: (String, String))
    ensures
        (r.0@, r.1@) == sort_key(*item, sort_field@),
{
    if same_text(sort_field, "name") {
        (normalize_for_sorting(item.name.as_str()), item.name.clone())
    } else {
        let value = match item.get_facet_as_string(sort_field) {
            Some(label) => label,
            None => String::new(),
        };
        (normalize_for_sorting(value.as_str()), normalize_for_sorting(item.name.as_str()))
    }
}

/// Sorts the items by `sort_field`: `"name"`, or the name of a facet. Items
/// with equal keys keep their order.
#[verifier::rlimit(50)]
pub fn sort_items(items: &mut Vec<Item>, sort_field: &str)
    ensures
        item_models(final(items)@) == sorted_models(old(items)@, sort_field@),
{
    let mut keys: Vec<(String, String)> = Vec::new();
    let mut i: usize = 0;
    while i < items.len()
        invariant
            i <= items@.len(),
            keys@.len() == i,
            forall|k: int|
                0 <= k < i ==> ((#[trigger] keys@[k]).0@, keys@[k].1@) == sort_key(
                    items@[k],
                    sort_field@,
                ),
        decreases items@.len() - i,
    {
        keys.push(item_sort_key(&items[i], sort_field));
        i += 1;
    }
    assert(key_pairs(keys@) =~= sort_keys(items@, sort_field@));
    let order = sort_positions(&keys);
    let mut sorted: Vec<Item> = Vec::new();
    let mut p: usize = 0;
    while p < order.len()
        invariant
            p <= order@.len(),
            order@.len() == items@.len(),
            below(order@, items@.len() as nat),
            sorted@.len() == p,
            forall|k: int|
                0 <= k < p ==> (#[trigger] sorted@[k]).deep_view() == items@[order@[k] as int].deep_view(),
        decreases order@.len() - p,
    {
        sorted.push(items[order[p]].clone());
        p += 1;
    }
    proof {
        lemma_is_sorted_order(sort_keys(items@, sort_field@), ints(order@));
        assert(item_models(sorted@) =~= reordered(item_models(items@), ints(order@)));
    }
    *items = sorted;
}

/// The strings in the order of strings.
#[verifier::rlimit(50)]
pub fn sort_strings(v: &Vec<String>) -> (r: Vec<String>)
    ensures
        texts(r@) == sorted_texts(texts(v@)),
{
    let mut keys: Vec<(String, String)> = Vec::new();
    let mut i: usize = 0;
    while i < v.len()
        invariant
            i <= v@.len(),
            keys@.len() == i,
            forall|k: int|
                0 <= k < i ==> (#[trigger] keys@[k]).0@ == v@[k]@ && keys@[k].1@
                    == Seq::<char>::empty(),
        decreases v@.len() - i,
    {
        keys.push((v[i].clone(), String::new()));
        i += 1;
    }
    assert(key_pairs(keys@) =~= plain_keys(texts(v@)));
    let order = sort_positions(&keys);
    let mut out: Vec<String> = Vec::new();
    let mut p: usize = 0;
    while p < order.len()
        invariant
            p <= order@.len(),
            order@.len() == v@.len(),
            below(order@, v@.len() as nat),
            out@.len() == p,
            forall|k: int| 0 <= k < p ==> (#[trigger] out@[k])@ == v@[order@[k] as int]@,
        decreases order@.len() - p,
    {
        out.push(v[order[p]].clone());
        p += 1;
    }
    proof {
        lemma_is_sorted_order(plain_keys(texts(v@)), ints(order@));
        assert(texts(out@) =~= reordered(texts(v@), ints(order@)));
    }
    out
}

/// The sort keys of items depend on the models of the items alone, and so
/// does their sorted order.
pub proof fn lemma_sorted_by_model(a: Seq<Item>, b: Seq<Item>, field: Seq<char>)
    requires
        item_models(a) == item_models(b),
    ensures
        sort_keys(a, field) == sort_keys(b, field),
        sorted_models(a, field) == sorted_models(b, field),
{
    assert(a.len() == item_models(a).len());
    assert(b.len() == item_models(b).len());
    assert forall|i: int| 0 <= i < a.len() implies sort_key(a[i], field) == sort_key(
        b[i],
        field,
    ) by {
        assert(a[i].deep_view() == item_models(a)[i]);
        assert(b[i].deep_view() == item_models(b)[i]);
        lemma_item_facet_by_model(a[i], b[i], field);
    }
    assert(sort_keys(a, field) =~= sort_keys(b, field));
}

} // verus!
