//! An insertion-ordered map from strings to values.
//!
//! The map is a list of entries in which no key occurs twice. Lookups go by
//! the text of the key, and walking the entries by index gives them in the
//! order in which their keys first came in.

use vstd::prelude::*;

verus! {

/// A map from strings to values that keeps its entries in insertion order.
#[derive(Debug, PartialEq, Eq)]
pub struct StrMap<V> {
    /// The entries, oldest key first.
    pub entries: Vec<(String, V)>,
}

/// The first position of `key` among `keys`, or `keys.len()` where it does not occur.
pub open spec fn position(keys: Seq<Seq<char>>, key: Seq<char>) -> int
    decreases keys.len(),
{
    if keys.len() == 0 {
        0
    } else if keys[0] == key {
        0
    } else {
        1 + position(keys.drop_first(), key)
    }
}

/// Whether no text occurs twice in `keys`.
pub open spec fn distinct(keys: Seq<Seq<char>>) -> bool {
    forall|i: int, j: int| 0 <= i < j < keys.len() ==> keys[i] != keys[j]
}

/// `position` is the index before which the key does not occur and at which it does.
pub proof fn lemma_position(keys: Seq<Seq<char>>, key: Seq<char>, i: int)
    requires
        0 <= i <= keys.len(),
        forall|j: int| 0 <= j < i ==> keys[j] != key,
        i == keys.len() || keys[i] == key,
    ensures
        position(keys, key) == i,
    decreases i,
{
    if i > 0 {
        let rest = keys.drop_first();
        assert forall|j: int| 0 <= j < i - 1 implies rest[j] != key by {
            assert(rest[j] == keys[j + 1]);
        }
        lemma_position(rest, key, i - 1);
    }
}

/// `position` stays within the keys, and names an occurrence where there is one.
pub proof fn lemma_position_bounds(keys: Seq<Seq<char>>, key: Seq<char>)
    ensures
        0 <= position(keys, key) <= keys.len(),
        position(keys, key) < keys.len() ==> keys[position(keys, key)] == key,
        forall|j: int| 0 <= j < position(keys, key) ==> keys[j] != key,
    decreases keys.len(),
{
    if keys.len() > 0 && keys[0] != key {
        let rest = keys.drop_first();
        lemma_position_bounds(rest, key);
        assert forall|j: int| 0 <= j < position(keys, key) implies keys[j] != key by {
            if j > 0 {
                assert(rest[j - 1] == keys[j]);
            }
        }
    }
}

/// The first components of a sequence of pairs.
pub open spec fn keys_of<X>(m: Seq<(Seq<char>, X)>) -> Seq<Seq<char>> {
    Seq::new(m.len(), |i: int| m[i].0)
}

/// A keyed sequence of lists with `x` added at the end of the list under
/// `key`; where no list has this key, a list of `x` alone comes last.
pub open spec fn added<X>(m: Seq<(Seq<char>, Seq<X>)>, key: Seq<char>, x: X) -> Seq<
    (Seq<char>, Seq<X>),
> {
    let p = position(keys_of(m), key);
    if p < m.len() {
        m.update(p, (m[p].0, m[p].1.push(x)))
    } else {
        m.push((key, seq![x]))
    }
}

/// Adding a key at the end leaves the position of every other key as it was.
pub proof fn lemma_position_push(keys: Seq<Seq<char>>, added: Seq<char>, key: Seq<char>)
    requires
        key != added,
    ensures
        position(keys, key) < keys.len() ==> position(keys.push(added), key) == position(
            keys,
            key,
        ),
        position(keys, key) >= keys.len() ==> position(keys.push(added), key) == keys.len() + 1,
{
    lemma_position_bounds(keys, key);
    let after = keys.push(added);
    let i = position(keys, key);
    if i < keys.len() {
        assert forall|j: int| 0 <= j < i implies after[j] != key by {
            assert(after[j] == keys[j]);
        }
        assert(after[i] == keys[i]);
        lemma_position(after, key, i);
    } else {
        assert forall|j: int| 0 <= j < after.len() implies after[j] != key by {
            if j < keys.len() {
                assert(after[j] == keys[j]);
            }
        }
        lemma_position(after, key, after.len() as int);
    }
}

impl<V> StrMap<V> {
    /// The keys, in entry order.
    pub open spec fn spec_keys(&self) -> Seq<Seq<char>> {
        Seq::new(self.entries@.len(), |i: int| self.entries@[i].0@)
    }

    /// No key occurs twice.
    pub open spec fn wf(&self) -> bool {
        distinct(self.spec_keys())
    }

    /// The number of entries.
    pub open spec fn spec_len(&self) -> nat {
        self.entries@.len()
    }

    /// Whether some entry has this key.
    pub open spec fn has_key(&self, key: Seq<char>) -> bool {
        position(self.spec_keys(), key) < self.entries@.len()
    }

    /// The value stored under `key`.
    pub open spec fn spec_get(&self, key: Seq<char>) -> Option<V> {
        if self.has_key(key) {
            Some(self.entries@[position(self.spec_keys(), key)].1)
        } else {
            None
        }
    }

    /// An empty map.
    pub fn new() -> (m: Self)
        ensures
            m.entries@.len() == 0,
            m.wf(),
    {
        StrMap { entries: Vec::new() }
    }

    /// The number of entries.
    pub fn len(&self) -> (n: usize)
        ensures
            n == self.spec_len(),
    {
        self.entries.len()
    }

    /// Whether the map has no entry.
    pub fn is_empty(&self) -> (b: bool)
        ensures
            b == (self.spec_len() == 0),
    {
        self.entries.len() == 0
    }

    /// The key of the entry at `i`.
    pub fn key_at(&self, i: usize) -> (k: &String)
        requires
            i < self.spec_len(),
        ensures
            *k == self.entries@[i as int].0,
    {
        &self.entries[i].0
    }

    /// The value of the entry at `i`.
    pub fn value_at(&self, i: usize) -> (v: &V)
        requires
            i < self.spec_len(),
        ensures
            *v == self.entries@[i as int].1,
    {
        &self.entries[i].1
    }

    /// The index of the entry with this key.
    pub fn index_of(&self, key: &str) -> (r: Option<usize>)
        ensures
            match r {
                Some(i) => self.has_key(key@) && i == position(self.spec_keys(), key@),
                None => !self.has_key(key@),
            },
    {
        let wanted = key.to_owned();
        let mut i: usize = 0;
        while i < self.entries.len()
            invariant
                i <= self.entries@.len(),
                wanted@ == key@,
                forall|j: int| 0 <= j < i ==> self.spec_keys()[j] != key@,
            decreases self.entries@.len() - i,
        {
            if self.entries[i].0 == wanted {
                proof {
                    lemma_position(self.spec_keys(), key@, i as int);
                }
                return Some(i);
            }
            i += 1;
        }
        proof {
            lemma_position(self.spec_keys(), key@, i as int);
        }
        None
    }

    /// Whether some entry has this key.
    pub fn contains_key(&self, key: &str) -> (b: bool)
        ensures
            b == self.has_key(key@),
    {
        self.index_of(key).is_some()
    }

    /// The value stored under `key`.
    pub fn get(&self, key: &str) -> (r: Option<&V>)
        ensures
            match r {
                Some(v) => self.spec_get(key@) == Some(*v),
                None => self.spec_get(key@) is None,
            },
    {
        match self.index_of(key) {
            Some(i) => Some(&self.entries[i].1),
            None => None,
        }
    }

    /// Stores `value` under `key`: in place of the value that the key had, or
    /// as a new last entry. Returns the value that was replaced.
    #[verifier::rlimit(50)]
    pub fn insert(&mut self, key: String, value: V) -> (r: Option<V>)
        ensures
            r == old(self).spec_get(key@),
            final(self).spec_get(key@) == Some(value),
            old(self).has_key(key@) ==> final(self).entries@ == old(self).entries@.update(
                position(old(self).spec_keys(), key@),
                (old(self).entries@[position(old(self).spec_keys(), key@)].0, value),
            ),
            !old(self).has_key(key@) ==> final(self).entries@ == old(self).entries@.push(
                (key, value),
            ),
            final(self).spec_keys() == if old(self).has_key(key@) {
                old(self).spec_keys()
            } else {
                old(self).spec_keys().push(key@)
            },
            old(self).wf() ==> final(self).wf(),
            forall|k: Seq<char>| k != key@ ==> final(self).spec_get(k) == old(self).spec_get(k),
    {
        match self.index_of(key.as_str()) {
            Some(i) => {
                let ghost before = self.spec_keys();
                let (k, previous) = self.entries.remove(i);
                self.entries.insert(i, (k, value));
                proof {
                    assert(self.entries@ =~= old(self).entries@.update(
                        i as int,
                        (old(self).entries@[i as int].0, value),
                    ));
                    assert(self.spec_keys() =~= before);
                    assert forall|k: Seq<char>| k != key@ implies self.spec_get(k) == old(
                        self,
                    ).spec_get(k) by {
                        lemma_position_bounds(before, k);
                        lemma_position_bounds(before, key@);
                        let pk = position(before, k);
                        if pk < before.len() {
                            assert(before[pk] == k);
                            assert(pk != i);
                            assert(self.entries@[pk] == old(self).entries@[pk]);
                        }
                    }
                }
                Some(previous)
            },
            None => {
                let ghost before = self.spec_keys();
                self.entries.push((key, value));
                proof {
                    assert(self.spec_keys() =~= before.push(key@));
                    lemma_position_bounds(before, key@);
                    lemma_position(self.spec_keys(), key@, before.len() as int);
                    assert forall|k: Seq<char>| k != key@ implies self.spec_get(k) == old(
                        self,
                    ).spec_get(k) by {
                        lemma_position_push(before, key@, k);
                        lemma_position_bounds(before, k);
                        let pk = position(before, k);
                        if pk < before.len() {
                            assert(self.entries@[pk] == old(self).entries@[pk]);
                        }
                    }
                }
                None
            },
        }
    }
}

impl StrMap<Vec<String>> {
    /// The keys with the texts listed under each.
    pub open spec fn text_lists(&self) -> Seq<(Seq<char>, Seq<Seq<char>>)> {
        Seq::new(
            self.entries@.len(),
            |i: int| (self.entries@[i].0@, crate::text::texts(self.entries@[i].1@)),
        )
    }
}

/// The keys of a map of lists, each with its list seen through `f`.
pub open spec fn seen_lists<T, X>(m: StrMap<Vec<T>>, f: spec_fn(T) -> X) -> Seq<
    (Seq<char>, Seq<X>),
> {
    Seq::new(
        m.entries@.len(),
        |i: int| (m.entries@[i].0@, Seq::new(m.entries@[i].1@.len(), |j: int| f(m.entries@[i].1@[j]))),
    )
}

/// Whether `after` is `before` with `item` added at the end of the list
/// under `key`, or with a list of `item` alone as a new last entry.
pub open spec fn pushed_under<T>(
    before: StrMap<Vec<T>>,
    after: StrMap<Vec<T>>,
    key: Seq<char>,
    item: T,
) -> bool {
    let p = position(before.spec_keys(), key);
    &&& after.spec_keys() == if before.has_key(key) {
        before.spec_keys()
    } else {
        before.spec_keys().push(key)
    }
    &&& after.entries@.len() == after.spec_keys().len()
    &&& forall|i: int|
        0 <= i < before.entries@.len() && i != p ==> #[trigger] after.entries@[i]
            == before.entries@[i]
    &&& before.has_key(key) ==> after.entries@[p].1@ == before.entries@[p].1@.push(item)
    &&& !before.has_key(key) ==> after.entries@[before.entries@.len() as int].1@ == seq![item]
}

/// Seen through any `f`, pushing under a key is adding to the list of that key.
pub proof fn lemma_pushed_under<T, X>(
    before: StrMap<Vec<T>>,
    after: StrMap<Vec<T>>,
    key: Seq<char>,
    item: T,
    f: spec_fn(T) -> X,
)
    requires
        pushed_under(before, after, key, item),
    ensures
        seen_lists(after, f) == added(seen_lists(before, f), key, f(item)),
{
    let old_lists = seen_lists(before, f);
    let new_lists = seen_lists(after, f);
    let target = added(old_lists, key, f(item));
    assert(keys_of(old_lists) =~= before.spec_keys());
    lemma_position_bounds(before.spec_keys(), key);
    let p = position(before.spec_keys(), key);
    if p < before.entries@.len() {
        assert(after.spec_keys()[p] == before.spec_keys()[p]);
        assert(new_lists[p].1 =~= old_lists[p].1.push(f(item)));
        assert forall|k: int| 0 <= k < target.len() implies new_lists[k] == target[k] by {
            if k != p {
                assert(after.entries@[k] == before.entries@[k]);
            }
        }
    } else {
        let n = before.entries@.len() as int;
        assert(after.spec_keys()[n] == key);
        assert(new_lists[n].1 =~= seq![f(item)]);
        assert forall|k: int| 0 <= k < target.len() implies new_lists[k] == target[k] by {
            if k < n {
                assert(after.entries@[k] == before.entries@[k]);
            }
        }
    }
    assert(new_lists =~= target);
}

impl<T> StrMap<Vec<T>> {
    /// Adds `item` at the end of the list stored under `key`; a key that is
    /// new gets a list of this one item, as the last entry.
    #[verifier::rlimit(50)]
    pub fn push_under(&mut self, key: String, item: T)
        ensures
            pushed_under(*old(self), *final(self), key@, item),
            old(self).wf() ==> final(self).wf(),
    {
        match self.index_of(key.as_str()) {
            Some(i) => {
                let ghost before = self.spec_keys();
                let (k, mut list) = self.entries.remove(i);
                list.push(item);
                self.entries.insert(i, (k, list));
                proof {
                    assert(self.spec_keys() =~= before);
                }
            },
            None => {
                let ghost before = self.spec_keys();
                let mut list: Vec<T> = Vec::new();
                list.push(item);
                self.entries.push((key, list));
                proof {
                    assert(self.spec_keys() =~= before.push(key@));
                    lemma_position_bounds(before, key@);
                }
            },
        }
    }
}

impl<V: Clone> Clone for StrMap<V> {
    /// A copy with the same keys in the same order, each value a clone of the value it stands for.
    fn clone(&self) -> (r: Self)
        ensures
            r.spec_keys() == self.spec_keys(),
            r.entries@.len() == self.entries@.len(),
            forall|i: int|
                0 <= i < self.entries@.len() ==> cloned::<V>(
                    self.entries@[i].1,
                    #[trigger] r.entries@[i].1,
                ),
    {
        let mut entries: Vec<(String, V)> = Vec::new();
        let mut i: usize = 0;
        while i < self.entries.len()
            invariant
                i <= self.entries@.len(),
                entries@.len() == i,
                forall|j: int|
                    0 <= j < i ==> (#[trigger] entries@[j]).0@ == self.entries@[j].0@ && cloned::<V>(
                        self.entries@[j].1,
                        entries@[j].1,
                    ),
            decreases self.entries@.len() - i,
        {
            let key = self.entries[i].0.clone();
            let value = self.entries[i].1.clone();
            entries.push((key, value));
            i += 1;
        }
        let r = StrMap { entries };
        assert(r.spec_keys() =~= self.spec_keys());
        r
    }
}

impl<V: DeepView> DeepView for StrMap<V> {
    type V = Seq<(Seq<char>, V::V)>;

    open spec fn deep_view(&self) -> Seq<(Seq<char>, V::V)> {
        Seq::new(
            self.entries@.len(),
            |i: int| (self.entries@[i].0@, self.entries@[i].1.deep_view()),
        )
    }
}

} // verus!
