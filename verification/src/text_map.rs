//! A map from text to values that keeps its keys in the order of texts, so a walk over it is
//! reproducible.

use vstd::prelude::*;

use crate::text::{
    before, copied, lemma_precedes_total, lemma_precedes_transitive, precedes, same, to_chars,
    to_text,
};

verus! {

/// Whether each text comes before all that follow it.
pub open spec fn strictly_sorted(keys: Seq<Seq<char>>) -> bool {
    forall|i: int, j: int| 0 <= i < j < keys.len() ==> precedes(#[trigger] keys[i], #[trigger] keys[j])
}

/// Whether a sequence lists the members of a set, each once and in the order of texts.
pub open spec fn lists(texts: Seq<Seq<char>>, set: Set<Seq<char>>) -> bool {
    &&& strictly_sorted(texts)
    &&& forall|text: Seq<char>|
        #![trigger texts.contains(text)]
        #![trigger set.contains(text)]
        texts.contains(text) <==> set.contains(text)
}

/// The members of a set in the order of texts.
pub open spec fn sorted_members(set: Set<Seq<char>>) -> Seq<Seq<char>> {
    choose|texts: Seq<Seq<char>>| lists(texts, set)
}

/// Whether a sequence lists the keys of a map, each once and in the order of texts.
pub open spec fn lists_keys<T>(keys: Seq<Seq<char>>, map: Map<Seq<char>, T>) -> bool {
    lists(keys, map.dom())
}

/// The keys of a map in the order of texts.
pub open spec fn sorted_keys<T>(map: Map<Seq<char>, T>) -> Seq<Seq<char>> {
    sorted_members(map.dom())
}

/// Two strictly sorted sequences with the same members are the same.
pub proof fn lemma_sorted_unique(left: Seq<Seq<char>>, right: Seq<Seq<char>>)
    requires
        strictly_sorted(left),
        strictly_sorted(right),
        forall|key: Seq<char>|
            #![trigger left.contains(key)]
            #![trigger right.contains(key)]
            left.contains(key) <==> right.contains(key),
    ensures
        left == right,
    decreases left.len(),
{
    if left.len() == 0 {
        if right.len() > 0 {
            assert(right.contains(right[0]));
        }
        assert(left =~= right);
    } else {
        assert(left.contains(left[0]));
        assert(right.contains(left[0]));
        assert(right.contains(right[0]));
        assert(left.contains(right[0]));
        let i = choose|i: int| 0 <= i < left.len() && left[i] == right[0];
        let j = choose|j: int| 0 <= j < right.len() && right[j] == left[0];
        if left[0] != right[0] {
            assert(precedes(left[0], left[i]));
            assert(precedes(right[0], right[j]));
            lemma_precedes_total(left[0], right[0]);
        }
        let left_rest = left.skip(1);
        let right_rest = right.skip(1);
        assert forall|key: Seq<char>|
            #![trigger left_rest.contains(key)]
            #![trigger right_rest.contains(key)]
            left_rest.contains(key) <==> right_rest.contains(key) by {
            lemma_precedes_total(key, key);
            if left_rest.contains(key) {
                let at = choose|at: int| 0 <= at < left_rest.len() && left_rest[at] == key;
                assert(left[at + 1] == key);
                assert(precedes(left[0], left[at + 1]));
                assert(left.contains(key));
                let to = choose|to: int| 0 <= to < right.len() && right[to] == key;
                assert(right_rest[to - 1] == key);
            }
            if right_rest.contains(key) {
                let at = choose|at: int| 0 <= at < right_rest.len() && right_rest[at] == key;
                assert(right[at + 1] == key);
                assert(precedes(right[0], right[at + 1]));
                assert(right.contains(key));
                let to = choose|to: int| 0 <= to < left.len() && left[to] == key;
                assert(left_rest[to - 1] == key);
            }
        }
        lemma_sorted_unique(left_rest, right_rest);
        assert(left =~= seq![left[0]] + left_rest);
        assert(right =~= seq![right[0]] + right_rest);
    }
}

/// A sequence that lists the keys of a map is the one that `sorted_keys` names.
pub proof fn lemma_sorted_keys<T>(keys: Seq<Seq<char>>, map: Map<Seq<char>, T>)
    requires
        lists_keys(keys, map),
    ensures
        sorted_keys(map) == keys,
{
    let other = sorted_keys(map);
    assert(lists_keys(other, map));
    assert forall|key: Seq<char>|
        #![trigger keys.contains(key)]
        #![trigger other.contains(key)]
        keys.contains(key) <==> other.contains(key) by {
        assert(keys.contains(key) <==> map.dom().contains(key));
        assert(other.contains(key) <==> map.dom().contains(key));
    }
    lemma_sorted_unique(keys, other);
}

/// A sorted sequence with a text put in its place.
spec fn put_in_order(keys: Seq<Seq<char>>, key: Seq<char>) -> Seq<Seq<char>>
    decreases keys.len(),
{
    if keys.len() == 0 {
        seq![key]
    } else if precedes(key, keys[0]) {
        seq![key] + keys
    } else {
        seq![keys[0]] + put_in_order(keys.skip(1), key)
    }
}

proof fn lemma_put_in_order(keys: Seq<Seq<char>>, key: Seq<char>)
    requires
        strictly_sorted(keys),
        !keys.contains(key),
    ensures
        strictly_sorted(put_in_order(keys, key)),
        forall|other: Seq<char>| #[trigger]
            put_in_order(keys, key).contains(other) <==> other == key || keys.contains(other),
    decreases keys.len(),
{
    let next = put_in_order(keys, key);
    if keys.len() == 0 {
        assert(next[0] == key);
    } else if precedes(key, keys[0]) {
        assert forall|i: int, j: int| 0 <= i < j < next.len() implies precedes(
            #[trigger] next[i],
            #[trigger] next[j],
        ) by {
            if i == 0 {
                assert(next[j] == keys[j - 1]);
                if j > 1 {
                    assert(precedes(keys[0], keys[j - 1]));
                    lemma_precedes_transitive(key, keys[0], keys[j - 1]);
                }
            } else {
                assert(next[i] == keys[i - 1]);
                assert(next[j] == keys[j - 1]);
            }
        }
        assert forall|other: Seq<char>| #[trigger] next.contains(other) <==> other == key
            || keys.contains(other) by {
            if next.contains(other) && other != key {
                let i = choose|i: int| 0 <= i < next.len() && next[i] == other;
                assert(keys[i - 1] == other);
            }
            if keys.contains(other) {
                let i = choose|i: int| 0 <= i < keys.len() && keys[i] == other;
                assert(next[i + 1] == other);
            }
            assert(next[0] == key);
        }
    } else {
        let rest = keys.skip(1);
        let tail = put_in_order(rest, key);
        assert(keys.contains(keys[0]));
        lemma_precedes_total(key, keys[0]);
        assert(forall|i: int| 0 <= i < rest.len() ==> rest[i] == keys[i + 1]);
        assert forall|i: int| 0 <= i < rest.len() implies keys.contains(#[trigger] rest[i]) by {
            assert(rest[i] == keys[i + 1]);
        }
        if rest.contains(key) {
            let i = choose|i: int| 0 <= i < rest.len() && rest[i] == key;
            assert(keys.contains(rest[i]));
        }
        lemma_put_in_order(rest, key);
        assert forall|i: int, j: int| 0 <= i < j < next.len() implies precedes(
            #[trigger] next[i],
            #[trigger] next[j],
        ) by {
            assert(next[j] == tail[j - 1]);
            if i == 0 {
                assert(tail.contains(tail[j - 1]));
                if tail[j - 1] != key {
                    assert(rest.contains(tail[j - 1]));
                    let k = choose|k: int| 0 <= k < rest.len() && rest[k] == tail[j - 1];
                    assert(precedes(keys[0], keys[k + 1]));
                }
            } else {
                assert(next[i] == tail[i - 1]);
            }
        }
        assert forall|other: Seq<char>| #[trigger] next.contains(other) <==> other == key
            || keys.contains(other) by {
            if next.contains(other) {
                let i = choose|i: int| 0 <= i < next.len() && next[i] == other;
                if i > 0 {
                    assert(tail[i - 1] == other);
                    assert(tail.contains(other));
                    if other != key {
                        let k = choose|k: int| 0 <= k < rest.len() && rest[k] == other;
                        assert(keys.contains(rest[k]));
                    }
                }
            }
            if other == key || keys.contains(other) {
                if other == keys[0] {
                    assert(next[0] == other);
                } else {
                    if other != key {
                        let i = choose|i: int| 0 <= i < keys.len() && keys[i] == other;
                        assert(rest[i - 1] == other);
                        assert(rest.contains(other));
                    }
                    assert(tail.contains(other));
                    let i = choose|i: int| 0 <= i < tail.len() && tail[i] == other;
                    assert(next[i + 1] == other);
                }
            }
        }
    }
}

/// A finite set has its members listed in order.
pub proof fn lemma_finite_sorted(set: Set<Seq<char>>)
    requires
        set.finite(),
    ensures
        lists(sorted_members(set), set),
    decreases set.len(),
{
    if set.len() == 0 {
        assert forall|text: Seq<char>| !set.contains(text) by {
            if set.contains(text) {
                assert(set.remove(text).len() + 1 == set.len());
            }
        }
        let none: Seq<Seq<char>> = seq![];
        assert(lists(none, set));
    } else {
        let text = set.choose();
        assert(set.contains(text));
        let rest = set.remove(text);
        lemma_finite_sorted(rest);
        let texts = sorted_members(rest);
        assert(!texts.contains(text));
        lemma_put_in_order(texts, text);
        let all = put_in_order(texts, text);
        assert forall|other: Seq<char>|
            #![trigger all.contains(other)]
            #![trigger set.contains(other)]
            all.contains(other) <==> set.contains(other) by {
            assert(all.contains(other) <==> other == text || texts.contains(other));
            assert(texts.contains(other) <==> rest.contains(other));
        }
        assert(lists(all, set));
    }
}

/// A map of finitely many keys has them listed in order.
pub proof fn lemma_finite_listed<T>(map: Map<Seq<char>, T>)
    requires
        map.dom().finite(),
    ensures
        lists_keys(sorted_keys(map), map),
{
    lemma_finite_sorted(map.dom());
}

/// The value under a key, `otherwise` where there is none.
pub open spec fn at_or<T>(map: Map<Seq<char>, T>, key: Seq<char>, otherwise: T) -> T {
    if map.dom().contains(key) {
        map[key]
    } else {
        otherwise
    }
}

/// To take a value out and put another in its place is to put the other.
pub proof fn lemma_replace<T>(map: Map<Seq<char>, T>, key: Seq<char>, value: T)
    ensures
        map.remove(key).insert(key, value) == map.insert(key, value),
{
    assert(map.remove(key).insert(key, value) =~= map.insert(key, value));
}

/// The map that a sequence of entries makes.
pub open spec fn map_of<T>(pairs: Seq<(Seq<char>, T)>) -> Map<Seq<char>, T>
    decreases pairs.len(),
{
    if pairs.len() == 0 {
        Map::empty()
    } else {
        map_of(pairs.drop_last()).insert(pairs.last().0, pairs.last().1)
    }
}

/// The keys of a sequence of entries.
pub open spec fn keys_of<T>(pairs: Seq<(Seq<char>, T)>) -> Seq<Seq<char>> {
    pairs.map_values(|pair: (Seq<char>, T)| pair.0)
}

/// The map of entries with sorted keys holds each of them, and nothing else.
pub proof fn lemma_map_of<T>(pairs: Seq<(Seq<char>, T)>)
    requires
        strictly_sorted(keys_of(pairs)),
    ensures
        forall|i: int|
            0 <= i < pairs.len() ==> map_of(pairs).dom().contains((#[trigger] pairs[i]).0)
                && map_of(pairs)[pairs[i].0] == pairs[i].1,
        forall|key: Seq<char>| #[trigger]
            map_of(pairs).dom().contains(key) ==> exists|i: int|
                0 <= i < pairs.len() && pairs[i].0 == key,
        lists_keys(keys_of(pairs), map_of(pairs)),
    decreases pairs.len(),
{
    if pairs.len() > 0 {
        let rest = pairs.drop_last();
        assert(keys_of(rest) =~= keys_of(pairs).drop_last());
        lemma_map_of(rest);
        assert forall|i: int| 0 <= i < pairs.len() implies map_of(pairs).dom().contains(
            (#[trigger] pairs[i]).0,
        ) && map_of(pairs)[pairs[i].0] == pairs[i].1 by {
            if i < rest.len() {
                assert(rest[i] == pairs[i]);
                assert(precedes(keys_of(pairs)[i], keys_of(pairs)[pairs.len() - 1]));
                lemma_precedes_total(pairs[i].0, pairs[i].0);
            }
        }
        assert forall|key: Seq<char>| #[trigger] map_of(pairs).dom().contains(key) implies exists|
            i: int,
        |
            0 <= i < pairs.len() && pairs[i].0 == key by {
            if key == pairs.last().0 {
                assert(pairs[pairs.len() - 1].0 == key);
            } else {
                assert(map_of(rest).dom().contains(key));
                let i = choose|i: int| 0 <= i < rest.len() && rest[i].0 == key;
                assert(pairs[i].0 == key);
            }
        }
    }
    assert forall|key: Seq<char>| #[trigger] keys_of(pairs).contains(key) <==> map_of(
        pairs,
    ).dom().contains(key) by {
        if keys_of(pairs).contains(key) {
            let i = choose|i: int| 0 <= i < keys_of(pairs).len() && keys_of(pairs)[i] == key;
            assert(pairs[i].0 == key);
        }
        if map_of(pairs).dom().contains(key) {
            let i = choose|i: int| 0 <= i < pairs.len() && pairs[i].0 == key;
            assert(keys_of(pairs)[i] == key);
        }
    }
}

/// A map from text to values, its keys in the order of texts.
pub struct TextMap<V> {
    entries: Vec<(Vec<char>, V)>,
}

/// The entries of a list by their views.
pub closed spec fn pairs_of<V: DeepView>(entries: Seq<(Vec<char>, V)>) -> Seq<(Seq<char>, V::V)> {
    entries.map_values(|entry: (Vec<char>, V)| (entry.0@, entry.1.deep_view()))
}

impl<V: DeepView> View for TextMap<V> {
    type V = Map<Seq<char>, V::V>;

    closed spec fn view(&self) -> Map<Seq<char>, V::V> {
        map_of(pairs_of(self.entries@))
    }
}

impl<V: DeepView> DeepView for TextMap<V> {
    type V = Map<Seq<char>, V::V>;

    open spec fn deep_view(&self) -> Map<Seq<char>, V::V> {
        self@
    }
}

spec fn entries_sorted<V>(entries: Seq<(Vec<char>, V)>) -> bool {
    forall|i: int, j: int|
        0 <= i < j < entries.len() ==> precedes((#[trigger] entries[i]).0@, (#[trigger] entries[j]).0@)
}

proof fn lemma_entries<V: DeepView>(entries: Seq<(Vec<char>, V)>)
    requires
        entries_sorted(entries),
    ensures
        strictly_sorted(keys_of(pairs_of(entries))),
        lists_keys(keys_of(pairs_of(entries)), map_of(pairs_of(entries))),
        sorted_keys(map_of(pairs_of(entries))) == keys_of(pairs_of(entries)),
        keys_of(pairs_of(entries)).len() == entries.len(),
        forall|i: int|
            #![trigger entries[i]]
            0 <= i < entries.len() ==> keys_of(pairs_of(entries))[i] == entries[i].0@ && map_of(
                pairs_of(entries),
            ).dom().contains(entries[i].0@) && map_of(pairs_of(entries))[entries[i].0@]
                == entries[i].1.deep_view(),
        forall|key: Seq<char>| #[trigger]
            map_of(pairs_of(entries)).dom().contains(key) ==> exists|i: int|
                0 <= i < entries.len() && (#[trigger] entries[i]).0@ == key,
{
    let pairs = pairs_of(entries);
    let keys = keys_of(pairs);
    assert forall|i: int, j: int| 0 <= i < j < keys.len() implies precedes(
        #[trigger] keys[i],
        #[trigger] keys[j],
    ) by {
        assert(precedes(entries[i].0@, entries[j].0@));
    }
    lemma_map_of(pairs);
    lemma_sorted_keys(keys, map_of(pairs));
    assert forall|i: int|
        #![trigger entries[i]]
        0 <= i < entries.len() implies keys[i] == entries[i].0@ && map_of(pairs).dom().contains(
        entries[i].0@,
    ) && map_of(pairs)[entries[i].0@] == entries[i].1.deep_view() by {
        assert(pairs[i] == (entries[i].0@, entries[i].1.deep_view()));
    }
    assert forall|key: Seq<char>| #[trigger] map_of(pairs).dom().contains(key) implies exists|
        i: int,
    |
        0 <= i < entries.len() && (#[trigger] entries[i]).0@ == key by {
        let i = choose|i: int| 0 <= i < pairs.len() && pairs[i].0 == key;
        assert(entries[i].0@ == key);
    }
}

impl<V> TextMap<V> {
    #[verifier::type_invariant]
    spec fn well_formed(self) -> bool {
        entries_sorted(self.entries@)
    }
}

impl<V: DeepView> TextMap<V> {
    /// The empty map.
    pub fn new() -> (map: TextMap<V>)
        ensures
            map@ == Map::<Seq<char>, V::V>::empty(),
    {
        TextMap { entries: Vec::new() }
    }

    /// The number of keys that come before `key`.
    fn position(&self, key: &[char]) -> (at: usize)
        ensures
            at <= self.entries@.len(),
            forall|i: int| 0 <= i < at ==> precedes((#[trigger] self.entries@[i]).0@, key@),
            forall|i: int|
                at <= i < self.entries@.len() ==> !precedes((#[trigger] self.entries@[i]).0@, key@),
    {
        proof {
            use_type_invariant(self);
        }
        let mut at: usize = 0;
        while at < self.entries.len() && before(self.entries[at].0.as_slice(), key)
            invariant
                at <= self.entries@.len(),
                forall|i: int| 0 <= i < at ==> precedes((#[trigger] self.entries@[i]).0@, key@),
            decreases self.entries@.len() - at,
        {
            at += 1;
        }
        assert forall|i: int| at <= i < self.entries@.len() implies !precedes(
            (#[trigger] self.entries@[i]).0@,
            key@,
        ) by {
            if i > at && precedes(self.entries@[i].0@, key@) {
                assert(precedes(self.entries@[at as int].0@, self.entries@[i].0@));
                lemma_precedes_transitive(
                    self.entries@[at as int].0@,
                    self.entries@[i].0@,
                    key@,
                );
            }
        }
        at
    }

    /// Where `key` stands, or the place where it would, and whether it is there.
    fn locate(&self, key: &[char]) -> (found: (usize, bool))
        ensures
            found.0 <= self.entries@.len(),
            found.1 == self@.dom().contains(key@),
            found.1 ==> found.0 < self.entries@.len() && self.entries@[found.0 as int].0@ == key@,
            forall|i: int| 0 <= i < found.0 ==> precedes((#[trigger] self.entries@[i]).0@, key@),
            !found.1 ==> forall|i: int|
                found.0 <= i < self.entries@.len() ==> precedes(
                    key@,
                    (#[trigger] self.entries@[i]).0@,
                ),
    {
        let at: usize = self.position(key);
        proof {
            use_type_invariant(self);
            lemma_entries(self.entries@);
            lemma_precedes_total(key@, key@);
        }
        let found: bool = at < self.entries.len() && same(self.entries[at].0.as_slice(), key);
        proof {
            if !found {
                assert forall|i: int| at <= i < self.entries@.len() implies precedes(
                    key@,
                    (#[trigger] self.entries@[i]).0@,
                ) by {
                    lemma_precedes_total(key@, self.entries@[i].0@);
                    if i > at {
                        assert(precedes(self.entries@[at as int].0@, self.entries@[i].0@));
                    }
                }
                if self@.dom().contains(key@) {
                    let i = choose|i: int|
                        0 <= i < self.entries@.len() && (#[trigger] self.entries@[i]).0@ == key@;
                    assert(i >= at);
                    assert(precedes(key@, self.entries@[i].0@));
                    assert(false);
                }
            }
        }
        (at, found)
    }

    /// The value under `key`.
    pub fn get(&self, key: &[char]) -> (value: Option<&V>)
        ensures
            match value {
                Some(value) => self@.dom().contains(key@) && self@[key@] == value.deep_view(),
                None => !self@.dom().contains(key@),
            },
    {
        let (at, found) = self.locate(key);
        proof {
            use_type_invariant(self);
            lemma_entries(self.entries@);
        }
        if found {
            assert(self.entries@[at as int].0@ == key@);
            Some(&self.entries[at].1)
        } else {
            None
        }
    }

    /// Whether there is a value under `key`.
    pub fn contains_key(&self, key: &[char]) -> (found: bool)
        ensures
            found == self@.dom().contains(key@),
    {
        let (at, found) = self.locate(key);
        found
    }

    /// Puts a value under `key`, in place of the one that may be there.
    pub fn insert(&mut self, key: Vec<char>, value: V)
        ensures
            final(self)@ == old(self)@.insert(key@, value.deep_view()),
    {
        proof {
            use_type_invariant(&*self);
            lemma_entries(self.entries@);
        }
        let (at, found) = self.locate(key.as_slice());
        let ghost before = self.entries@;
        let ghost entry = (key, value);
        let mut entries: Vec<(Vec<char>, V)> = Vec::new();
        core::mem::swap(&mut self.entries, &mut entries);
        if found {
            let ghost next = before.update(at as int, entry);
            assert(entries_sorted(next));
            entries[at] = (key, value);
            assert(entries@ == next);
        } else {
            let ghost next = before.insert(at as int, entry);
            assert(entries_sorted(next)) by {
                assert forall|i: int, j: int| 0 <= i < j < next.len() implies precedes(
                    (#[trigger] next[i]).0@,
                    (#[trigger] next[j]).0@,
                ) by {
                    let from_i = if i < at { i } else { i - 1 };
                    let from_j = if j < at { j } else { j - 1 };
                    if i != at {
                        assert(next[i] == before[from_i]);
                    }
                    if j != at {
                        assert(next[j] == before[from_j]);
                    }
                }
            }
            entries.insert(at, (key, value));
            assert(entries@ == next);
        }
        proof {
            let after = entries@;
            lemma_entries(after);
            let expected = map_of(pairs_of(before)).insert(entry.0@, entry.1.deep_view());
            assert forall|k: Seq<char>| #[trigger]
                map_of(pairs_of(after)).dom().contains(k) <==> expected.dom().contains(k) by {
                if map_of(pairs_of(after)).dom().contains(k) {
                    let i = choose|i: int| 0 <= i < after.len() && (#[trigger] after[i]).0@ == k;
                    if i != at {
                        let from = if found || i < at { i } else { i - 1 };
                        assert(after[i] == before[from]);
                    }
                }
                if expected.dom().contains(k) {
                    if k == entry.0@ {
                        assert(after[at as int].0@ == k);
                    } else {
                        let i = choose|i: int| 0 <= i < before.len() && (#[trigger] before[i]).0@ == k;
                        let to = if found || i < at { i } else { i + 1 };
                        assert(after[to] == before[i]);
                    }
                }
            }
            assert forall|k: Seq<char>| #[trigger] expected.dom().contains(k) implies map_of(
                pairs_of(after),
            )[k] == expected[k] by {
                if k == entry.0@ {
                    assert(after[at as int].0@ == k);
                } else {
                    let i = choose|i: int| 0 <= i < before.len() && (#[trigger] before[i]).0@ == k;
                    let to = if found || i < at { i } else { i + 1 };
                    assert(after[to] == before[i]);
                }
            }
            assert(map_of(pairs_of(after)) =~= expected);
        }
        self.entries = entries;
    }

    /// Takes the value under `key` out of the map.
    pub fn remove(&mut self, key: &[char]) -> (value: Option<V>)
        ensures
            match value {
                Some(value) => {
                    &&& old(self)@.dom().contains(key@)
                    &&& old(self)@[key@] == value.deep_view()
                    &&& final(self)@ == old(self)@.remove(key@)
                },
                None => !old(self)@.dom().contains(key@) && final(self)@ == old(self)@,
            },
    {
        proof {
            use_type_invariant(&*self);
            lemma_entries(self.entries@);
        }
        let (at, found) = self.locate(key);
        if !found {
            return None;
        }
        let ghost before = self.entries@;
        let ghost next = before.remove(at as int);
        assert(entries_sorted(next)) by {
            assert forall|i: int, j: int| 0 <= i < j < next.len() implies precedes(
                (#[trigger] next[i]).0@,
                (#[trigger] next[j]).0@,
            ) by {
                let from_i = if i < at { i } else { i + 1 };
                let from_j = if j < at { j } else { j + 1 };
                assert(next[i] == before[from_i]);
                assert(next[j] == before[from_j]);
            }
        }
        assert(before[at as int].0@ == key@);
        let mut entries: Vec<(Vec<char>, V)> = Vec::new();
        core::mem::swap(&mut self.entries, &mut entries);
        let entry: (Vec<char>, V) = entries.remove(at);
        proof {
            let after = entries@;
            assert(after == next);
            lemma_entries(after);
            let expected = map_of(pairs_of(before)).remove(key@);
            assert forall|k: Seq<char>| #[trigger]
                map_of(pairs_of(after)).dom().contains(k) <==> expected.dom().contains(k) by {
                if map_of(pairs_of(after)).dom().contains(k) {
                    let i = choose|i: int| 0 <= i < after.len() && (#[trigger] after[i]).0@ == k;
                    let from = if i < at { i } else { i + 1 };
                    assert(after[i] == before[from]);
                    lemma_precedes_total(k, k);
                    if i < at {
                        assert(precedes(before[from].0@, before[at as int].0@));
                    } else {
                        assert(precedes(before[at as int].0@, before[from].0@));
                    }
                }
                if expected.dom().contains(k) {
                    let i = choose|i: int| 0 <= i < before.len() && (#[trigger] before[i]).0@ == k;
                    let to = if i < at { i } else { i - 1 };
                    assert(after[to] == before[i]);
                }
            }
            assert forall|k: Seq<char>| #[trigger] expected.dom().contains(k) implies map_of(
                pairs_of(after),
            )[k] == expected[k] by {
                let i = choose|i: int| 0 <= i < before.len() && (#[trigger] before[i]).0@ == k;
                let to = if i < at { i } else { i - 1 };
                assert(after[to] == before[i]);
            }
            assert(map_of(pairs_of(after)) =~= expected);
        }
        self.entries = entries;
        Some(entry.1)
    }

    /// The number of keys.
    pub fn len(&self) -> (len: usize)
        ensures
            len == sorted_keys(self@).len(),
            lists_keys(sorted_keys(self@), self@),
    {
        proof {
            use_type_invariant(self);
            lemma_entries(self.entries@);
        }
        self.entries.len()
    }

    /// The key at a place in the order of texts.
    pub fn key_at(&self, at: usize) -> (key: &[char])
        requires
            at < sorted_keys(self@).len(),
        ensures
            key@ == sorted_keys(self@)[at as int],
            self@.dom().contains(key@),
    {
        proof {
            use_type_invariant(self);
            lemma_entries(self.entries@);
        }
        self.entries[at].0.as_slice()
    }

    /// The value under the key at a place in the order of texts.
    pub fn value_at(&self, at: usize) -> (value: &V)
        requires
            at < sorted_keys(self@).len(),
        ensures
            value.deep_view() == self@[sorted_keys(self@)[at as int]],
            self@.dom().contains(sorted_keys(self@)[at as int]),
    {
        proof {
            use_type_invariant(self);
            lemma_entries(self.entries@);
        }
        let value = &self.entries[at].1;
        assert(self.entries@[at as int].1.deep_view() == value.deep_view());
        value
    }
}

/// The value under two keys of a map of maps.
pub open spec fn nested<T>(
    map: Map<Seq<char>, Map<Seq<char>, T>>,
    outer: Seq<char>,
    inner: Seq<char>,
) -> Option<T> {
    if map.dom().contains(outer) && map[outer].dom().contains(inner) {
        Some(map[outer][inner])
    } else {
        None
    }
}

/// A map of maps with a value put under two keys.
pub open spec fn with_nested<T>(
    map: Map<Seq<char>, Map<Seq<char>, T>>,
    outer: Seq<char>,
    inner: Seq<char>,
    value: T,
) -> Map<Seq<char>, Map<Seq<char>, T>> {
    map.insert(outer, at_or(map, outer, Map::empty()).insert(inner, value))
}

/// The value under two keys of a map of maps.
pub fn get_nested<'a, V: DeepView>(
    map: &'a TextMap<TextMap<V>>,
    outer: &[char],
    inner: &[char],
) -> (value: Option<&'a V>)
    ensures
        match value {
            Some(value) => nested(map@, outer@, inner@) == Some(value.deep_view()),
            None => nested(map@, outer@, inner@) is None,
        },
{
    match map.get(outer) {
        Some(values) => values.get(inner),
        None => None,
    }
}

/// Puts a value under two keys of a map of maps.
pub fn put_nested<V: DeepView>(
    map: &mut TextMap<TextMap<V>>,
    outer: &[char],
    inner: &[char],
    value: V,
)
    ensures
        final(map)@ == with_nested(old(map)@, outer@, inner@, value.deep_view()),
{
    let ghost before = map@;
    let mut values: TextMap<V> = match map.remove(outer) {
        Some(values) => values,
        None => TextMap::new(),
    };
    values.insert(copied(inner), value);
    proof {
        lemma_replace(before, outer@, values@);
        if !before.dom().contains(outer@) {
            assert(before.remove(outer@) =~= before);
        }
    }
    map.insert(copied(outer), values);
}

/// A map of maps without the value under two keys.
pub open spec fn without_nested<T>(
    map: Map<Seq<char>, Map<Seq<char>, T>>,
    outer: Seq<char>,
    inner: Seq<char>,
) -> Map<Seq<char>, Map<Seq<char>, T>> {
    if map.dom().contains(outer) {
        map.insert(outer, map[outer].remove(inner))
    } else {
        map
    }
}

/// To take a value out and put another in its place is to put the other.
pub proof fn lemma_replace_nested<T>(
    map: Map<Seq<char>, Map<Seq<char>, T>>,
    outer: Seq<char>,
    inner: Seq<char>,
    value: T,
)
    ensures
        with_nested(without_nested(map, outer, inner), outer, inner, value) == with_nested(
            map,
            outer,
            inner,
            value,
        ),
{
    if map.dom().contains(outer) {
        assert(map[outer].remove(inner).insert(inner, value) =~= map[outer].insert(inner, value));
        assert(with_nested(without_nested(map, outer, inner), outer, inner, value) =~= with_nested(
            map,
            outer,
            inner,
            value,
        ));
    }
}

/// Takes the value under two keys out of a map of maps.
pub fn take_nested<V: DeepView>(
    map: &mut TextMap<TextMap<V>>,
    outer: &[char],
    inner: &[char],
) -> (value: Option<V>)
    ensures
        final(map)@ == without_nested(old(map)@, outer@, inner@),
        match value {
            Some(value) => nested(old(map)@, outer@, inner@) == Some(value.deep_view()),
            None => nested(old(map)@, outer@, inner@) is None,
        },
{
    let ghost before = map@;
    match map.remove(outer) {
        None => None,
        Some(values) => {
            let mut values: TextMap<V> = values;
            let value: Option<V> = values.remove(inner);
            proof {
                lemma_replace(before, outer@, values@);
                if value is None {
                    assert(before[outer@].remove(inner@) =~= before[outer@]);
                }
            }
            map.insert(copied(outer), values);
            value
        },
    }
}

/// A set of texts, its members in the order of texts.
pub struct TextSet {
    members: TextMap<()>,
}

impl View for TextSet {
    type V = Set<Seq<char>>;

    closed spec fn view(&self) -> Set<Seq<char>> {
        self.members@.dom()
    }
}

impl TextSet {
    /// The empty set.
    pub fn new() -> (set: TextSet)
        ensures
            set@ == Set::<Seq<char>>::empty(),
    {
        let set = TextSet { members: TextMap::new() };
        assert(set@ =~= Set::empty());
        set
    }

    /// Puts a text in the set.
    pub fn insert(&mut self, text: &[char])
        ensures
            final(self)@ == old(self)@.insert(text@),
    {
        self.members.insert(copied(text), ());
        assert(self@ =~= old(self)@.insert(text@));
    }

    /// Puts texts in the set.
    pub fn extend(&mut self, texts: &Vec<String>)
        ensures
            final(self)@ == old(self)@.union(texts.deep_view().to_set()),
    {
        let ghost before = self@;
        let ghost all = texts.deep_view();
        assert(before.union(all.take(0).to_set()) =~= before);
        for i in 0..texts.len()
            invariant
                all == texts.deep_view(),
                self@ == before.union(all.take(i as int).to_set()),
        {
            let text: Vec<char> = to_chars(texts[i].as_str());
            self.insert(text.as_slice());
            proof {
                assert(all[i as int] == text@);
                let (less, more) = (all.take(i as int), all.take(i + 1));
                assert(more =~= less.push(text@));
                assert forall|other: Seq<char>| more.to_set().contains(other) <==> less.to_set().insert(
                    text@,
                ).contains(other) by {
                    if less.contains(other) {
                        let k = choose|k: int| 0 <= k < less.len() && less[k] == other;
                        assert(more[k] == other);
                    }
                    assert(more[i as int] == text@);
                }
                assert(self@ =~= before.union(more.to_set()));
            }
        }
        assert(all.take(all.len() as int) =~= all);
    }

    /// Puts the keys of a map in the set.
    pub fn extend_keys<V: DeepView>(&mut self, map: &TextMap<V>)
        ensures
            final(self)@ == old(self)@.union(map@.dom()),
    {
        let ghost before = self@;
        let len: usize = map.len();
        let ghost keys = sorted_keys(map@);
        assert(before.union(keys.take(0).to_set()) =~= before);
        for i in 0..len
            invariant
                keys == sorted_keys(map@),
                len == keys.len(),
                lists_keys(keys, map@),
                self@ == before.union(keys.take(i as int).to_set()),
        {
            let text = map.key_at(i);
            self.insert(text);
            proof {
                let (less, more) = (keys.take(i as int), keys.take(i + 1));
                assert(more =~= less.push(text@));
                assert forall|other: Seq<char>| more.to_set().contains(other) <==> less.to_set().insert(
                    text@,
                ).contains(other) by {
                    if less.contains(other) {
                        let k = choose|k: int| 0 <= k < less.len() && less[k] == other;
                        assert(more[k] == other);
                    }
                    assert(more[i as int] == text@);
                }
                assert(self@ =~= before.union(more.to_set()));
            }
        }
        assert(keys.take(keys.len() as int) =~= keys);
        assert(self@ =~= before.union(map@.dom()));
    }

    /// The number of members.
    pub fn len(&self) -> (len: usize)
        ensures
            len == sorted_members(self@).len(),
            lists(sorted_members(self@), self@),
    {
        self.members.len()
    }

    /// The member at a place in the order of texts.
    pub fn at(&self, at: usize) -> (text: &[char])
        requires
            at < sorted_members(self@).len(),
        ensures
            text@ == sorted_members(self@)[at as int],
    {
        self.members.key_at(at)
    }

    /// Whether a text is in the set.
    pub fn contains(&self, text: &[char]) -> (found: bool)
        ensures
            found == self@.contains(text@),
    {
        self.members.contains_key(text)
    }

    /// The members in the order of texts.
    pub fn to_texts(&self) -> (texts: Vec<String>)
        ensures
            texts.deep_view() == sorted_members(self@),
    {
        let mut texts: Vec<String> = Vec::new();
        let len: usize = self.len();
        for i in 0..len
            invariant
                len == sorted_members(self@).len(),
                texts@.len() == i,
                forall|k: int|
                    0 <= k < i ==> (#[trigger] texts@[k]).deep_view() == sorted_members(self@)[k],
        {
            texts.push(to_text(self.at(i)));
        }
        assert(texts.deep_view() =~= sorted_members(self@));
        texts
    }
}

} // verus!
