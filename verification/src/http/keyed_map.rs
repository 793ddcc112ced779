//! A map from text keys to values that remembers the order in which keys first
//! arrived. Inserting an existing key replaces its value in place, so no key is
//! ever held twice.
use vstd::prelude::*;
use crate::text::{chars_of, same_chars};

verus! {

/// No key occurs twice among `pairs`.
pub open spec fn distinct_keys<V>(pairs: Seq<(Seq<char>, V)>) -> bool {
    forall|i: int, j: int|
        0 <= i < pairs.len() && 0 <= j < pairs.len() && i != j ==> #[trigger] pairs[i].0
            != #[trigger] pairs[j].0
}

/// `k` is one of the keys among `pairs`.
pub open spec fn has_key<V>(pairs: Seq<(Seq<char>, V)>, k: Seq<char>) -> bool {
    exists|i: int| 0 <= i < pairs.len() && #[trigger] pairs[i].0 == k
}

/// The map that a sequence of pairs with distinct keys stands for.
pub open spec fn as_map<V>(pairs: Seq<(Seq<char>, V)>) -> Map<Seq<char>, V> {
    Map::new(
        |k: Seq<char>| has_key(pairs, k),
        |k: Seq<char>| pairs[choose|i: int| 0 <= i < pairs.len() && #[trigger] pairs[i].0 == k].1,
    )
}

/// In a sequence with distinct keys, the map view gives the value stored at a key's position.
pub proof fn lemma_as_map_at<V>(pairs: Seq<(Seq<char>, V)>, i: int)
    requires
        distinct_keys(pairs),
        0 <= i < pairs.len(),
    ensures
        as_map(pairs).contains_key(pairs[i].0),
        as_map(pairs)[pairs[i].0] == pairs[i].1,
{
    let k = pairs[i].0;
    assert(has_key(pairs, k));
    let j = choose|j: int| 0 <= j < pairs.len() && #[trigger] pairs[j].0 == k;
    assert(pairs[j].0 == pairs[i].0);
}

/// Text keys in first-arrival order, each with one value.
#[derive(Debug)]
pub struct KeyedMap<V> {
    entries: Vec<(String, V)>,
}

impl<V> KeyedMap<V> {
    /// The entries in the order their keys first arrived, keys taken as text.
    pub closed spec fn pairs(self) -> Seq<(Seq<char>, V)> {
        self.entries@.map_values(|e: (String, V)| (e.0@, e.1))
    }

    /// What the map holds.
    pub open spec fn view(self) -> Map<Seq<char>, V> {
        as_map(self.pairs())
    }

    /// Well-formed: no key occurs twice.
    pub open spec fn wf(self) -> bool {
        distinct_keys(self.pairs())
    }

    /// An empty map.
    pub fn new() -> (m: Self)
        ensures
            m.wf(),
            m.pairs() == Seq::<(Seq<char>, V)>::empty(),
            m.view() == Map::<Seq<char>, V>::empty(),
    {
        let m = KeyedMap { entries: Vec::new() };
        assert(m.pairs() =~= Seq::<(Seq<char>, V)>::empty());
        assert(m.view() =~= Map::<Seq<char>, V>::empty());
        m
    }

    /// The number of keys held.
    pub fn len(&self) -> (n: usize)
        ensures
            n == self.pairs().len(),
    {
        self.entries.len()
    }

    /// The key of the entry at position `i`.
    pub fn key_at(&self, i: usize) -> (k: &String)
        requires
            i < self.pairs().len(),
        ensures
            k@ == self.pairs()[i as int].0,
    {
        &self.entries[i].0
    }

    /// The value of the entry at position `i`.
    pub fn value_at(&self, i: usize) -> (v: &V)
        requires
            i < self.pairs().len(),
        ensures
            *v == self.pairs()[i as int].1,
    {
        &self.entries[i].1
    }

    /// The position of key `k`, if it is held.
    pub fn position(&self, k: &str) -> (r: Option<usize>)
        ensures
            r matches Some(i) ==> i < self.pairs().len() && self.pairs()[i as int].0 == k@,
            r is None ==> !has_key(self.pairs(), k@),
    {
        let target = chars_of(k);
        let mut i: usize = 0;
        while i < self.entries.len()
            invariant
                target@ == k@,
                i <= self.entries.len(),
                forall|j: int| 0 <= j < i ==> self.pairs()[j].0 != k@,
            decreases self.entries.len() - i,
        {
            let here = chars_of(self.entries[i].0.as_str());
            if same_chars(&here, &target) {
                return Some(i);
            }
            i = i + 1;
        }
        None
    }

    /// The value held for `k`.
    pub fn get(&self, k: &str) -> (r: Option<&V>)
        requires
            self.wf(),
        ensures
            r matches Some(v) ==> self.view().contains_key(k@) && *v == self.view()[k@],
            r is None ==> !self.view().contains_key(k@),
    {
        match self.position(k) {
            Some(i) => {
                proof {
                    lemma_as_map_at(self.pairs(), i as int);
                }
                Some(&self.entries[i].1)
            },
            None => None,
        }
    }

    /// Holds `v` for `k`: an existing key keeps its position and takes the new
    /// value; a new key goes last.
    pub fn insert(&mut self, k: String, v: V)
        requires
            old(self).wf(),
        ensures
            final(self).wf(),
            final(self).view() == old(self).view().insert(k@, v),
            has_key(old(self).pairs(), k@) ==> exists|i: int|
                0 <= i < old(self).pairs().len() && old(self).pairs()[i].0 == k@
                    && final(self).pairs() == old(self).pairs().update(i, (k@, v)),
            !has_key(old(self).pairs(), k@) ==> final(self).pairs() == old(self).pairs().push(
                (k@, v),
            ),
    {
        let ghost before = self.pairs();
        let ghost kv = k@;
        match self.position(k.as_str()) {
            Some(i) => {
                self.entries.set(i, (k, v));
                let ghost after = self.pairs();
                assert(after =~= before.update(i as int, (kv, v)));
                assert(distinct_keys(after)) by {
                    assert forall|a: int, b: int|
                        0 <= a < after.len() && 0 <= b < after.len() && a != b implies #[trigger] after[a].0
                        != #[trigger] after[b].0 by {
                        assert(after[a].0 == before[a].0);
                        assert(after[b].0 == before[b].0);
                    }
                }
                assert(as_map(after) =~= as_map(before).insert(kv, v)) by {
                    assert forall|q: Seq<char>| has_key(after, q) <==> has_key(before, q) || q == kv by {
                        if has_key(before, q) {
                            let j = choose|j: int| 0 <= j < before.len() && #[trigger] before[j].0 == q;
                            assert(after[j].0 == q);
                        }
                        if has_key(after, q) {
                            let j = choose|j: int| 0 <= j < after.len() && #[trigger] after[j].0 == q;
                            assert(before[j].0 == q);
                        }
                        if q == kv {
                            assert(after[i as int].0 == q);
                        }
                    }
                    assert forall|q: Seq<char>| #[trigger] as_map(after).contains_key(q) implies as_map(
                        after,
                    )[q] == as_map(before).insert(kv, v)[q] by {
                        let j = choose|j: int| 0 <= j < after.len() && #[trigger] after[j].0 == q;
                        lemma_as_map_at(after, j);
                        if q != kv {
                            lemma_as_map_at(before, j);
                        }
                    }
                }
            },
            None => {
                self.entries.push((k, v));
                let ghost after = self.pairs();
                assert(after =~= before.push((kv, v)));
                assert(distinct_keys(after)) by {
                    assert forall|a: int, b: int|
                        0 <= a < after.len() && 0 <= b < after.len() && a != b implies #[trigger] after[a].0
                        != #[trigger] after[b].0 by {
                        if a == before.len() {
                            assert(before[b].0 != kv);
                        } else if b == before.len() {
                            assert(before[a].0 != kv);
                        }
                    }
                }
                assert(as_map(after) =~= as_map(before).insert(kv, v)) by {
                    assert forall|q: Seq<char>| has_key(after, q) <==> has_key(before, q) || q == kv by {
                        if has_key(before, q) {
                            let j = choose|j: int| 0 <= j < before.len() && #[trigger] before[j].0 == q;
                            assert(after[j].0 == q);
                        }
                        if has_key(after, q) {
                            let j = choose|j: int| 0 <= j < after.len() && #[trigger] after[j].0 == q;
                            if j < before.len() {
                                assert(before[j].0 == q);
                            }
                        }
                        if q == kv {
                            assert(after[before.len() as int].0 == q);
                        }
                    }
                    assert forall|q: Seq<char>| #[trigger] as_map(after).contains_key(q) implies as_map(
                        after,
                    )[q] == as_map(before).insert(kv, v)[q] by {
                        let j = choose|j: int| 0 <= j < after.len() && #[trigger] after[j].0 == q;
                        lemma_as_map_at(after, j);
                        if q != kv {
                            lemma_as_map_at(before, j);
                        }
                    }
                }
            },
        }
    }
}

} // verus!
