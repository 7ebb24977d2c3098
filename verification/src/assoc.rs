//! A small map from texts to texts, kept as a list of pairs with distinct keys.
use vstd::prelude::*;

use crate::text::seq_eq;

verus! {

/// A map from texts to texts.
pub struct TextMap {
    pub entries: Vec<(Vec<char>, Vec<char>)>,
}

impl TextMap {
    /// The map the entries stand for.
    pub open spec fn view(&self) -> Map<Seq<char>, Seq<char>> {
        Map::new(
            |k: Seq<char>| exists|i: int| 0 <= i < self.entries@.len() && self.entries@[i].0@ == k,
            |k: Seq<char>| {
                let i = choose|i: int| 0 <= i < self.entries@.len() && self.entries@[i].0@ == k;
                self.entries@[i].1@
            },
        )
    }

    /// No key occurs twice.
    pub open spec fn wf(&self) -> bool {
        forall|i: int, j: int|
            0 <= i < j < self.entries@.len() ==> self.entries@[i].0@ != self.entries@[j].0@
    }

    pub fn new() -> (m: TextMap)
        ensures
            m.wf(),
            m.view() == Map::<Seq<char>, Seq<char>>::empty(),
    {
        let m = TextMap { entries: Vec::new() };
        assert(m.view() =~= Map::<Seq<char>, Seq<char>>::empty());
        m
    }

    fn index_of(&self, k: &[char]) -> (r: Option<usize>)
        requires
            self.wf(),
        ensures
            match r {
                Some(i) => i < self.entries@.len() && self.entries@[i as int].0@ == k@,
                None => forall|i: int| 0 <= i < self.entries@.len() ==> self.entries@[i].0@ != k@,
            },
    {
        let mut i: usize = 0;
        while i < self.entries.len()
            invariant
                i <= self.entries@.len(),
                forall|j: int| 0 <= j < i ==> self.entries@[j].0@ != k@,
            decreases self.entries@.len() - i,
        {
            if seq_eq(&self.entries[i].0, k) {
                return Some(i);
            }
            i += 1;
        }
        None
    }

    proof fn lemma_value_at(&self, i: int)
        requires
            self.wf(),
            0 <= i < self.entries@.len(),
        ensures
            self.view().contains_key(self.entries@[i].0@),
            self.view()[self.entries@[i].0@] == self.entries@[i].1@,
    {
        let k = self.entries@[i].0@;
        let j = choose|j: int| 0 <= j < self.entries@.len() && self.entries@[j].0@ == k;
        assert(j == i);
    }

    /// The value under `k`.
    pub fn get(&self, k: &[char]) -> (r: Option<Vec<char>>)
        requires
            self.wf(),
        ensures
            match r {
                Some(v) => self.view().contains_key(k@) && self.view()[k@] == v@,
                None => !self.view().contains_key(k@),
            },
    {
        match self.index_of(k) {
            Some(i) => {
                proof {
                    self.lemma_value_at(i as int);
                }
                let v = crate::text::slice_of(&self.entries[i].1, 0, self.entries[i].1.len());
                assert(v@ =~= self.entries@[i as int].1@);
                Some(v)
            },
            None => None,
        }
    }

    /// Whether `k` has a value.
    pub fn contains(&self, k: &[char]) -> (r: bool)
        requires
            self.wf(),
        ensures
            r == self.view().contains_key(k@),
    {
        self.index_of(k).is_some()
    }

    /// Sets the value under `k`.
    pub fn insert(&mut self, k: Vec<char>, v: Vec<char>)
        requires
            old(self).wf(),
        ensures
            final(self).wf(),
            final(self).view() == old(self).view().insert(k@, v@),
    {
        let ghost kv = k@;
        let ghost vv = v@;
        let ghost before = self.entries@;
        match self.index_of(&k) {
            Some(i) => {
                self.entries.set(i, (k, v));
                proof {
                    assert forall|a: int, b: int| 0 <= a < b < self.entries@.len() implies self.entries@[a].0@ != self.entries@[b].0@ by {
                        if a == i {
                            assert(before[a].0@ == kv);
                        } else if b == i {
                            assert(before[b].0@ == kv);
                        }
                    }
                    assert forall|key: Seq<char>| #[trigger] self.view().contains_key(key) == old(self).view().insert(kv, vv).contains_key(key) by {
                        if key != kv {
                            if old(self).view().contains_key(key) {
                                let j = choose|j: int| 0 <= j < before.len() && before[j].0@ == key;
                                assert(self.entries@[j].0@ == key);
                            }
                            if self.view().contains_key(key) {
                                let j = choose|j: int| 0 <= j < self.entries@.len() && self.entries@[j].0@ == key;
                                assert(before[j].0@ == key);
                            }
                        } else {
                            assert(self.entries@[i as int].0@ == key);
                        }
                    }
                    assert forall|key: Seq<char>| #[trigger] self.view().contains_key(key) implies self.view()[key] == old(self).view().insert(kv, vv)[key] by {
                        let j = choose|j: int| 0 <= j < self.entries@.len() && self.entries@[j].0@ == key;
                        self.lemma_value_at(j);
                        if key != kv {
                            old(self).lemma_value_at(j);
                        }
                    }
                    assert(self.view() =~= old(self).view().insert(kv, vv));
                }
            },
            None => {
                self.entries.push((k, v));
                proof {
                    let n = before.len() as int;
                    assert forall|key: Seq<char>| #[trigger] self.view().contains_key(key) == old(self).view().insert(kv, vv).contains_key(key) by {
                        if key != kv {
                            if old(self).view().contains_key(key) {
                                let j = choose|j: int| 0 <= j < before.len() && before[j].0@ == key;
                                assert(self.entries@[j].0@ == key);
                            }
                            if self.view().contains_key(key) {
                                let j = choose|j: int| 0 <= j < self.entries@.len() && self.entries@[j].0@ == key;
                                assert(before[j].0@ == key);
                            }
                        } else {
                            assert(self.entries@[n].0@ == key);
                        }
                    }
                    assert forall|key: Seq<char>| #[trigger] self.view().contains_key(key) implies self.view()[key] == old(self).view().insert(kv, vv)[key] by {
                        let j = choose|j: int| 0 <= j < self.entries@.len() && self.entries@[j].0@ == key;
                        self.lemma_value_at(j);
                        if key != kv {
                            old(self).lemma_value_at(j);
                        }
                    }
                    assert(self.view() =~= old(self).view().insert(kv, vv));
                }
            },
        }
    }

    /// Removes the value under `k`.
    pub fn remove(&mut self, k: &[char])
        requires
            old(self).wf(),
        ensures
            final(self).wf(),
            final(self).view() == old(self).view().remove(k@),
    {
        let ghost before = self.entries@;
        match self.index_of(k) {
            Some(i) => {
                self.entries.remove(i);
                proof {
                    assert forall|a: int, b: int| 0 <= a < b < self.entries@.len() implies self.entries@[a].0@ != self.entries@[b].0@ by {
                        let a2 = if a < i { a } else { a + 1 };
                        let b2 = if b < i { b } else { b + 1 };
                        assert(self.entries@[a] == before[a2]);
                        assert(self.entries@[b] == before[b2]);
                    }
                    assert forall|key: Seq<char>| #[trigger] self.view().contains_key(key) == old(self).view().remove(k@).contains_key(key) by {
                        if self.view().contains_key(key) {
                            let j = choose|j: int| 0 <= j < self.entries@.len() && self.entries@[j].0@ == key;
                            let j2 = if j < i { j } else { j + 1 };
                            assert(self.entries@[j] == before[j2]);
                            assert(key != k@);
                        }
                        if old(self).view().remove(k@).contains_key(key) {
                            let j = choose|j: int| 0 <= j < before.len() && before[j].0@ == key;
                            assert(j != i);
                            let j2 = if j < i { j } else { j - 1 };
                            assert(self.entries@[j2] == before[j]);
                        }
                    }
                    assert forall|key: Seq<char>| #[trigger] self.view().contains_key(key) implies self.view()[key] == old(self).view().remove(k@)[key] by {
                        let j = choose|j: int| 0 <= j < self.entries@.len() && self.entries@[j].0@ == key;
                        let j2 = if j < i { j } else { j + 1 };
                        assert(self.entries@[j] == before[j2]);
                        self.lemma_value_at(j);
                        old(self).lemma_value_at(j2);
                    }
                    assert(self.view() =~= old(self).view().remove(k@));
                }
            },
            None => {
                assert(self.view() =~= old(self).view().remove(k@));
            },
        }
    }
}

} // verus!
