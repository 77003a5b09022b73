//! A list of values under distinct text keys, kept in insertion order.
use vstd::prelude::*;

verus! {

/// Values under distinct keys.
pub struct KeyedList<T> {
    pub entries: Vec<(String, T)>,
}

impl<T> KeyedList<T> {
    /// The keys, in order.
    pub open spec fn keys(&self) -> Seq<Seq<char>> {
        self.entries@.map_values(|entry: (String, T)| entry.0@)
    }

    /// No key occurs twice.
    pub open spec fn wf(&self) -> bool {
        forall|i: int, j: int|
            0 <= i < j < self.entries@.len() ==> #[trigger] self.entries@[i].0@ != #[trigger] self.entries@[j].0@
    }

    pub open spec fn has(&self, key: Seq<char>) -> bool {
        exists|i: int| 0 <= i < self.entries@.len() && #[trigger] self.entries@[i].0@ == key
    }

    pub open spec fn position(&self, key: Seq<char>) -> int {
        choose|i: int| 0 <= i < self.entries@.len() && #[trigger] self.entries@[i].0@ == key
    }

    /// The value under `key`, when there is one.
    pub open spec fn get(&self, key: Seq<char>) -> Option<T> {
        if self.has(key) {
            Some(self.entries@[self.position(key)].1)
        } else {
            None
        }
    }

    pub proof fn lemma_position(&self, i: int)
        requires
            self.wf(),
            0 <= i < self.entries@.len(),
        ensures
            self.has(self.entries@[i].0@),
            self.position(self.entries@[i].0@) == i,
            self.get(self.entries@[i].0@) == Some(self.entries@[i].1),
    {
        let key = self.entries@[i].0@;
        assert(self.has(key));
        let k = self.position(key);
        if k != i {
            if k < i {
                assert(self.entries@[k].0@ != self.entries@[i].0@);
            } else {
                assert(self.entries@[i].0@ != self.entries@[k].0@);
            }
        }
    }

    /// An empty list.
    pub fn new() -> (list: KeyedList<T>)
        ensures
            list.wf(),
            forall|key: Seq<char>| #[trigger] list.get(key) is None,
    {
        KeyedList { entries: Vec::new() }
    }

    /// The position of `key`, if it is there.
    pub fn find(&self, key: &String) -> (found: Option<usize>)
        requires
            self.wf(),
        ensures
            found is None <==> !self.has(key@),
            found matches Some(i) ==> i < self.entries@.len() && self.entries@[i as int].0@ == key@ && self.get(key@)
                == Some(self.entries@[i as int].1),
    {
        let mut index: usize = 0;
        while index < self.entries.len()
            invariant
                self.wf(),
                index <= self.entries@.len(),
                forall|j: int| 0 <= j < index ==> #[trigger] self.entries@[j].0@ != key@,
            decreases self.entries@.len() - index,
        {
            if self.entries[index].0 == *key {
                proof {
                    self.lemma_position(index as int);
                }
                return Some(index);
            }
            index = index + 1;
        }
        None
    }

    /// Puts `value` under `key`, replacing what was there.
    pub fn insert(&mut self, key: String, value: T)
        requires
            old(self).wf(),
        ensures
            final(self).wf(),
            final(self).get(key@) == Some(value),
            forall|other: Seq<char>| other != key@ ==> #[trigger] final(self).get(other) == old(self).get(other),
    {
        let ghost before = *self;
        let ghost key_view = key@;
        match self.find(&key) {
            Some(index) => {
                self.entries.set(index, (key, value));
                proof {
                    assert forall|i: int, j: int|
                        0 <= i < j < self.entries@.len() implies #[trigger] self.entries@[i].0@
                            != #[trigger] self.entries@[j].0@ by {
                        assert(before.entries@[i].0@ != before.entries@[j].0@);
                    }
                    self.lemma_position(index as int);
                    assert forall|other: Seq<char>| other != key_view implies #[trigger] self.get(other) == before.get(
                        other,
                    ) by {
                        if self.has(other) {
                            let k = choose|k: int| 0 <= k < self.entries@.len() && #[trigger] self.entries@[k].0@ == other;
                            self.lemma_position(k);
                            before.lemma_position(k);
                        }
                        if before.has(other) {
                            let k = choose|k: int|
                                0 <= k < before.entries@.len() && #[trigger] before.entries@[k].0@ == other;
                            assert(self.entries@[k].0@ == other);
                        }
                    }
                }
            },
            None => {
                self.entries.push((key, value));
                proof {
                    let n = self.entries@.len() - 1;
                    assert forall|i: int, j: int|
                        0 <= i < j < self.entries@.len() implies #[trigger] self.entries@[i].0@
                            != #[trigger] self.entries@[j].0@ by {
                        if j == n {
                            assert(before.entries@[i].0@ == self.entries@[i].0@);
                        }
                    }
                    self.lemma_position(n);
                    assert forall|other: Seq<char>| other != key_view implies #[trigger] self.get(other) == before.get(
                        other,
                    ) by {
                        if self.has(other) {
                            let k = choose|k: int| 0 <= k < self.entries@.len() && #[trigger] self.entries@[k].0@ == other;
                            assert(k != n);
                            assert(before.entries@[k].0@ == other);
                            self.lemma_position(k);
                            before.lemma_position(k);
                        }
                        if before.has(other) {
                            let k = choose|k: int|
                                0 <= k < before.entries@.len() && #[trigger] before.entries@[k].0@ == other;
                            assert(self.entries@[k].0@ == other);
                        }
                    }
                }
            },
        }
    }

    /// Removes the entry at `index`; returns its value.
    pub fn remove_at(&mut self, index: usize) -> (removed: T)
        requires
            old(self).wf(),
            index < old(self).entries@.len(),
        ensures
            final(self).wf(),
            removed == old(self).entries@[index as int].1,
            final(self).get(old(self).entries@[index as int].0@) is None,
            forall|other: Seq<char>|
                other != old(self).entries@[index as int].0@ ==> #[trigger] final(self).get(other) == old(self).get(
                    other,
                ),
    {
        let ghost before = *self;
        let ghost key = self.entries@[index as int].0@;
        let (_, value) = self.entries.remove(index);
        proof {
            assert(!self.has(key)) by {
                if self.has(key) {
                    let k = choose|k: int| 0 <= k < self.entries@.len() && #[trigger] self.entries@[k].0@ == key;
                    if k < index {
                        assert(before.entries@[k].0@ != before.entries@[index as int].0@);
                    } else {
                        assert(before.entries@[index as int].0@ != before.entries@[k + 1].0@);
                    }
                }
            }
            assert forall|other: Seq<char>| other != key implies #[trigger] self.get(other) == before.get(other) by {
                if self.has(other) {
                    let k = choose|k: int| 0 <= k < self.entries@.len() && #[trigger] self.entries@[k].0@ == other;
                    let kk = if k < index {
                        k
                    } else {
                        k + 1
                    };
                    assert(before.entries@[kk].0@ == other);
                    self.lemma_position(k);
                    before.lemma_position(kk);
                }
                if before.has(other) {
                    let k = choose|k: int| 0 <= k < before.entries@.len() && #[trigger] before.entries@[k].0@ == other;
                    assert(k != index);
                    if k < index {
                        assert(self.entries@[k].0@ == other);
                    } else {
                        assert(self.entries@[k - 1].0@ == other);
                    }
                }
            }
        }
        value
    }

    /// Removes the value under `key`; returns it, if there was one.
    pub fn remove(&mut self, key: &String) -> (removed: Option<T>)
        requires
            old(self).wf(),
        ensures
            final(self).wf(),
            removed == old(self).get(key@),
            removed is None ==> *final(self) == *old(self),
            final(self).get(key@) is None,
            forall|other: Seq<char>| other != key@ ==> #[trigger] final(self).get(other) == old(self).get(other),
    {
        match self.find(key) {
            Some(index) => Some(self.remove_at(index)),
            None => None,
        }
    }
}

} // verus!
