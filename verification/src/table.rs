//! A map from names to values, kept as a list of entries with distinct names.

use vstd::prelude::*;

verus! {

/// A finite map from names to values of type `V`.
#[derive(Debug)]
pub struct Table<V> {
    entries: Vec<(String, V)>,
}

/// Whether an entry of `entries` has the name `name`.
spec fn has_name<V>(entries: Seq<(String, V)>, name: Seq<char>) -> bool {
    exists|i: int| 0 <= i < entries.len() && (#[trigger] entries[i]).0@ == name
}

/// The index of an entry of `entries` with the name `name`.
spec fn index_of<V>(entries: Seq<(String, V)>, name: Seq<char>) -> int {
    choose|i: int| 0 <= i < entries.len() && (#[trigger] entries[i]).0@ == name
}

/// Whether no two entries of `entries` have the same name.
spec fn distinct_names<V>(entries: Seq<(String, V)>) -> bool {
    forall|i: int, j: int|
        0 <= i < entries.len() && 0 <= j < entries.len() && i != j ==> (#[trigger] entries[i]).0@
            != (#[trigger] entries[j]).0@
}

impl<V> View for Table<V> {
    type V = Map<Seq<char>, V>;

    closed spec fn view(&self) -> Map<Seq<char>, V> {
        Map::new(
            |name: Seq<char>| has_name(self.entries@, name),
            |name: Seq<char>| self.entries@[index_of(self.entries@, name)].1,
        )
    }
}

impl<V> Table<V> {
    /// Whether the table is well formed: no name stands in it twice.
    pub closed spec fn wf(&self) -> bool {
        distinct_names(self.entries@)
    }

    /// The empty table.
    pub fn new() -> (r: Table<V>)
        ensures
            r.wf(),
            r@ == Map::<Seq<char>, V>::empty(),
    {
        let r = Table { entries: Vec::new() };
        assert(r@ =~= Map::<Seq<char>, V>::empty());
        r
    }

    fn find(&self, name: &String) -> (r: Option<usize>)
        ensures
            match r {
                Some(i) => i < self.entries@.len() && self.entries@[i as int].0@ == name@,
                None => !has_name(self.entries@, name@),
            },
    {
        let mut i: usize = 0;
        while i < self.entries.len()
            invariant
                i <= self.entries@.len(),
                forall|j: int| 0 <= j < i ==> (#[trigger] self.entries@[j]).0@ != name@,
            decreases self.entries@.len() - i,
        {
            if self.entries[i].0 == *name {
                return Some(i);
            }
            i += 1;
        }
        None
    }

    /// Whether the table holds a value under `name`.
    pub fn contains(&self, name: &String) -> (r: bool)
        ensures
            r == self@.contains_key(name@),
    {
        self.find(name).is_some()
    }

    /// The value held under `name`, if there is one.
    pub fn get(&self, name: &String) -> (r: Option<&V>)
        requires
            self.wf(),
        ensures
            match r {
                Some(v) => self@.contains_key(name@) && *v == self@[name@],
                None => !self@.contains_key(name@),
            },
    {
        match self.find(name) {
            Some(i) => {
                assert(self.entries@[index_of(self.entries@, name@)].0@ == name@);
                Some(&self.entries[i].1)
            },
            None => None,
        }
    }

    /// Puts `value` under `name`, in place of the value that was held under
    /// that name, if there was one.
    pub fn insert(&mut self, name: String, value: V)
        requires
            old(self).wf(),
        ensures
            final(self).wf(),
            final(self)@ == old(self)@.insert(name@, value),
    {
        let ghost before = self.entries@;
        match self.find(&name) {
            Some(i) => {
                let ghost key = name@;
                self.entries.set(i, (name, value));
                proof {
                    let after = self.entries@;
                    assert forall|k: Seq<char>| has_name(after, k) == (has_name(before, k) || k
                        == key) by {
                        if has_name(before, k) {
                            let j = index_of(before, k);
                            assert(after[j].0@ == k);
                        }
                        if has_name(after, k) {
                            let j = index_of(after, k);
                            assert(before[j].0@ == k);
                        }
                        assert(after[i as int].0@ == key);
                    }
                    assert forall|k: Seq<char>| has_name(after, k) implies after[index_of(
                        after,
                        k,
                    )].1 == (if k == key {
                        value
                    } else {
                        before[index_of(before, k)].1
                    }) by {
                        let j = index_of(after, k);
                        if k == key {
                            assert(after[i as int].0@ == key);
                            assert(j == i);
                        } else {
                            assert(before[j].0@ == k);
                            assert(index_of(before, k) == j);
                        }
                    }
                    assert(self@ =~= old(self)@.insert(key, value));
                }
            },
            None => {
                let ghost key = name@;
                self.entries.push((name, value));
                proof {
                    let after = self.entries@;
                    let n = before.len() as int;
                    assert(after[n].0@ == key);
                    assert forall|k: Seq<char>| has_name(after, k) == (has_name(before, k) || k
                        == key) by {
                        if has_name(before, k) {
                            let j = index_of(before, k);
                            assert(after[j].0@ == k);
                        }
                        if has_name(after, k) {
                            let j = index_of(after, k);
                            if j < n {
                                assert(before[j].0@ == k);
                            }
                        }
                    }
                    assert forall|k: Seq<char>| has_name(after, k) implies after[index_of(
                        after,
                        k,
                    )].1 == (if k == key {
                        value
                    } else {
                        before[index_of(before, k)].1
                    }) by {
                        let j = index_of(after, k);
                        if k == key {
                            if j < n {
                                assert(before[j].0@ == k);
                            }
                            assert(j == n);
                        } else {
                            assert(before[j].0@ == k);
                            let j2 = index_of(before, k);
                            assert(after[j2].0@ == k);
                            assert(j2 == j);
                        }
                    }
                    assert(self@ =~= old(self)@.insert(key, value));
                }
            },
        }
    }
}

} // verus!
