use vstd::prelude::*;

use crate::error::CalcError;

verus! {

/// Named accumulators. A slot exists once it has been written; reading an
/// unwritten slot is an error, writing one creates it.
pub struct Memory<V> {
    slots: Vec<(String, V)>,
}

impl<V> View for Memory<V> {
    type V = Map<Seq<char>, V>;

    closed spec fn view(&self) -> Map<Seq<char>, V> {
        Map::new(
            |k: Seq<char>| exists|i: int| 0 <= i < self.slots@.len() && #[trigger] self.slots@[i].0@ == k,
            |k: Seq<char>|
                self.slots@[choose|i: int| 0 <= i < self.slots@.len() && #[trigger] self.slots@[i].0@ == k].1,
        )
    }
}

impl<V: Copy> Memory<V> {
    /// No two slots share a name.
    pub closed spec fn wf(&self) -> bool {
        forall|i: int, j: int|
            0 <= i < j < self.slots@.len() ==> #[trigger] self.slots@[i].0@ != #[trigger] self.slots@[j].0@
    }

    proof fn lemma_lookup(&self, i: int)
        requires
            self.wf(),
            0 <= i < self.slots@.len(),
        ensures
            self@.contains_key(self.slots@[i].0@),
            self@[self.slots@[i].0@] == self.slots@[i].1,
    {
        let k = self.slots@[i].0@;
        assert(self@.dom().contains(k));
        let j = choose|j: int| 0 <= j < self.slots@.len() && #[trigger] self.slots@[j].0@ == k;
        assert(j == i);
    }

    /// An empty store.
    pub fn new() -> (m: Self)
        ensures
            m.wf(),
            m@ == Map::<Seq<char>, V>::empty(),
    {
        let m = Memory { slots: Vec::new() };
        assert(m@ =~= Map::<Seq<char>, V>::empty());
        m
    }

    /// Index of the slot named `key`, if it exists.
    fn find(&self, key: &str) -> (r: Option<usize>)
        requires
            self.wf(),
        ensures
            r matches Some(i) ==> i < self.slots@.len() && self.slots@[i as int].0@ == key@,
            r is None ==> !self@.contains_key(key@),
    {
        let k = String::from_str(key);
        let mut i: usize = 0;
        while i < self.slots.len()
            invariant
                i <= self.slots@.len(),
                k@ == key@,
                forall|j: int| 0 <= j < i ==> #[trigger] self.slots@[j].0@ != key@,
            decreases self.slots.len() - i,
        {
            if self.slots[i].0 == k {
                return Some(i);
            }
            i = i + 1;
        }
        None
    }

    /// Whether the slot `key` has been written.
    pub fn contains(&self, key: &str) -> (r: bool)
        requires
            self.wf(),
        ensures
            r == self@.contains_key(key@),
    {
        match self.find(key) {
            Some(i) => {
                proof {
                    self.lemma_lookup(i as int);
                }
                true
            },
            None => false,
        }
    }

    /// The value of slot `key`; fails with `SlotNotFound` when it was never written.
    pub fn get(&self, key: &str) -> (r: Result<V, CalcError>)
        requires
            self.wf(),
        ensures
            self@.contains_key(key@) ==> r == Ok::<V, CalcError>(self@[key@]),
            !self@.contains_key(key@) ==> (r matches Err(CalcError::SlotNotFound(name)) && name@
                == key@),
    {
        match self.find(key) {
            Some(i) => {
                proof {
                    self.lemma_lookup(i as int);
                }
                Ok(self.slots[i].1)
            },
            None => Err(CalcError::SlotNotFound(String::from_str(key))),
        }
    }

    /// Adds `value` to slot `mem_name` with `combine` (`combine(current, value)`), or
    /// creates the slot holding `value` when it does not exist yet.
    pub fn update<F: Fn(V, V) -> V>(&mut self, mem_name: String, value: V, combine: F)
        requires
            old(self).wf(),
            forall|a: V, b: V| combine.requires((a, b)),
        ensures
            final(self).wf(),
            !old(self)@.contains_key(mem_name@) ==> final(self)@ == old(self)@.insert(
                mem_name@,
                value,
            ),
            old(self)@.contains_key(mem_name@) ==> exists|v: V|
                combine.ensures((old(self)@[mem_name@], value), v) && final(self)@ == old(self)@.insert(
                    mem_name@,
                    v,
                ),
    {
        match self.find(mem_name.as_str()) {
            Some(i) => {
                proof {
                    self.lemma_lookup(i as int);
                }
                let current = self.slots[i].1;
                let v = combine(current, value);
                let ghost before = *self;
                self.slots.set(i, (mem_name, v));
                proof {
                    assert forall|a: int, b: int|
                        0 <= a < b < self.slots@.len() implies #[trigger] self.slots@[a].0@
                        != #[trigger] self.slots@[b].0@ by {
                        assert(before.slots@[a].0@ != before.slots@[b].0@);
                    }
                    assert forall|k: Seq<char>| #[trigger] self@.contains_key(k) == before@.insert(mem_name@, v).contains_key(k) by {
                        if before@.contains_key(k) && k != mem_name@ {
                            let j = choose|j: int| 0 <= j < before.slots@.len() && #[trigger] before.slots@[j].0@ == k;
                            assert(self.slots@[j].0@ == k);
                        }
                        if self@.contains_key(k) {
                            let j = choose|j: int| 0 <= j < self.slots@.len() && #[trigger] self.slots@[j].0@ == k;
                            if j != i {
                                assert(before.slots@[j].0@ == k);
                            }
                        }
                        self.lemma_lookup(i as int);
                    }
                    assert forall|k: Seq<char>| #[trigger] self@.contains_key(k) implies self@[k] == before@.insert(mem_name@, v)[k] by {
                        let j = choose|j: int| 0 <= j < self.slots@.len() && #[trigger] self.slots@[j].0@ == k;
                        self.lemma_lookup(j);
                        if j != i {
                            before.lemma_lookup(j);
                        }
                    }
                    assert(self@ =~= before@.insert(mem_name@, v));
                }
            },
            None => {
                let ghost before = *self;
                let ghost name = mem_name@;
                self.slots.push((mem_name, value));
                proof {
                    let n = before.slots@.len() as int;
                    assert(self.slots@[n].0@ == name);
                    assert forall|a: int, b: int|
                        0 <= a < b < self.slots@.len() implies #[trigger] self.slots@[a].0@
                        != #[trigger] self.slots@[b].0@ by {
                        if b == n {
                            assert(before.slots@[a].0@ != name);
                        } else {
                            assert(before.slots@[a].0@ != before.slots@[b].0@);
                        }
                    }
                    assert forall|k: Seq<char>| #[trigger] self@.contains_key(k) == before@.insert(name, value).contains_key(k) by {
                        if before@.contains_key(k) {
                            let j = choose|j: int| 0 <= j < before.slots@.len() && #[trigger] before.slots@[j].0@ == k;
                            assert(self.slots@[j].0@ == k);
                        }
                        if self@.contains_key(k) && k != name {
                            let j = choose|j: int| 0 <= j < self.slots@.len() && #[trigger] self.slots@[j].0@ == k;
                            assert(before.slots@[j].0@ == k);
                        }
                    }
                    assert forall|k: Seq<char>| #[trigger] self@.contains_key(k) implies self@[k] == before@.insert(name, value)[k] by {
                        let j = choose|j: int| 0 <= j < self.slots@.len() && #[trigger] self.slots@[j].0@ == k;
                        self.lemma_lookup(j);
                        if j != n {
                            before.lemma_lookup(j);
                        }
                    }
                    assert(self@ =~= before@.insert(name, value));
                }
            },
        }
    }
}

} // verus!
