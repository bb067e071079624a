use vstd::prelude::*;

verus! {

/// A table from names to values, with each name present at most once.
pub struct NameTable<T> {
    entries: Vec<(String, T)>,
}

/// The value that `entries` holds under `k`, when some entry has that name.
pub open spec fn entries_lookup<T>(entries: Seq<(String, T)>, k: Seq<char>) -> Option<T> {
    if exists|i: int| 0 <= i < entries.len() && entries[i].0@ == k {
        Some(entries[choose|i: int| 0 <= i < entries.len() && entries[i].0@ == k].1)
    } else {
        None
    }
}

impl<T> NameTable<T> {
    pub closed spec fn wf(&self) -> bool {
        forall|i: int, j: int|
            0 <= i < j < self.entries@.len() ==> self.entries@[i].0@ != self.entries@[j].0@
    }

    /// The table as a map from names to values.
    pub closed spec fn view(&self) -> Map<Seq<char>, T> {
        Map::new(
            |k: Seq<char>| entries_lookup(self.entries@, k) is Some,
            |k: Seq<char>| entries_lookup(self.entries@, k)->Some_0,
        )
    }

    proof fn lemma_lookup(&self, i: int)
        requires
            self.wf(),
            0 <= i < self.entries@.len(),
        ensures
            self.view().contains_key(self.entries@[i].0@),
            self.view()[self.entries@[i].0@] == self.entries@[i].1,
    {
        let k = self.entries@[i].0@;
        let j = choose|j: int| 0 <= j < self.entries@.len() && self.entries@[j].0@ == k;
        assert(j == i);
    }

    pub fn new() -> (r: Self)
        ensures
            r.wf(),
            r.view() == Map::<Seq<char>, T>::empty(),
    {
        let r = NameTable { entries: Vec::new() };
        assert(r.view() =~= Map::<Seq<char>, T>::empty());
        r
    }

    /// The position of the entry named `name`, if there is one.
    fn position(&self, name: &String) -> (r: Option<usize>)
        requires
            self.wf(),
        ensures
            match r {
                Some(i) => i < self.entries@.len() && self.entries@[i as int].0@ == name@,
                None => !self.view().contains_key(name@),
            },
    {
        let mut i: usize = 0;
        while i < self.entries.len()
            invariant
                i <= self.entries@.len(),
                forall|j: int| 0 <= j < i ==> self.entries@[j].0@ != name@,
            decreases self.entries@.len() - i,
        {
            if self.entries[i].0 == *name {
                return Some(i);
            }
            i += 1;
        }
        None
    }

    /// Puts `value` under `name`, replacing what was there.
    pub fn insert(&mut self, name: String, value: T)
        requires
            old(self).wf(),
        ensures
            final(self).wf(),
            final(self).view() == old(self).view().insert(name@, value),
    {
        let ghost k = name@;
        let ghost v = value;
        let ghost idx: int;
        match self.position(&name) {
            Some(i) => {
                self.entries.set(i, (name, value));
                proof {
                    idx = i as int;
                }
            },
            None => {
                self.entries.push((name, value));
                proof {
                    idx = old(self).entries@.len() as int;
                    assert forall|j: int| 0 <= j < old(self).entries@.len() implies
                        old(self).entries@[j].0@ != k by {
                        if old(self).entries@[j].0@ == k {
                            old(self).lemma_lookup(j);
                        }
                    }
                }
            },
        }
        assert(self.entries@[idx].0@ == k && self.entries@[idx].1 == v);
        assert(forall|j: int| 0 <= j < self.entries@.len() && j != idx ==> self.entries@[j]
            == old(self).entries@[j]);
        assert forall|k2: Seq<char>| #[trigger]
            self.view().contains_key(k2) == old(self).view().insert(k, v).contains_key(k2) && (
            self.view().contains_key(k2) ==> self.view()[k2] == old(self).view().insert(
                k,
                v,
            )[k2]) by {
            if k2 == k {
                self.lemma_lookup(idx);
            } else if old(self).view().contains_key(k2) {
                let i = choose|i: int|
                    0 <= i < old(self).entries@.len() && old(self).entries@[i].0@ == k2;
                old(self).lemma_lookup(i);
                self.lemma_lookup(i);
            } else {
                if self.view().contains_key(k2) {
                    let i = choose|i: int|
                        0 <= i < self.entries@.len() && self.entries@[i].0@ == k2;
                    assert(old(self).entries@[i].0@ == k2);
                }
            }
        }
        assert(self.view() =~= old(self).view().insert(k, v));
    }

    /// The value under `name`, if there is one.
    pub fn get(&self, name: &str) -> (r: Option<&T>)
        requires
            self.wf(),
        ensures
            match r {
                Some(v) => self.view().contains_key(name@) && self.view()[name@] == *v,
                None => !self.view().contains_key(name@),
            },
    {
        let key = name.to_owned();
        match self.position(&key) {
            Some(i) => {
                proof {
                    self.lemma_lookup(i as int);
                }
                Some(&self.entries[i].1)
            },
            None => None,
        }
    }

    /// Whether some value stands under `name`.
    pub fn contains(&self, name: &str) -> (r: bool)
        requires
            self.wf(),
        ensures
            r == self.view().contains_key(name@),
    {
        let key = name.to_owned();
        match self.position(&key) {
            Some(i) => {
                proof {
                    self.lemma_lookup(i as int);
                }
                true
            },
            None => false,
        }
    }
}

} // verus!
