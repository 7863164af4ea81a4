use vstd::prelude::*;

verus! {

/// A key under which running work is registered: compared by its view.
pub trait TaskKey: View + Sized {
    fn same_key(&self, other: &Self) -> (r: bool)
        ensures
            r == (self@ == other@),
    ;
}

impl TaskKey for usize {
    fn same_key(&self, other: &usize) -> (r: bool) {
        *self == *other
    }
}

impl TaskKey for String {
    fn same_key(&self, other: &String) -> (r: bool) {
        *self == *other
    }
}

/// A map from key to the cancellation handle of the work running under it.
/// Each key is held at most once.
pub struct Registry<K: TaskKey, H> {
    entries: Vec<(K, H)>,
    model: Ghost<Map<K::V, H>>,
}

impl<K: TaskKey, H> Registry<K, H> {
    pub closed spec fn view(&self) -> Map<K::V, H> {
        self.model@
    }

    /// The entries and the map agree, and no key is held twice.
    pub closed spec fn wf(&self) -> bool {
        &&& forall|i: int|
            #![trigger self.entries@[i]]
            0 <= i < self.entries@.len() ==> self.model@.contains_key(self.entries@[i].0@)
                && self.model@[self.entries@[i].0@] == self.entries@[i].1
        &&& forall|k: K::V|
            #![trigger self.model@.contains_key(k)]
            self.model@.contains_key(k) ==> exists|i: int|
                0 <= i < self.entries@.len() && #[trigger] self.entries@[i].0@ == k
        &&& forall|i: int, j: int|
            0 <= i < j < self.entries@.len() ==> #[trigger] self.entries@[i].0@
                != #[trigger] self.entries@[j].0@
    }

    pub fn new() -> (r: Self)
        ensures
            r.wf(),
            r@ == Map::<K::V, H>::empty(),
    {
        Registry { entries: Vec::new(), model: Ghost(Map::empty()) }
    }

    /// Position of `key` among the entries.
    fn find(&self, key: &K) -> (r: Option<usize>)
        requires
            self.wf(),
        ensures
            r is None <==> !self@.contains_key(key@),
            r matches Some(i) ==> i < self.entries@.len() && self.entries@[i as int].0@ == key@,
    {
        let mut i: usize = 0;
        while i < self.entries.len()
            invariant
                self.wf(),
                i <= self.entries@.len(),
                forall|j: int| 0 <= j < i ==> #[trigger] self.entries@[j].0@ != key@,
            decreases self.entries@.len() - i,
        {
            if self.entries[i].0.same_key(key) {
                return Some(i);
            }
            i = i + 1;
        }
        proof {
            if self@.contains_key(key@) {
                let j = choose|j: int| 0 <= j < self.entries@.len() && #[trigger] self.entries@[j].0@ == key@;
                assert(self.entries@[j].0@ != key@);
            }
        }
        None
    }

    pub fn contains(&self, key: &K) -> (r: bool)
        requires
            self.wf(),
        ensures
            r == self@.contains_key(key@),
    {
        self.find(key).is_some()
    }

    proof fn lemma_len(&self)
        requires
            self.wf(),
        ensures
            self@.dom().finite(),
            self@.len() == self.entries@.len(),
    {
        let keys = self.entries@.map_values(|e: (K, H)| e.0@);
        assert forall|k: K::V| self@.dom().contains(k) <==> #[trigger] keys.to_set().contains(k) by {
            if self@.dom().contains(k) {
                let i = choose|i: int| 0 <= i < self.entries@.len() && #[trigger] self.entries@[i].0@ == k;
                assert(keys[i] == k);
            }
            if keys.to_set().contains(k) {
                let i = choose|i: int| 0 <= i < keys.len() && keys[i] == k;
                assert(self.entries@[i].0@ == k);
            }
        }
        assert(self@.dom() =~= keys.to_set());
        assert forall|i: int, j: int| 0 <= i < keys.len() && 0 <= j < keys.len() && i != j
            implies keys[i] != keys[j] by {
            if i < j {
                assert(self.entries@[i].0@ != self.entries@[j].0@);
            } else {
                assert(self.entries@[j].0@ != self.entries@[i].0@);
            }
        }
        assert(keys.no_duplicates());
        keys.unique_seq_to_set();
    }

    /// Registers `handle` under `key`. A key that is already held is refused,
    /// and the handle is given back.
    pub fn register(&mut self, key: K, handle: H) -> (r: Result<(), H>)
        requires
            old(self).wf(),
        ensures
            final(self).wf(),
            r is Ok <==> !old(self)@.contains_key(key@),
            r is Ok ==> final(self)@ == old(self)@.insert(key@, handle),
            r matches Err(h) ==> h == handle && final(self)@ == old(self)@,
    {
        if self.find(&key).is_some() {
            return Err(handle);
        }
        let ghost k = key@;
        let ghost old_entries = self.entries@;
        self.model = Ghost(self.model@.insert(k, handle));
        self.entries.push((key, handle));
        proof {
            let n = old_entries.len() as int;
            assert(self.entries@[n].0@ == k);
            assert forall|i: int| 0 <= i < n implies #[trigger] self.entries@[i].0@ != k by {
                assert(self.entries@[i] == old_entries[i]);
            }
            assert forall|kk: K::V| #[trigger] self.model@.contains_key(kk) implies exists|i: int|
                0 <= i < self.entries@.len() && #[trigger] self.entries@[i].0@ == kk by {
                if kk != k {
                    let i = choose|i: int| 0 <= i < old_entries.len() && #[trigger] old_entries[i].0@ == kk;
                    assert(self.entries@[i] == old_entries[i]);
                }
            }
        }
        Ok(())
    }

    /// Takes the entry of `key` out, if there is one, and hands back its handle.
    pub fn remove(&mut self, key: &K) -> (r: Option<H>)
        requires
            old(self).wf(),
        ensures
            final(self).wf(),
            final(self)@ == old(self)@.remove(key@),
            r is Some <==> old(self)@.contains_key(key@),
            r matches Some(h) ==> h == old(self)@[key@],
    {
        match self.find(key) {
            None => {
                assert(self@.remove(key@) =~= self@);
                None
            },
            Some(i) => {
                let ghost old_entries = self.entries@;
                let ghost k = key@;
                let (_, h) = self.entries.remove(i);
                self.model = Ghost(self.model@.remove(k));
                proof {
                    assert forall|j: int|
                        #![trigger self.entries@[j]]
                        0 <= j < self.entries@.len() implies self.model@.contains_key(self.entries@[j].0@)
                            && self.model@[self.entries@[j].0@] == self.entries@[j].1 by {
                        if j < i {
                            assert(self.entries@[j] == old_entries[j]);
                            assert(old_entries[j].0@ != old_entries[i as int].0@);
                        } else {
                            assert(self.entries@[j] == old_entries[j + 1]);
                            assert(old_entries[i as int].0@ != old_entries[j + 1].0@);
                        }
                    }
                    assert forall|kk: K::V| #[trigger] self.model@.contains_key(kk) implies exists|j: int|
                        0 <= j < self.entries@.len() && #[trigger] self.entries@[j].0@ == kk by {
                        let j = choose|j: int| 0 <= j < old_entries.len() && #[trigger] old_entries[j].0@ == kk;
                        if j < i {
                            assert(self.entries@[j] == old_entries[j]);
                        } else {
                            assert(j != i);
                            assert(self.entries@[j - 1] == old_entries[j]);
                        }
                    }
                    assert forall|a: int, b: int| 0 <= a < b < self.entries@.len() implies
                        #[trigger] self.entries@[a].0@ != #[trigger] self.entries@[b].0@ by {
                        let oa = if a < i { a } else { a + 1 };
                        let ob = if b < i { b } else { b + 1 };
                        assert(self.entries@[a] == old_entries[oa]);
                        assert(self.entries@[b] == old_entries[ob]);
                        assert(old_entries[oa].0@ != old_entries[ob].0@);
                    }
                }
                Some(h)
            },
        }
    }

    /// Empties the registry and hands back every handle it held.
    pub fn drain(&mut self) -> (r: Vec<H>)
        requires
            old(self).wf(),
        ensures
            final(self).wf(),
            final(self)@ == Map::<K::V, H>::empty(),
            r@.len() == old(self)@.len(),
            forall|k: K::V| #[trigger] old(self)@.contains_key(k) ==> r@.contains(old(self)@[k]),
    {
        proof {
            self.lemma_len();
        }
        let ghost old_model = self.model@;
        let ghost old_entries = self.entries@;
        let mut handles: Vec<H> = Vec::new();
        while self.entries.len() > 0
            invariant
                self.entries@.len() <= old_entries.len(),
                handles@.len() + self.entries@.len() == old_entries.len(),
                forall|j: int| 0 <= j < self.entries@.len() ==> #[trigger] self.entries@[j] == old_entries[j],
                forall|j: int|
                    self.entries@.len() <= j < old_entries.len() ==> handles@.contains(
                        #[trigger] old_entries[j].1,
                    ),
            decreases self.entries@.len(),
        {
            let (_, h) = self.entries.pop().unwrap();
            let ghost before = handles@;
            handles.push(h);
            proof {
                assert forall|j: int| self.entries@.len() <= j < old_entries.len() implies handles@.contains(
                    #[trigger] old_entries[j].1,
                ) by {
                    if j == self.entries@.len() {
                        assert(handles@[before.len() as int] == h);
                    } else {
                        let m = choose|m: int| 0 <= m < before.len() && before[m] == old_entries[j].1;
                        assert(handles@[m] == before[m]);
                    }
                }
            }
        }
        self.model = Ghost(Map::empty());
        proof {
            assert forall|k: K::V| #[trigger] old_model.contains_key(k) implies handles@.contains(old_model[k]) by {
                let i = choose|i: int| 0 <= i < old_entries.len() && #[trigger] old_entries[i].0@ == k;
            }
        }
        handles
    }
}

} // verus!
