use vstd::prelude::*;

verus! {

/// A network address as the nodes exchange it: a host and a port, both
/// kept as the text they were given in.
pub struct Address {
    pub host: String,
    pub port: String,
}

/// The mathematical value of an [`Address`].
pub type AddressModel = (Seq<char>, Seq<char>);

impl View for Address {
    type V = AddressModel;

    open spec fn view(&self) -> AddressModel {
        (self.host@, self.port@)
    }
}

impl Address {
    /// A copy of the address.
    pub fn copy(&self) -> (res: Address)
        ensures
            res@ == self@,
    {
        Address { host: self.host.clone(), port: self.port.clone() }
    }
}

/// A table from addresses to values, in which no address occurs twice.
pub struct Table<V> {
    entries: Vec<(Address, V)>,
}

impl<V> View for Table<V> {
    type V = Map<AddressModel, V>;

    closed spec fn view(&self) -> Map<AddressModel, V> {
        Map::new(
            |k: AddressModel| exists|i: int| 0 <= i < self.entries@.len() && #[trigger] self.entries@[i].0@ == k,
            |k: AddressModel|
                self.entries@[choose|i: int| 0 <= i < self.entries@.len() && #[trigger] self.entries@[i].0@ == k].1,
        )
    }
}

impl<V> Table<V> {
    /// No address occurs twice among the entries.
    pub closed spec fn wf(&self) -> bool {
        forall|i: int, j: int|
            0 <= i < j < self.entries@.len() ==> #[trigger] self.entries@[i].0@ != #[trigger] self.entries@[j].0@
    }

    /// The entry at `j` is what the table holds under its address.
    proof fn lemma_entry(&self, j: int)
        requires
            self.wf(),
            0 <= j < self.entries@.len(),
        ensures
            self@.contains_key(self.entries@[j].0@),
            self@[self.entries@[j].0@] == self.entries@[j].1,
    {
        let k = self.entries@[j].0@;
        assert(self.entries@[j].0@ == k);
        let c = choose|i: int| 0 <= i < self.entries@.len() && #[trigger] self.entries@[i].0@ == k;
        if c != j {
            if c < j {
                assert(self.entries@[c].0@ != self.entries@[j].0@);
            } else {
                assert(self.entries@[j].0@ != self.entries@[c].0@);
            }
        }
    }

    /// An empty table.
    pub fn new() -> (res: Table<V>)
        ensures
            res.wf(),
            res@ == Map::<AddressModel, V>::empty(),
    {
        let res = Table { entries: Vec::new() };
        assert(res@ =~= Map::<AddressModel, V>::empty());
        res
    }

    /// Where the entry for `host`, `port` stands, if there is one.
    fn position(&self, host: &String, port: &String) -> (res: Option<usize>)
        requires
            self.wf(),
        ensures
            match res {
                Some(i) => i < self.entries@.len() && self.entries@[i as int].0@ == (host@, port@),
                None => !self@.contains_key((host@, port@)),
            },
    {
        let n = self.entries.len();
        let mut i: usize = 0;
        while i < n
            invariant
                n == self.entries@.len(),
                i <= n,
                forall|j: int| 0 <= j < i ==> #[trigger] self.entries@[j].0@ != (host@, port@),
            decreases n - i,
        {
            let entry = &self.entries[i];
            if entry.0.host == *host && entry.0.port == *port {
                return Some(i);
            }
            i = i + 1;
        }
        None
    }

    /// Whether the table holds an entry for `host`, `port`.
    pub fn contains(&self, host: &String, port: &String) -> (res: bool)
        requires
            self.wf(),
        ensures
            res == self@.contains_key((host@, port@)),
    {
        match self.position(host, port) {
            Some(i) => {
                proof {
                    self.lemma_entry(i as int);
                }
                true
            },
            None => false,
        }
    }

    /// The value held for `host`, `port`, if any.
    pub fn get(&self, host: &String, port: &String) -> (res: Option<&V>)
        requires
            self.wf(),
        ensures
            match res {
                Some(v) => self@.contains_key((host@, port@)) && self@[(host@, port@)] == *v,
                None => !self@.contains_key((host@, port@)),
            },
    {
        match self.position(host, port) {
            Some(i) => {
                proof {
                    self.lemma_entry(i as int);
                }
                Some(&self.entries[i].1)
            },
            None => None,
        }
    }

    /// Removes the entry at position `i` and hands its value back.
    fn remove_at(&mut self, i: usize) -> (res: V)
        requires
            old(self).wf(),
            i < old(self).entries@.len(),
        ensures
            final(self).wf(),
            final(self).entries@ == old(self).entries@.remove(i as int),
            final(self)@ == old(self)@.remove(old(self).entries@[i as int].0@),
            old(self)@.contains_key(old(self).entries@[i as int].0@),
            old(self)@[old(self).entries@[i as int].0@] == res,
            res == old(self).entries@[i as int].1,
    {
        proof {
            self.lemma_entry(i as int);
        }
        let ghost before = *self;
        let ghost k = self.entries@[i as int].0@;
        let entry = self.entries.remove(i);
        proof {
            let e = self.entries@;
            let o = before.entries@;
            assert forall|a: int, b: int| 0 <= a < b < e.len() implies #[trigger] e[a].0@
                != #[trigger] e[b].0@ by {
                let oa = if a < i { a } else { a + 1 };
                let ob = if b < i { b } else { b + 1 };
                assert(e[a] == o[oa]);
                assert(e[b] == o[ob]);
                assert(o[oa].0@ != o[ob].0@);
            }
            assert forall|k2: AddressModel| #[trigger] self@.contains_key(k2)
                == before@.remove(k).contains_key(k2) by {
                if self@.contains_key(k2) {
                    let j = choose|j: int| 0 <= j < e.len() && #[trigger] e[j].0@ == k2;
                    let oj = if j < i { j } else { j + 1 };
                    assert(e[j] == o[oj]);
                    assert(o[oj].0@ != o[i as int].0@);
                    before.lemma_entry(oj);
                }
                if before@.remove(k).contains_key(k2) {
                    let j = choose|j: int| 0 <= j < o.len() && #[trigger] o[j].0@ == k2;
                    assert(j != i);
                    let nj = if j < i { j } else { j - 1 };
                    assert(e[nj] == o[j]);
                    assert(e[nj].0@ == k2);
                }
            }
            assert forall|k2: AddressModel| #[trigger] self@.contains_key(k2) implies self@[k2]
                == before@.remove(k)[k2] by {
                let j = choose|j: int| 0 <= j < e.len() && #[trigger] e[j].0@ == k2;
                self.lemma_entry(j);
                let oj = if j < i { j } else { j + 1 };
                assert(e[j] == o[oj]);
                before.lemma_entry(oj);
            }
            assert(self@ =~= before@.remove(k));
        }
        entry.1
    }

    /// Removes the entry for `host`, `port` and hands its value back.
    pub fn take(&mut self, host: &String, port: &String) -> (res: Option<V>)
        requires
            old(self).wf(),
        ensures
            final(self).wf(),
            final(self)@ == old(self)@.remove((host@, port@)),
            match res {
                Some(v) => old(self)@.contains_key((host@, port@)) && old(self)@[(host@, port@)] == v,
                None => !old(self)@.contains_key((host@, port@)),
            },
    {
        match self.position(host, port) {
            None => {
                proof {
                    assert(self@ =~= old(self)@.remove((host@, port@)));
                }
                None
            },
            Some(i) => Some(self.remove_at(i)),
        }
    }

    /// Sets the value held for `key`, replacing any value held before.
    pub fn put(&mut self, key: Address, value: V)
        requires
            old(self).wf(),
        ensures
            final(self).wf(),
            final(self)@ == old(self)@.insert(key@, value),
    {
        let _ = self.take(&key.host, &key.port);
        let ghost before = *self;
        let ghost k = key@;
        self.entries.push((key, value));
        proof {
            let e = self.entries@;
            let o = before.entries@;
            let n = o.len();
            assert(!before@.contains_key(k));
            assert forall|a: int, b: int| 0 <= a < b < e.len() implies #[trigger] e[a].0@
                != #[trigger] e[b].0@ by {
                if b == n {
                    assert(e[a] == o[a]);
                    if o[a].0@ == k {
                        assert(before@.contains_key(k));
                    }
                } else {
                    assert(e[a] == o[a]);
                    assert(e[b] == o[b]);
                }
            }
            assert forall|k2: AddressModel| #[trigger] self@.contains_key(k2) == before@.insert(k, value).contains_key(k2) by {
                if self@.contains_key(k2) && k2 != k {
                    let j = choose|j: int| 0 <= j < e.len() && #[trigger] e[j].0@ == k2;
                    assert(j != n);
                    assert(e[j] == o[j]);
                }
                if before@.contains_key(k2) {
                    let j = choose|j: int| 0 <= j < o.len() && #[trigger] o[j].0@ == k2;
                    assert(e[j] == o[j]);
                }
                if k2 == k {
                    assert(e[n as int].0@ == k);
                }
            }
            assert forall|k2: AddressModel| #[trigger] self@.contains_key(k2) implies self@[k2]
                == before@.insert(k, value)[k2] by {
                let j = choose|j: int| 0 <= j < e.len() && #[trigger] e[j].0@ == k2;
                self.lemma_entry(j);
                if j < n {
                    assert(e[j] == o[j]);
                    before.lemma_entry(j);
                }
            }
            assert(self@ =~= before@.insert(k, value));
        }
    }
}

} // verus!
