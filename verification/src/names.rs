//! The name index: from the name of a task to the address it waits at.

use crate::types::Address;
use vstd::prelude::*;

verus! {

/// Whether two byte strings are the same.
pub(crate) fn same_bytes(a: &Vec<u8>, b: &Vec<u8>) -> (r: bool)
    ensures
        r == (a@ == b@),
{
    if a.len() != b.len() {
        return false;
    }
    let mut i: usize = 0;
    while i < a.len()
        invariant
            a.len() == b.len(),
            i <= a.len(),
            forall|j: int| 0 <= j < i ==> a@[j] == b@[j],
        decreases a.len() - i,
    {
        if a[i] != b[i] {
            return false;
        }
        i += 1;
    }
    assert(a@ =~= b@);
    true
}

/// A copy of a byte string.
pub(crate) fn copy_bytes(a: &Vec<u8>) -> (r: Vec<u8>)
    ensures
        r@ == a@,
{
    let mut r: Vec<u8> = Vec::new();
    let mut i: usize = 0;
    while i < a.len()
        invariant
            i <= a.len(),
            r@ == a@.subrange(0, i as int),
        decreases a.len() - i,
    {
        r.push(a[i]);
        i += 1;
    }
    assert(a@.subrange(0, a.len() as int) =~= a@);
    r
}

/// One entry of the index.
struct NameEntry {
    name: Vec<u8>,
    address: Address,
}

/// The names in use, each with the address of the task that bears it.
pub(crate) struct NameIndex {
    entries: Vec<NameEntry>,
}

impl NameIndex {
    /// Whether slot `i` holds `name`.
    spec fn holds(self, i: int, name: Seq<u8>) -> bool {
        0 <= i < self.entries@.len() && self.entries@[i].name@ == name
    }

    /// No name occurs twice.
    pub(crate) closed spec fn wf(self) -> bool {
        forall|i: int, j: int|
            0 <= i < self.entries@.len() && 0 <= j < self.entries@.len()
                && #[trigger] self.entries@[i].name@ == #[trigger] self.entries@[j].name@ ==> i == j
    }

    /// The index as a map from names to addresses.
    pub(crate) closed spec fn view(self) -> Map<Seq<u8>, Address> {
        Map::new(
            |n: Seq<u8>| exists|i: int| self.holds(i, n),
            |n: Seq<u8>| self.entries@[choose|i: int| self.holds(i, n)].address,
        )
    }

    proof fn lemma_entry(self, i: int)
        requires
            self.wf(),
            0 <= i < self.entries@.len(),
        ensures
            self.view().contains_key(self.entries@[i].name@),
            self.view()[self.entries@[i].name@] == self.entries@[i].address,
    {
        let n = self.entries@[i].name@;
        assert(self.holds(i, n));
        let c = choose|k: int| self.holds(k, n);
        assert(self.holds(c, n));
        assert(c == i);
    }

    /// An index without names.
    pub(crate) fn new() -> (r: Self)
        ensures
            r.wf(),
            r.view() == Map::<Seq<u8>, Address>::empty(),
    {
        let r = NameIndex { entries: Vec::new() };
        assert(r.view() =~= Map::<Seq<u8>, Address>::empty());
        r
    }

    /// The slot that holds `name`, if one does.
    fn position(&self, name: &Vec<u8>) -> (r: Option<usize>)
        requires
            self.wf(),
        ensures
            match r {
                Some(i) => self.holds(i as int, name@),
                None => !self.view().contains_key(name@),
            },
    {
        let mut i: usize = 0;
        while i < self.entries.len()
            invariant
                i <= self.entries@.len(),
                forall|j: int| 0 <= j < i ==> !self.holds(j, name@),
            decreases self.entries@.len() - i,
        {
            if same_bytes(&self.entries[i].name, name) {
                return Some(i);
            }
            i += 1;
        }
        None
    }

    /// The address recorded for `name`.
    pub(crate) fn get(&self, name: &Vec<u8>) -> (r: Option<Address>)
        requires
            self.wf(),
        ensures
            r == (if self.view().contains_key(name@) {
                Some(self.view()[name@])
            } else {
                None
            }),
    {
        match self.position(name) {
            Some(i) => {
                proof {
                    self.lemma_entry(i as int);
                }
                Some(self.entries[i].address)
            },
            None => None,
        }
    }

    /// Records `address` for `name`, in place of what was recorded before.
    pub(crate) fn insert(&mut self, name: Vec<u8>, address: Address)
        requires
            old(self).wf(),
        ensures
            final(self).wf(),
            final(self).view() == old(self).view().insert(name@, address),
    {
        let ghost before = *self;
        match self.position(&name) {
            Some(i) => {
                let ghost n = name@;
                self.entries[i] = NameEntry { name, address };
                proof {
                    assert(forall|k: int|
                        0 <= k < self.entries@.len() ==> self.entries@[k].name@
                            == before.entries@[k].name@);
                    assert(self.wf());
                    assert forall|m: Seq<u8>| #[trigger]
                        self.view().contains_key(m) == before.view().insert(
                            n,
                            address,
                        ).contains_key(m) by {
                        if before.view().insert(n, address).contains_key(m) {
                            if m == n {
                                assert(self.holds(i as int, m));
                            } else {
                                let k = choose|k: int| before.holds(k, m);
                                assert(self.holds(k, m));
                            }
                        }
                        if self.view().contains_key(m) {
                            let k = choose|k: int| self.holds(k, m);
                            assert(before.holds(k, m));
                        }
                    }
                    assert forall|m: Seq<u8>| #[trigger]
                        self.view().contains_key(m) implies self.view()[m] == before.view().insert(
                        n,
                        address,
                    )[m] by {
                        let k = choose|k: int| self.holds(k, m);
                        self.lemma_entry(k);
                        if k != i {
                            before.lemma_entry(k);
                        }
                    }
                    assert(self.view() =~= before.view().insert(n, address));
                }
            },
            None => {
                let ghost n = name@;
                self.entries.push(NameEntry { name, address });
                proof {
                    let last = before.entries@.len() as int;
                    assert forall|k: int| 0 <= k < last implies before.entries@[k].name@ != n by {
                        if before.entries@[k].name@ == n {
                            assert(before.holds(k, n));
                        }
                    }
                    assert(forall|k: int|
                        0 <= k < last ==> self.entries@[k].name@ == before.entries@[k].name@);
                    assert(self.wf());
                    assert forall|m: Seq<u8>| #[trigger]
                        self.view().contains_key(m) == before.view().insert(
                            n,
                            address,
                        ).contains_key(m) by {
                        if before.view().insert(n, address).contains_key(m) {
                            if m == n {
                                assert(self.holds(last, m));
                            } else {
                                let k = choose|k: int| before.holds(k, m);
                                assert(self.holds(k, m));
                            }
                        }
                        if self.view().contains_key(m) {
                            let k = choose|k: int| self.holds(k, m);
                            if k != last {
                                assert(before.holds(k, m));
                            }
                        }
                    }
                    assert forall|m: Seq<u8>| #[trigger]
                        self.view().contains_key(m) implies self.view()[m] == before.view().insert(
                        n,
                        address,
                    )[m] by {
                        let k = choose|k: int| self.holds(k, m);
                        self.lemma_entry(k);
                        if k != last {
                            before.lemma_entry(k);
                        }
                    }
                    assert(self.view() =~= before.view().insert(n, address));
                }
            },
        }
    }

    /// Forgets `name`.
    pub(crate) fn remove(&mut self, name: &Vec<u8>)
        requires
            old(self).wf(),
        ensures
            final(self).wf(),
            final(self).view() == old(self).view().remove(name@),
    {
        let ghost before = *self;
        match self.position(name) {
            Some(i) => {
                let _ = self.entries.swap_remove(i);
                proof {
                    let n = name@;
                    let last = before.entries@.len() - 1;
                    assert(forall|k: int|
                        0 <= k < self.entries@.len() ==> self.entries@[k] == before.entries@[if k
                            == i {
                            last
                        } else {
                            k
                        }]);
                    assert(self.wf());
                    assert forall|m: Seq<u8>| #[trigger]
                        self.view().contains_key(m) == before.view().remove(n).contains_key(m) by {
                        if before.view().remove(n).contains_key(m) {
                            let k = choose|k: int| before.holds(k, m);
                            if k == last {
                                assert(self.holds(i as int, m));
                            } else {
                                assert(self.holds(k, m));
                            }
                        }
                        if self.view().contains_key(m) {
                            let k = choose|k: int| self.holds(k, m);
                            if k == i {
                                assert(before.holds(last, m));
                            } else {
                                assert(before.holds(k, m));
                            }
                        }
                    }
                    assert forall|m: Seq<u8>| #[trigger]
                        self.view().contains_key(m) implies self.view()[m] == before.view().remove(
                        n,
                    )[m] by {
                        let k = choose|k: int| self.holds(k, m);
                        self.lemma_entry(k);
                        if k == i {
                            before.lemma_entry(last);
                        } else {
                            before.lemma_entry(k);
                        }
                    }
                    assert(self.view() =~= before.view().remove(n));
                }
            },
            None => {
                assert(self.view() =~= before.view().remove(name@));
            },
        }
    }
}

} // verus!
