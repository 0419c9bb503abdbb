//! Ordered maps keyed by paths.
//!
//! Entries are kept in path order without duplicates, so a map iterates the
//! same way whatever the order in which its keys came in.
use vstd::prelude::*;

use crate::paths::{lemma_path_less_irreflexive, lemma_path_less_total, lemma_path_less_transitive,
    path_less, FsPath, Part};
use crate::text::Order;

verus! {

/// One key with its value.
#[derive(Debug)]
struct Entry<V> {
    key: FsPath,
    value: V,
}

/// Map from paths to `V`, iterated in path order.
#[derive(Debug)]
pub struct PathMap<V: View> {
    entries: Vec<Box<Entry<V>>>,
}

/// Strictly increasing in the path order.
pub open spec fn strictly_ordered(keys: Seq<Seq<Part>>) -> bool {
    forall|i: int, j: int|
        0 <= i < j < keys.len() ==> path_less(#[trigger] keys[i], #[trigger] keys[j])
}

pub proof fn lemma_ordered_no_duplicates(keys: Seq<Seq<Part>>)
    requires
        strictly_ordered(keys),
    ensures
        keys.no_duplicates(),
{
    assert forall|i: int, j: int| 0 <= i < keys.len() && 0 <= j < keys.len() && i != j implies keys[i]
        != keys[j] by {
        lemma_path_less_irreflexive(keys[i]);
        if i < j {
            assert(path_less(keys[i], keys[j]));
        } else {
            assert(path_less(keys[j], keys[i]));
        }
    }
}

impl<V: View> PathMap<V> {
    /// The keys in path order.
    pub closed spec fn keys(&self) -> Seq<Seq<Part>> {
        self.entries@.map_values(|e: Box<Entry<V>>| e.key@)
    }

    /// The value of key number `i`.
    pub closed spec fn nth(&self, i: int) -> V {
        self.entries@[i].value
    }

    spec fn values(&self) -> Seq<V::V> {
        self.entries@.map_values(|e: Box<Entry<V>>| e.value@)
    }

    /// Keys are strictly ordered.
    #[verifier::type_invariant]
    pub closed spec fn wf(&self) -> bool {
        strictly_ordered(self.keys())
    }
}

impl<V: View> View for PathMap<V> {
    type V = Map<Seq<Part>, V::V>;

    closed spec fn view(&self) -> Map<Seq<Part>, V::V> {
        Map::new(
            |p: Seq<Part>| self.keys().contains(p),
            |p: Seq<Part>| self.values()[self.keys().index_of(p)],
        )
    }
}

impl<V: View> PathMap<V> {
    /// What the entries say of the view.
    pub proof fn lemma_entries(&self)
        requires
            self.wf(),
        ensures
            strictly_ordered(self.keys()),
            self.keys().no_duplicates(),
            self@.dom() == self.keys().to_set(),
            self@.dom().finite(),
            self@.dom().len() == self.keys().len(),
    {
        lemma_ordered_no_duplicates(self.keys());
        assert(self@.dom() =~= self.keys().to_set());
        self.keys().unique_seq_to_set();
    }

    proof fn lemma_at(&self, i: int)
        requires
            self.wf(),
            0 <= i < self.entries@.len(),
        ensures
            self.keys()[i] == self.entries@[i].key@,
            self@.contains_key(self.entries@[i].key@),
            self@[self.entries@[i].key@] == self.entries@[i].value@,
    {
        self.lemma_entries();
        let k = self.keys()[i];
        assert(self.keys().contains(k));
        let j = self.keys().index_of(k);
        assert(self.keys()[j] == k);
        assert(i == j);
        assert(self.values()[i] == self.entries@[i].value@);
    }

    /// A map without entries.
    pub fn new() -> (r: PathMap<V>)
        ensures
            r@ == Map::<Seq<Part>, V::V>::empty(),
    {
        let r = PathMap { entries: Vec::new() };
        assert(r@ =~= Map::<Seq<Part>, V::V>::empty());
        r
    }

    /// Number of entries.
    pub fn len(&self) -> (r: usize)
        ensures
            r as nat == self@.dom().len(),
            r as nat == self.keys().len(),
            self@.dom().finite(),
    {
        proof {
            use_type_invariant(self);
            self.lemma_entries();
        }
        self.entries.len()
    }

    /// Key number `i` in path order.
    pub fn key_at(&self, i: usize) -> (r: &FsPath)
        requires
            i < self.keys().len(),
        ensures
            r@ == self.keys()[i as int],
            self@.contains_key(r@),
    {
        proof {
            use_type_invariant(self);
            self.lemma_at(i as int);
        }
        &self.entries[i].key
    }

    /// Value of key number `i`.
    pub fn value_at(&self, i: usize) -> (r: &V)
        requires
            i < self.keys().len(),
        ensures
            self@.contains_key(self.keys()[i as int]),
            r@ == self@[self.keys()[i as int]],
            *r == self.nth(i as int),
    {
        proof {
            use_type_invariant(self);
            self.lemma_at(i as int);
        }
        &self.entries[i].value
    }

    /// First index whose key is not before `key`, and whether it is `key`.
    fn search(&self, key: &FsPath) -> (r: (usize, bool))
        ensures
            r.0 <= self.entries@.len(),
            forall|i: int| 0 <= i < r.0 ==> path_less(#[trigger] self.keys()[i], key@),
            r.1 ==> r.0 < self.entries@.len() && self.keys()[r.0 as int] == key@,
            !r.1 ==> forall|i: int|
                r.0 <= i < self.entries@.len() ==> path_less(key@, #[trigger] self.keys()[i]),
            r.1 == self@.contains_key(key@),
    {
        let mut lo: usize = 0;
        let mut hi: usize = self.entries.len();
        proof {
            use_type_invariant(self);
            self.lemma_entries();
        }
        while lo < hi
            invariant
                self.wf(),
                strictly_ordered(self.keys()),
                0 <= lo <= hi <= self.entries@.len(),
                self.keys().len() == self.entries@.len(),
                forall|i: int| 0 <= i < lo ==> path_less(#[trigger] self.keys()[i], key@),
                forall|i: int| hi <= i < self.entries@.len() ==> path_less(key@, #[trigger] self.keys()[i]),
            decreases hi - lo,
        {
            let mid: usize = lo + (hi - lo) / 2;
            assert(self.keys()[mid as int] == self.entries@[mid as int].key@);
            match self.entries[mid].key.order(key) {
                Order::Equal => {
                    proof {
                        self.lemma_at(mid as int);
                        assert forall|i: int| 0 <= i < mid implies path_less(
                            #[trigger] self.keys()[i],
                            key@,
                        ) by {
                            assert(path_less(self.keys()[i], self.keys()[mid as int]));
                        }
                    }
                    return (mid, true);
                },
                Order::Less => {
                    proof {
                        assert forall|i: int| 0 <= i < mid + 1 implies path_less(
                            #[trigger] self.keys()[i],
                            key@,
                        ) by {
                            if i < mid {
                                lemma_path_less_transitive(
                                    self.keys()[i],
                                    self.keys()[mid as int],
                                    key@,
                                );
                            }
                        }
                    }
                    lo = mid + 1;
                },
                Order::Greater => {
                    proof {
                        lemma_path_less_total(self.keys()[mid as int], key@);
                        assert forall|i: int| mid <= i < self.entries@.len() implies path_less(
                            key@,
                            #[trigger] self.keys()[i],
                        ) by {
                            if i > mid {
                                lemma_path_less_transitive(
                                    key@,
                                    self.keys()[mid as int],
                                    self.keys()[i],
                                );
                            }
                        }
                    }
                    hi = mid;
                },
            }
        }
        proof {
            if self@.contains_key(key@) {
                let i = self.keys().index_of(key@);
                assert(self.keys()[i] == key@);
                lemma_path_less_irreflexive(key@);
                assert(false);
            }
        }
        (lo, false)
    }

    /// Value of `key`, if the map has it.
    pub fn get(&self, key: &FsPath) -> (r: Option<&V>)
        ensures
            match r {
                Some(v) => self@.contains_key(key@) && v@ == self@[key@],
                None => !self@.contains_key(key@),
            },
    {
        let (i, found) = self.search(key);
        if found {
            proof {
                use_type_invariant(self);
                self.lemma_at(i as int);
            }
            Some(&self.entries[i].value)
        } else {
            None
        }
    }

    /// Whether the map has `key`.
    pub fn contains(&self, key: &FsPath) -> (r: bool)
        ensures
            r == self@.contains_key(key@),
    {
        self.search(key).1
    }

    /// Sets the value of `key`.
    pub fn insert(&mut self, key: FsPath, value: V)
        ensures
            final(self)@ == old(self)@.insert(key@, value@),
    {
        proof {
            use_type_invariant(&*self);
        }
        let (i, found) = self.search(&key);
        let ghost before = *self;
        let mut entries: Vec<Box<Entry<V>>> = Vec::new();
        std::mem::swap(&mut entries, &mut self.entries);
        let ghost k = key@;
        let entry = Box::new(Entry { key, value });
        if found {
            entries.set(i, entry);
            let ghost after = PathMap { entries };
            proof {
                assert(after.keys() =~= before.keys());
                assert forall|p: Seq<Part>| after@.contains_key(p) implies after@[p]
                    == before@.insert(k, value@)[p] by {
                    let j = after.keys().index_of(p);
                    assert(after.keys()[j] == p);
                    after.lemma_at(j);
                    if j == i {
                        assert(p == k);
                    } else {
                        before.lemma_at(j);
                        before.lemma_entries();
                    }
                }
                assert(before.keys().contains(k));
                assert(after@ =~= before@.insert(k, value@));
            }
            self.entries = entries;
        } else {
            entries.insert(i, entry);
            let ghost after = PathMap { entries };
            proof {
                assert(after.keys() =~= before.keys().insert(i as int, k));
                assert forall|a: int, b: int| 0 <= a < b < after.keys().len() implies path_less(
                    #[trigger] after.keys()[a],
                    #[trigger] after.keys()[b],
                ) by {
                    let x = if a < i { a } else { a - 1 };
                    let y = if b < i { b } else { b - 1 };
                    if a != i && b != i {
                        assert(path_less(before.keys()[x], before.keys()[y]));
                    }
                }
                assert(after.wf());
                assert forall|p: Seq<Part>|
                    after@.contains_key(p) <==> before@.insert(k, value@).contains_key(p) by {
                    if after.keys().contains(p) {
                        let j = after.keys().index_of(p);
                        assert(after.keys()[j] == p);
                        if j < i {
                            assert(before.keys()[j] == p);
                        } else if j > i {
                            assert(before.keys()[j - 1] == p);
                        }
                    }
                    if before.keys().contains(p) {
                        let j = before.keys().index_of(p);
                        assert(before.keys()[j] == p);
                        if j < i {
                            assert(after.keys()[j] == p);
                        } else {
                            assert(after.keys()[j + 1] == p);
                        }
                    }
                    if p == k {
                        assert(after.keys()[i as int] == p);
                    }
                }
                assert forall|p: Seq<Part>| after@.contains_key(p) implies after@[p]
                    == before@.insert(k, value@)[p] by {
                    let j = after.keys().index_of(p);
                    assert(after.keys()[j] == p);
                    after.lemma_at(j);
                    if j < i {
                        before.lemma_at(j);
                        before.lemma_entries();
                        lemma_path_less_irreflexive(k);
                    } else if j > i {
                        before.lemma_at(j - 1);
                        before.lemma_entries();
                        lemma_path_less_irreflexive(k);
                    }
                }
                assert(after@ =~= before@.insert(k, value@));
            }
            self.entries = entries;
        }
    }

    /// Takes out entry number `i` in path order.
    pub fn remove_at(&mut self, i: usize) -> (r: (FsPath, V))
        requires
            i < old(self).keys().len(),
        ensures
            final(self).keys() == old(self).keys().remove(i as int),
            r.0@ == old(self).keys()[i as int],
            old(self)@.contains_key(r.0@),
            r.1@ == old(self)@[r.0@],
            r.1 == old(self).nth(i as int),
            final(self)@ == old(self)@.remove(r.0@),
    {
        let ghost before = *self;
        let ghost k = self.keys()[i as int];
        proof {
            use_type_invariant(&*self);
            self.lemma_at(i as int);
            self.lemma_entries();
        }
        let mut entries: Vec<Box<Entry<V>>> = Vec::new();
        std::mem::swap(&mut entries, &mut self.entries);
        let entry = entries.remove(i);
        let ghost after = PathMap { entries };
        proof {
            assert(after.keys() =~= before.keys().remove(i as int));
            assert forall|a: int, b: int| 0 <= a < b < after.keys().len() implies path_less(
                #[trigger] after.keys()[a],
                #[trigger] after.keys()[b],
            ) by {
                let x = if a < i { a } else { a + 1 };
                let y = if b < i { b } else { b + 1 };
                assert(path_less(before.keys()[x], before.keys()[y]));
            }
            assert forall|p: Seq<Part>|
                after@.contains_key(p) <==> before@.remove(k).contains_key(p) by {
                if after.keys().contains(p) {
                    let j = after.keys().index_of(p);
                    assert(after.keys()[j] == p);
                    let x = if j < i { j } else { j + 1 };
                    assert(before.keys()[x] == p);
                    assert(x != i);
                }
                if before.keys().contains(p) && p != k {
                    let j = before.keys().index_of(p);
                    assert(before.keys()[j] == p);
                    if j < i {
                        assert(after.keys()[j] == p);
                    } else {
                        assert(after.keys()[j - 1] == p);
                    }
                }
            }
            assert forall|p: Seq<Part>| after@.contains_key(p) implies after@[p] == before@.remove(
                k,
            )[p] by {
                let j = after.keys().index_of(p);
                assert(after.keys()[j] == p);
                after.lemma_at(j);
                let x = if j < i { j } else { j + 1 };
                before.lemma_at(x);
            }
            assert(after@ =~= before@.remove(k));
        }
        self.entries = entries;
        let Entry { key, value } = *entry;
        (key, value)
    }

    /// Takes out the entry of `key`.
    pub fn remove(&mut self, key: &FsPath) -> (r: Option<V>)
        ensures
            final(self)@ == old(self)@.remove(key@),
            match r {
                Some(v) => old(self)@.contains_key(key@) && v@ == old(self)@[key@],
                None => !old(self)@.contains_key(key@),
            },
    {
        let (i, found) = self.search(key);
        if found {
            Some(self.remove_at(i).1)
        } else {
            assert(self@ =~= self@.remove(key@));
            None
        }
    }
}

} // verus!
