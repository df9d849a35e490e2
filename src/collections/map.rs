//! An ordered map from byte strings to values whose every entry is a block
//! of its arena.
use crate::allocator::{layout_of, AllocError, Allocator, Block, Layout};
use crate::collections::ordering::{
    compare_bytes, lemma_lex_irreflexive, lemma_lex_transitive, lex_lt,
};
use std::cmp::Ordering;
use vstd::prelude::*;

verus! {

/// An entry: its key, its value, and the block of the arena that holds it.
pub struct MapEntry<V> {
    key: Vec<u8>,
    value: V,
    block: Block,
}

impl<V> MapEntry<V> {
    /// Moves the key and the value out of the entry.
    pub fn into_kv(self) -> (r: (Vec<u8>, V))
        ensures
            r.0@ == self.spec_key(),
            r.1 == self.spec_value(),
    {
        (self.key, self.value)
    }

    pub closed spec fn spec_key(&self) -> Seq<u8> {
        self.key@
    }

    pub closed spec fn spec_value(&self) -> V {
        self.value
    }
}

/// The layout of an entry holding a value of type `V`.
pub open spec fn entry_layout<V>() -> Layout {
    layout_of::<MapEntry<V>>()
}

/// The sentinel that the map carves from its arena when it is made.
pub struct MapSentinel {
    pub left: usize,
    pub right: usize,
    pub parent: usize,
}

/// The layout of the sentinel.
pub open spec fn sentinel_layout() -> Layout {
    layout_of::<MapSentinel>()
}

/// A map that owns its entries, kept in strictly increasing order of their
/// keys, each in a block allocated from `A`. Lookups bisect the entries.
pub struct RbTreeMap<V, A: Allocator> {
    entries: Vec<MapEntry<V>>,
    sentinel: Block,
    alloc: A,
}

/// Strictly increasing keys.
pub open spec fn sorted(keys: Seq<Seq<u8>>) -> bool {
    forall|i: int, j: int| 0 <= i < j < keys.len() ==> lex_lt(#[trigger] keys[i], #[trigger] keys[j])
}

impl<V, A: Allocator> View for RbTreeMap<V, A> {
    type V = Map<Seq<u8>, V>;

    /// Each key with its value.
    closed spec fn view(&self) -> Map<Seq<u8>, V> {
        Map::new(
            |k: Seq<u8>| self.keys().contains(k),
            |k: Seq<u8>| self.entries@[self.keys().index_of(k)].value,
        )
    }
}

impl<V, A: Allocator> RbTreeMap<V, A> {
    /// The keys in the map's order.
    pub closed spec fn keys(&self) -> Seq<Seq<u8>> {
        self.entries@.map_values(|e: MapEntry<V>| e.key@)
    }

    /// The values in the map's order.
    pub closed spec fn values(&self) -> Seq<V> {
        self.entries@.map_values(|e: MapEntry<V>| e.value)
    }

    /// The arena that the entries come from.
    pub closed spec fn spec_allocator(&self) -> A {
        self.alloc
    }

    /// The arena holds the sentinel and one block per entry, and the keys
    /// increase strictly.
    pub closed spec fn wf(&self) -> bool {
        &&& self.alloc.wf()
        &&& self.alloc.outstanding() >= self.entries@.len() + 1
        &&& self.sentinel.size == sentinel_layout().size
        &&& sorted(self.keys())
        &&& forall|i: int|
            0 <= i < self.entries@.len() ==> (#[trigger] self.entries@[i]).block.size
                == entry_layout::<V>().size
    }

    /// The `i`th key maps to the `i`th value.
    pub proof fn lemma_view_at(&self, i: int)
        requires
            self.wf(),
            0 <= i < self.keys().len(),
        ensures
            self@.contains_key(self.keys()[i]),
            self@[self.keys()[i]] == self.values()[i],
    {
        let k = self.keys()[i];
        assert(self.keys().contains(k));
        let j = self.keys().index_of(k);
        if j < i {
            assert(lex_lt(self.keys()[j], self.keys()[i]));
            lemma_lex_irreflexive(k);
        } else if j > i {
            assert(lex_lt(self.keys()[i], self.keys()[j]));
            lemma_lex_irreflexive(k);
        }
    }

    /// The entries are the map: each key of an entry maps to its value, every
    /// key of the map is the key of an entry, and the keys increase strictly,
    /// so each entry is met once in their order.
    pub proof fn lemma_entries(&self)
        requires
            self.wf(),
        ensures
            self.keys().len() == self.values().len(),
            self@.len() == self.keys().len(),
            sorted(self.keys()),
            forall|i: int|
                0 <= i < self.keys().len() ==> self@.contains_key(#[trigger] self.keys()[i])
                    && self@[self.keys()[i]] == self.values()[i],
            forall|k: Seq<u8>|
                #[trigger] self@.contains_key(k) ==> exists|i: int|
                    0 <= i < self.keys().len() && self.keys()[i] == k,
    {
        self.lemma_len();
        assert forall|i: int| 0 <= i < self.keys().len() implies self@.contains_key(
            #[trigger] self.keys()[i],
        ) && self@[self.keys()[i]] == self.values()[i] by {
            self.lemma_view_at(i);
        }
    }

    /// A key that is not among the entries is not in the map.
    proof fn lemma_absent(&self, key: Seq<u8>, p: int)
        requires
            self.wf(),
            0 <= p <= self.entries@.len(),
            forall|i: int| 0 <= i < p ==> lex_lt(#[trigger] self.keys()[i], key),
            forall|i: int| p <= i < self.entries@.len() ==> lex_lt(key, #[trigger] self.keys()[i]),
        ensures
            !self@.contains_key(key),
    {
        if self.keys().contains(key) {
            let i = choose|i: int| 0 <= i < self.keys().len() && self.keys()[i] == key;
            lemma_lex_irreflexive(key);
        }
    }

    /// The map has one key per entry.
    pub proof fn lemma_len(&self)
        requires
            self.wf(),
        ensures
            self@.dom().finite(),
            self@.len() == self.keys().len(),
    {
        let keys = self.keys();
        assert(keys.no_duplicates()) by {
            assert forall|i: int, j: int|
                0 <= i < keys.len() && 0 <= j < keys.len() && i != j implies keys[i] != keys[j] by {
                lemma_lex_irreflexive(keys[i]);
                if i < j {
                    assert(lex_lt(keys[i], keys[j]));
                } else {
                    assert(lex_lt(keys[j], keys[i]));
                }
            }
        }
        keys.unique_seq_to_set();
        vstd::seq_lib::seq_to_set_is_finite(keys);
        assert(self@.dom() =~= keys.to_set());
    }

    /// Entries that agree with another map's but for one new key at `p`
    /// make that map with the key added.
    proof fn lemma_inserted(old: &Self, new: &Self, p: int, k: Seq<u8>, v: V)
        requires
            old.wf(),
            new.wf(),
            0 <= p <= old.entries@.len(),
            new.keys() == old.keys().insert(p, k),
            new.values() == old.values().insert(p, v),
            !old@.contains_key(k),
        ensures
            new@ == old@.insert(k, v),
    {
        assert forall|key: Seq<u8>| #[trigger] new@.contains_key(key) implies old@.insert(
            k,
            v,
        ).contains_key(key) && new@[key] == old@.insert(k, v)[key] by {
            let i = choose|i: int| 0 <= i < new.keys().len() && new.keys()[i] == key;
            new.lemma_view_at(i);
            if i < p {
                old.lemma_view_at(i);
            } else if i > p {
                old.lemma_view_at(i - 1);
            }
        }
        assert forall|key: Seq<u8>| #[trigger] old@.insert(k, v).contains_key(key) implies new@.contains_key(
            key,
        ) by {
            if key == k {
                new.lemma_view_at(p);
            } else {
                let j = choose|j: int| 0 <= j < old.keys().len() && old.keys()[j] == key;
                if j < p {
                    new.lemma_view_at(j);
                } else {
                    new.lemma_view_at(j + 1);
                }
            }
        }
        assert(new@ =~= old@.insert(k, v));
    }

    /// Entries that agree with another map's but for the value at `i` make
    /// that map with the key at `i` mapped to the new value.
    proof fn lemma_replaced(old: &Self, new: &Self, i: int, v: V)
        requires
            old.wf(),
            new.wf(),
            0 <= i < old.entries@.len(),
            new.keys() == old.keys(),
            new.values() == old.values().update(i, v),
        ensures
            new@ == old@.insert(old.keys()[i], v),
    {
        let k = old.keys()[i];
        assert forall|key: Seq<u8>| #[trigger] new@.contains_key(key) implies old@.insert(
            k,
            v,
        ).contains_key(key) && new@[key] == old@.insert(k, v)[key] by {
            let j = choose|j: int| 0 <= j < new.keys().len() && new.keys()[j] == key;
            new.lemma_view_at(j);
            old.lemma_view_at(j);
            old.lemma_view_at(i);
        }
        assert forall|key: Seq<u8>| #[trigger] old@.insert(k, v).contains_key(key) implies new@.contains_key(
            key,
        ) by {
            if key == k {
                new.lemma_view_at(i);
            } else {
                let j = choose|j: int| 0 <= j < old.keys().len() && old.keys()[j] == key;
                new.lemma_view_at(j);
            }
        }
        assert(new@ =~= old@.insert(k, v));
    }

    /// Entries that agree with another map's but for the one removed at `i`
    /// make that map without the key at `i`.
    proof fn lemma_removed(old: &Self, new: &Self, i: int)
        requires
            old.wf(),
            new.wf(),
            0 <= i < old.entries@.len(),
            new.keys() == old.keys().remove(i),
            new.values() == old.values().remove(i),
        ensures
            new@ == old@.remove(old.keys()[i]),
    {
        let k = old.keys()[i];
        assert forall|key: Seq<u8>| #[trigger] new@.contains_key(key) implies old@.remove(
            k,
        ).contains_key(key) && new@[key] == old@.remove(k)[key] by {
            let j = choose|j: int| 0 <= j < new.keys().len() && new.keys()[j] == key;
            new.lemma_view_at(j);
            lemma_lex_irreflexive(k);
            if j < i {
                old.lemma_view_at(j);
                assert(lex_lt(old.keys()[j], old.keys()[i]));
            } else {
                old.lemma_view_at(j + 1);
                assert(lex_lt(old.keys()[i], old.keys()[j + 1]));
            }
        }
        assert forall|key: Seq<u8>| #[trigger] old@.remove(k).contains_key(key) implies new@.contains_key(
            key,
        ) by {
            let j = choose|j: int| 0 <= j < old.keys().len() && old.keys()[j] == key;
            if j < i {
                new.lemma_view_at(j);
            } else if j > i {
                new.lemma_view_at(j - 1);
            }
        }
        assert(new@ =~= old@.remove(k));
    }

    /// An empty map over `alloc`; fails where the arena cannot hold the
    /// sentinel.
    pub fn try_new_in(alloc: A) -> (r: Result<Self, AllocError>)
        requires
            alloc.wf(),
        ensures
            r is Ok <==> alloc.can_allocate(sentinel_layout()),
            r matches Ok(m) ==> {
                &&& m.wf()
                &&& m@ == Map::<Seq<u8>, V>::empty()
                &&& m.spec_allocator().outstanding() == alloc.outstanding() + 1
            },
    {
        let mut alloc = alloc;
        match alloc.allocate(Layout::new::<MapSentinel>()) {
            Ok(sentinel) => {
                let r = RbTreeMap { entries: Vec::new(), sentinel, alloc };
                assert(r@ =~= Map::<Seq<u8>, V>::empty());
                Ok(r)
            },
            Err(e) => Err(e),
        }
    }

    pub fn allocator(&self) -> (r: &A)
        ensures
            *r == self.spec_allocator(),
    {
        &self.alloc
    }

    pub fn is_empty(&self) -> (r: bool)
        requires
            self.wf(),
        ensures
            r == (self@ == Map::<Seq<u8>, V>::empty()),
    {
        proof {
            if self.entries@.len() > 0 {
                self.lemma_view_at(0);
            } else {
                assert(self@ =~= Map::<Seq<u8>, V>::empty());
            }
        }
        self.entries.len() == 0
    }

    /// Bisects the entries for `key`: its index, or the index where it
    /// would stand.
    fn lookup(&self, key: &[u8]) -> (r: Result<usize, usize>)
        requires
            self.wf(),
        ensures
            match r {
                Ok(i) => i < self.entries@.len() && self.keys()[i as int] == key@,
                Err(p) => {
                    &&& p <= self.entries@.len()
                    &&& forall|i: int| 0 <= i < p ==> lex_lt(#[trigger] self.keys()[i], key@)
                    &&& forall|i: int|
                        p <= i < self.entries@.len() ==> lex_lt(key@, #[trigger] self.keys()[i])
                },
            },
    {
        let mut lo: usize = 0;
        let mut hi: usize = self.entries.len();
        while lo < hi
            invariant
                self.wf(),
                lo <= hi <= self.entries@.len(),
                forall|i: int| 0 <= i < lo ==> lex_lt(#[trigger] self.keys()[i], key@),
                forall|i: int| hi <= i < self.entries@.len() ==> lex_lt(key@, #[trigger] self.keys()[i]),
            decreases hi - lo,
        {
            let mid = lo + (hi - lo) / 2;
            let c = compare_bytes(self.entries[mid].key.as_slice(), key);
            let ghost km = self.keys()[mid as int];
            match c {
                Ordering::Equal => {
                    return Ok(mid);
                },
                Ordering::Less => {
                    proof {
                        assert forall|i: int| 0 <= i <= mid implies lex_lt(
                            #[trigger] self.keys()[i],
                            key@,
                        ) by {
                            if i < mid {
                                lemma_lex_transitive(self.keys()[i], km, key@);
                            }
                        }
                    }
                    lo = mid + 1;
                },
                Ordering::Greater => {
                    proof {
                        assert forall|i: int| mid <= i < self.entries@.len() implies lex_lt(
                            key@,
                            #[trigger] self.keys()[i],
                        ) by {
                            if i > mid {
                                lemma_lex_transitive(key@, km, self.keys()[i]);
                            }
                        }
                    }
                    hi = mid;
                },
            }
        }
        Err(lo)
    }
}

impl<V, A: Allocator> RbTreeMap<V, A> {
    /// The value of `key`, if the map holds it.
    pub fn get(&self, key: &[u8]) -> (r: Option<&V>)
        requires
            self.wf(),
        ensures
            self@.contains_key(key@) ==> r == Some(&self@[key@]),
            !self@.contains_key(key@) ==> r is None,
    {
        match self.lookup(key) {
            Ok(i) => {
                proof {
                    self.lemma_view_at(i as int);
                }
                Some(&self.entries[i].value)
            },
            Err(p) => {
                proof {
                    self.lemma_absent(key@, p as int);
                }
                None
            },
        }
    }

    /// Maps `key` to `value`. A key already there keeps its entry and takes
    /// the new value; a new key takes a new block of the arena, and where the
    /// arena cannot give it the map is unchanged and the error is returned.
    /// `m2` is `pre` with the value of the `i`th entry replaced by `v`.
    spec fn replaced(pre: Self, i: int, m2: Self, v: V) -> bool {
        &&& m2.entries@ == pre.entries@.update(
            i,
            MapEntry { key: pre.entries@[i].key, value: v, block: pre.entries@[i].block },
        )
        &&& m2.alloc == pre.alloc
        &&& m2.sentinel == pre.sentinel
    }

    /// Whatever value the `i`th entry comes to hold, the map stays well
    /// formed and maps its key to that value.
    proof fn lemma_replace_any(&self, i: int)
        requires
            self.wf(),
            0 <= i < self.keys().len(),
        ensures
            forall|m2: Self, v: V|
                #[trigger] Self::replaced(*self, i, m2, v) ==> m2.wf() && m2@ == self@.insert(
                    self.keys()[i],
                    v,
                ) && m2.alloc == self.alloc,
    {
        assert forall|m2: Self, v: V| #[trigger] Self::replaced(*self, i, m2, v) implies m2.wf()
            && m2@ == self@.insert(self.keys()[i], v) && m2.alloc == self.alloc by {
            assert(m2.keys() =~= self.keys());
            assert(m2.values() =~= self.values().update(i, v));
            assert forall|j: int| 0 <= j < m2.entries@.len() implies (
            #[trigger] m2.entries@[j]).block.size == entry_layout::<V>().size by {
                assert(j != i ==> m2.entries@[j] == self.entries@[j]);
            }
            Self::lemma_replaced(self, &m2, i, v);
        }
    }

    /// The value of `key`, to change in place, if the map holds it.
    pub fn get_mut(&mut self, key: &[u8]) -> (r: Option<&mut V>)
        requires
            old(self).wf(),
        ensures
            final(self).wf(),
            final(self).spec_allocator() == old(self).spec_allocator(),
            old(self)@.contains_key(key@) ==> {
                &&& r is Some
                &&& *r.unwrap() == old(self)@[key@]
                &&& final(self)@ == old(self)@.insert(key@, *final(r.unwrap()))
            },
            !old(self)@.contains_key(key@) ==> r is None && *final(self) == *old(self),
    {
        match self.lookup(key) {
            Ok(i) => {
                proof {
                    self.lemma_view_at(i as int);
                    self.lemma_replace_any(i as int);
                }
                Some(self.value_mut(i))
            },
            Err(p) => {
                proof {
                    self.lemma_absent(key@, p as int);
                }
                None
            },
        }
    }

    /// The `i`th value, to change in place.
    fn value_mut(&mut self, i: usize) -> (r: &mut V)
        requires
            i < old(self).entries@.len(),
        ensures
            *r == old(self).entries@[i as int].value,
            Self::replaced(*old(self), i as int, *final(self), *final(r)),
    {
        &mut self.entries[i].value
    }

    pub fn try_insert(&mut self, key: Vec<u8>, value: V) -> (r: Result<&mut V, AllocError>)
        requires
            old(self).wf(),
        ensures
            r is Ok ==> *r.unwrap() == value && final(self)@ == old(self)@.insert(
                key@,
                *final(r.unwrap()),
            ),
            final(self).wf(),
            r is Ok <==> (old(self)@.contains_key(key@) || old(self).spec_allocator().can_allocate(
                entry_layout::<V>(),
            )),
            r is Ok && old(self)@.contains_key(key@) ==> final(self).spec_allocator().outstanding()
                == old(self).spec_allocator().outstanding(),
            r is Ok && !old(self)@.contains_key(key@) ==> final(self).spec_allocator().outstanding()
                == old(self).spec_allocator().outstanding() + 1,
            r is Err ==> *final(self) == *old(self),
    {
        let ghost pre = *self;
        match self.lookup(key.as_slice()) {
            Ok(i) => {
                proof {
                    self.lemma_view_at(i as int);
                }
                let e = self.entries.remove(i);
                self.entries.insert(i, MapEntry { key: e.key, value, block: e.block });
                proof {
                    assert(self.keys() =~= pre.keys());
                    assert(self.values() =~= pre.values().update(i as int, value));
                    assert forall|j: int| 0 <= j < self.entries@.len() implies (
                    #[trigger] self.entries@[j]).block.size == entry_layout::<V>().size by {
                        assert(j != i ==> self.entries@[j] == pre.entries@[j]);
                    }
                    Self::lemma_replaced(&pre, self, i as int, value);
                    self.lemma_view_at(i as int);
                    self.lemma_replace_any(i as int);
                }
                Ok(self.value_mut(i))
            },
            Err(p) => {
                proof {
                    self.lemma_absent(key@, p as int);
                }
                match self.alloc.allocate(Layout::new::<MapEntry<V>>()) {
                    Ok(block) => {
                        let ghost k = key@;
                        self.entries.insert(p, MapEntry { key, value, block });
                        proof {
                            assert(self.keys() =~= pre.keys().insert(p as int, k));
                            assert(self.values() =~= pre.values().insert(p as int, value));
                            assert forall|a: int, b: int|
                                0 <= a < b < self.keys().len() implies lex_lt(
                                #[trigger] self.keys()[a],
                                #[trigger] self.keys()[b],
                            ) by {
                                if b < p {
                                } else if a < p && b == p {
                                } else if a < p {
                                    assert(self.keys()[b] == pre.keys()[b - 1]);
                                } else if a == p {
                                    assert(self.keys()[b] == pre.keys()[b - 1]);
                                } else {
                                    assert(self.keys()[a] == pre.keys()[a - 1]);
                                    assert(self.keys()[b] == pre.keys()[b - 1]);
                                }
                            }
                            assert forall|j: int| 0 <= j < self.entries@.len() implies (
                            #[trigger] self.entries@[j]).block.size == entry_layout::<V>().size by {
                                if j > p {
                                    assert(self.entries@[j] == pre.entries@[j - 1]);
                                }
                            }
                            Self::lemma_inserted(&pre, self, p as int, k, value);
                            self.lemma_view_at(p as int);
                            self.lemma_replace_any(p as int);
                        }
                        Ok(self.value_mut(p))
                    },
                    Err(e) => Err(e),
                }
            },
        }
    }

    /// Takes `key` and its value out of the map and gives the entry's block
    /// back to the arena; `None`, with the map unchanged, where the key is
    /// not there.
    pub fn remove_entry(&mut self, key: &[u8]) -> (r: Option<(Vec<u8>, V)>)
        requires
            old(self).wf(),
        ensures
            final(self).wf(),
            old(self)@.contains_key(key@) ==> {
                &&& r matches Some((k, v)) && k@ == key@ && v == old(self)@[key@]
                &&& final(self)@ == old(self)@.remove(key@)
                &&& final(self).spec_allocator().outstanding()
                    == old(self).spec_allocator().outstanding() - 1
            },
            !old(self)@.contains_key(key@) ==> r is None && *final(self) == *old(self),
    {
        let ghost pre = *self;
        match self.lookup(key) {
            Ok(i) => {
                proof {
                    self.lemma_view_at(i as int);
                }
                let e = self.entries.remove(i);
                self.alloc.deallocate(e.block, Layout::new::<MapEntry<V>>());
                proof {
                    assert(self.keys() =~= pre.keys().remove(i as int));
                    assert(self.values() =~= pre.values().remove(i as int));
                    assert forall|a: int, b: int|
                        0 <= a < b < self.keys().len() implies lex_lt(
                        #[trigger] self.keys()[a],
                        #[trigger] self.keys()[b],
                    ) by {
                        if a >= i {
                            assert(self.keys()[a] == pre.keys()[a + 1]);
                        }
                        if b >= i {
                            assert(self.keys()[b] == pre.keys()[b + 1]);
                        }
                    }
                    assert forall|j: int| 0 <= j < self.entries@.len() implies (
                    #[trigger] self.entries@[j]).block.size == entry_layout::<V>().size by {
                        if j >= i {
                            assert(self.entries@[j] == pre.entries@[j + 1]);
                        }
                    }
                    Self::lemma_removed(&pre, self, i as int);
                }
                Some(e.into_kv())
            },
            Err(p) => {
                proof {
                    self.lemma_absent(key@, p as int);
                }
                None
            },
        }
    }

    /// Takes `key` out of the map and returns its value; `None`, with the
    /// map unchanged, where the key is not there.
    pub fn remove(&mut self, key: &[u8]) -> (r: Option<V>)
        requires
            old(self).wf(),
        ensures
            final(self).wf(),
            old(self)@.contains_key(key@) ==> r == Some(old(self)@[key@]) && final(self)@ == old(self)@.remove(key@) && final(self).spec_allocator().outstanding()
                == old(self).spec_allocator().outstanding() - 1,
            !old(self)@.contains_key(key@) ==> r is None && *final(self) == *old(self),
    {
        match self.remove_entry(key) {
            Some((_, v)) => Some(v),
            None => None,
        }
    }

    /// Removes every entry and gives each block back to the arena; the map
    /// is then empty and can be used again.
    pub fn clear(&mut self)
        requires
            old(self).wf(),
        ensures
            final(self).wf(),
            final(self)@ == Map::<Seq<u8>, V>::empty(),
            final(self).spec_allocator().outstanding() == old(self).spec_allocator().outstanding()
                - old(self)@.len(),
    {
        proof {
            self.lemma_len();
        }
        let ghost n = self.entries@.len();
        while self.entries.len() > 0
            invariant
                self.wf(),
                self.spec_allocator().outstanding() + n == old(self).spec_allocator().outstanding()
                    + self.entries@.len(),
            decreases self.entries@.len(),
        {
            let ghost pre = *self;
            let e = self.entries.pop().unwrap();
            self.alloc.deallocate(e.block, Layout::new::<MapEntry<V>>());
            proof {
                assert forall|a: int, b: int|
                    0 <= a < b < self.keys().len() implies lex_lt(
                    #[trigger] self.keys()[a],
                    #[trigger] self.keys()[b],
                ) by {
                    assert(self.keys()[a] == pre.keys()[a]);
                    assert(self.keys()[b] == pre.keys()[b]);
                }
                assert forall|j: int| 0 <= j < self.entries@.len() implies (
                #[trigger] self.entries@[j]).block.size == entry_layout::<V>().size by {
                    assert(self.entries@[j] == pre.entries@[j]);
                }
            }
        }
        assert(self@ =~= Map::<Seq<u8>, V>::empty());
    }

    /// Removes every entry, gives the sentinel back too, and returns the
    /// arena.
    pub fn into_allocator(self) -> (r: A)
        requires
            self.wf(),
        ensures
            r.wf(),
            r.outstanding() == self.spec_allocator().outstanding() - self@.len() - 1,
    {
        let mut m = self;
        m.clear();
        let sentinel = m.sentinel;
        let mut alloc = m.alloc;
        alloc.deallocate(sentinel, Layout::new::<MapSentinel>());
        alloc
    }

    /// A walk over the entries in increasing order of their keys.
    pub fn iter(&self) -> (r: MapIter<'_, V, A>)
        ensures
            r.map() == self,
            r.pos() == 0,
    {
        MapIter::new(self)
    }
}

/// After any sequence of inserts and removals a key maps to the value most
/// recently inserted for it, or to nothing after it was removed or where it
/// was never inserted: an insert sets its key and keeps every other key as
/// it was, and a removal clears its key and keeps every other key as it was.
/// The empty map that `clear` leaves is the one that `try_new_in` makes, so a
/// cleared map goes on from where a new one starts.
pub proof fn lemma_map_last_write_wins<V>(m: Map<Seq<u8>, V>, k: Seq<u8>, v: V, other: Seq<u8>)
    requires
        other != k,
    ensures
        m.insert(k, v).contains_key(k),
        m.insert(k, v)[k] == v,
        m.insert(k, v).contains_key(other) == m.contains_key(other),
        m.contains_key(other) ==> m.insert(k, v)[other] == m[other],
        !m.remove(k).contains_key(k),
        m.remove(k).contains_key(other) == m.contains_key(other),
        m.contains_key(other) ==> m.remove(k)[other] == m[other],
        !Map::<Seq<u8>, V>::empty().contains_key(k),
{
}

/// A walk over a map's entries in increasing order of their keys.
pub struct MapIter<'a, V, A: Allocator> {
    map: &'a RbTreeMap<V, A>,
    pos: usize,
}

impl<'a, V, A: Allocator> MapIter<'a, V, A> {
    pub closed spec fn map(&self) -> &'a RbTreeMap<V, A> {
        self.map
    }

    /// How many entries were handed out.
    pub closed spec fn pos(&self) -> nat {
        self.pos as nat
    }

    pub fn new(map: &'a RbTreeMap<V, A>) -> (r: Self)
        ensures
            r.map() == map,
            r.pos() == 0,
    {
        MapIter { map, pos: 0 }
    }

    /// The next key and value, or `None` once every entry was handed out.
    pub fn next(&mut self) -> (r: Option<(&'a [u8], &'a V)>)
        requires
            old(self).map().wf(),
        ensures
            final(self).map() == old(self).map(),
            old(self).pos() < old(self).map().keys().len() ==> {
                &&& r matches Some((k, v))
                &&& old(self).map()@.contains_key(r.unwrap().0@)
                &&& old(self).map()@[r.unwrap().0@] == *r.unwrap().1
                &&& r.unwrap().0@ == old(self).map().keys()[old(self).pos() as int]
                &&& *r.unwrap().1 == old(self).map().values()[old(self).pos() as int]
                &&& final(self).pos() == old(self).pos() + 1
            },
            old(self).pos() >= old(self).map().keys().len() ==> r is None && final(self).pos()
                == old(self).pos(),
    {
        if self.pos < self.map.entries.len() {
            proof {
                self.map.lemma_view_at(self.pos as int);
            }
            let e = &self.map.entries[self.pos];
            self.pos = self.pos + 1;
            Some((e.key.as_slice(), &e.value))
        } else {
            None
        }
    }
}

} // verus!
