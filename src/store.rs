//! The shared store: an ordered map from byte strings to byte strings,
//! allocated from a slab region and guarded by the region's reader/writer
//! lock. Every operation takes the lock once and releases it before it
//! returns.
use crate::allocator::{AllocError, Allocator};
use crate::arena::slab::SlabPool;
use crate::allocator::{lemma_align_positive, Layout};
use crate::arena::slab::class_size;
use crate::collections::map::{entry_layout, sentinel_layout, MapSentinel, RbTreeMap};
use crate::sync::RwLock;
use vstd::prelude::*;

verus! {

/// Whether a slab region of `capacity` bytes that serves nothing yet can
/// serve a request.
pub open spec fn fresh_slab_serves(capacity: nat, layout: Layout) -> bool {
    layout.size == 0 || class_size(layout) <= capacity
}

/// A copy of a byte string.
pub fn copy_bytes(b: &[u8]) -> (r: Vec<u8>)
    ensures
        r@ == b@,
{
    let mut out: Vec<u8> = Vec::new();
    let mut i: usize = 0;
    while i < b.len()
        invariant
            i <= b@.len(),
            out@ == b@.subrange(0, i as int),
        decreases b@.len() - i,
    {
        out.push(b[i]);
        proof {
            assert(out@ =~= b@.subrange(0, i + 1));
        }
        i = i + 1;
    }
    assert(out@ =~= b@);
    out
}

/// The map and its lock, both in the slab region.
pub struct SharedStore {
    lock: RwLock<RbTreeMap<Vec<u8>, SlabPool>>,
}

impl SharedStore {
    /// The map as it stands between operations.
    pub closed spec fn map(&self) -> RbTreeMap<Vec<u8>, SlabPool> {
        self.lock.value()
    }

    /// The lock is free between operations and the map is well formed.
    pub closed spec fn wf(&self) -> bool {
        &&& self.lock.word() == 0
        &&& self.lock.value().wf()
    }

    /// An empty store over a fresh slab region of `capacity` bytes; fails
    /// where the region cannot hold the map's sentinel.
    pub fn try_new(capacity: usize) -> (r: Result<SharedStore, AllocError>)
        ensures
            r is Ok <==> fresh_slab_serves(capacity as nat, sentinel_layout()),
            r matches Ok(s) ==> {
                &&& s.wf()
                &&& s.map()@ == Map::<Seq<u8>, Vec<u8>>::empty()
                &&& s.map().spec_allocator().outstanding() == 1
            },
    {
        let slab = SlabPool::new(capacity);
        let layout = Layout::new::<MapSentinel>();
        proof {
            lemma_align_positive(layout);
        }
        match RbTreeMap::try_new_in(slab) {
            Ok(map) => Ok(SharedStore { lock: RwLock::new(map) }),
            Err(e) => Err(e),
        }
    }

    /// Maps `key` to `value` under the writer's hold; where the region
    /// cannot hold a new entry the store is unchanged and the error is
    /// returned.
    pub fn insert(&mut self, key: Vec<u8>, value: Vec<u8>) -> (r: Result<(), AllocError>)
        requires
            old(self).wf(),
        ensures
            final(self).wf(),
            r is Ok <==> (old(self).map()@.contains_key(key@) || old(self).map().spec_allocator().can_allocate(entry_layout::<Vec<u8>>())),
            r is Ok ==> final(self).map()@ == old(self).map()@.insert(key@, value),
            r is Err ==> final(self).map() == old(self).map(),
    {
        let got = self.lock.try_lock_exclusive();
        assert(got);
        let map = self.lock.data_mut();
        let r = match map.try_insert(key, value) {
            Ok(_) => Ok(()),
            Err(e) => Err(e),
        };
        self.lock.unlock_exclusive();
        r
    }

    /// A copy of the value of `key`, read under a reader's hold.
    pub fn get(&mut self, key: &[u8]) -> (r: Option<Vec<u8>>)
        requires
            old(self).wf(),
        ensures
            final(self).wf(),
            final(self).map() == old(self).map(),
            old(self).map()@.contains_key(key@) ==> r is Some && r.unwrap()@ == old(self).map()@[key@]@,
            !old(self).map()@.contains_key(key@) ==> r is None,
    {
        let got = self.lock.try_lock_shared();
        assert(got);
        let r = match self.lock.data().get(key) {
            Some(v) => Some(copy_bytes(v.as_slice())),
            None => None,
        };
        self.lock.unlock_shared();
        r
    }

    /// Takes `key` out under the writer's hold and returns its value.
    pub fn remove(&mut self, key: &[u8]) -> (r: Option<Vec<u8>>)
        requires
            old(self).wf(),
        ensures
            final(self).wf(),
            old(self).map()@.contains_key(key@) ==> r == Some(old(self).map()@[key@]) && final(self).map()@ == old(self).map()@.remove(key@),
            !old(self).map()@.contains_key(key@) ==> r is None && final(self).map() == old(self).map(),
    {
        let got = self.lock.try_lock_exclusive();
        assert(got);
        let map = self.lock.data_mut();
        let r = map.remove(key);
        self.lock.unlock_exclusive();
        r
    }

    /// Removes every entry under the writer's hold.
    pub fn clear(&mut self)
        requires
            old(self).wf(),
        ensures
            final(self).wf(),
            final(self).map()@ == Map::<Seq<u8>, Vec<u8>>::empty(),
            final(self).map().spec_allocator().outstanding() == old(self).map().spec_allocator().outstanding() - old(self).map()@.len(),
    {
        let got = self.lock.try_lock_exclusive();
        assert(got);
        let map = self.lock.data_mut();
        map.clear();
        self.lock.unlock_exclusive();
    }

    /// Whether the store is empty, read under a reader's hold.
    pub fn is_empty(&mut self) -> (r: bool)
        requires
            old(self).wf(),
        ensures
            final(self).wf(),
            final(self).map() == old(self).map(),
            r == (old(self).map()@ == Map::<Seq<u8>, Vec<u8>>::empty()),
    {
        let got = self.lock.try_lock_shared();
        assert(got);
        let r = self.lock.data().is_empty();
        self.lock.unlock_shared();
        r
    }
}

/// The shared store's life in one run: into an empty store go `a` mapped to
/// `va` and `b` mapped to `vb`; a reader then finds `va` under `a`; after `a`
/// is removed it is absent while `b` keeps `vb`; after `clear` the store is
/// empty. Each step is what `insert`, `get`, `remove` and `clear` ensure.
pub proof fn lemma_store_scenario<V>(a: Seq<u8>, b: Seq<u8>, va: V, vb: V)
    requires
        a != b,
    ensures
        ({
            let filled = Map::<Seq<u8>, V>::empty().insert(a, va).insert(b, vb);
            let removed = filled.remove(a);
            &&& filled.contains_key(a) && filled[a] == va
            &&& !removed.contains_key(a)
            &&& removed.contains_key(b) && removed[b] == vb
            &&& Map::<Seq<u8>, V>::empty().dom().len() == 0
        }),
{
    let filled = Map::<Seq<u8>, V>::empty().insert(a, va).insert(b, vb);
    assert(filled.remove(a).contains_key(b));
    assert(Map::<Seq<u8>, V>::empty().dom() =~= Set::<Seq<u8>>::empty());
}

/// A shared memory zone whose initializer may run once per configuration
/// reload; the store in it is built on the first run only.
pub struct SharedZone {
    capacity: usize,
    store: Option<SharedStore>,
}

impl SharedZone {
    pub closed spec fn spec_store(&self) -> Option<SharedStore> {
        self.store
    }

    pub closed spec fn spec_capacity(&self) -> nat {
        self.capacity as nat
    }

    /// A built zone holds a well-formed store.
    pub closed spec fn wf(&self) -> bool {
        self.store matches Some(s) ==> s.wf()
    }

    /// A zone of `capacity` bytes with nothing built in it yet.
    pub fn new(capacity: usize) -> (r: SharedZone)
        ensures
            r.wf(),
            r.spec_store() is None,
            r.spec_capacity() == capacity,
    {
        SharedZone { capacity, store: None }
    }

    pub fn is_built(&self) -> (r: bool)
        ensures
            r == self.spec_store() is Some,
    {
        self.store.is_some()
    }

    /// The initializer: builds an empty store on the first run and leaves
    /// the zone as it is on every later one. Returns whether it built, or
    /// the error where the region cannot hold the store.
    pub fn init(&mut self) -> (r: Result<bool, AllocError>)
        requires
            old(self).wf(),
        ensures
            final(self).wf(),
            final(self).spec_capacity() == old(self).spec_capacity(),
            old(self).spec_store() is Some ==> r == Ok::<bool, AllocError>(false) && *final(self)
                == *old(self),
            old(self).spec_store() is None ==> {
                &&& r is Ok <==> fresh_slab_serves(old(self).spec_capacity(), sentinel_layout())
                &&& r is Ok ==> r == Ok::<bool, AllocError>(true) && (final(self).spec_store() matches Some(s)
                    && s.map()@ == Map::<Seq<u8>, Vec<u8>>::empty())
                &&& r is Err ==> *final(self) == *old(self)
            },
    {
        if self.store.is_some() {
            return Ok(false);
        }
        match SharedStore::try_new(self.capacity) {
            Ok(s) => {
                self.store = Some(s);
                Ok(true)
            },
            Err(e) => Err(e),
        }
    }

    /// The store of a built zone.
    pub fn store(&mut self) -> (r: &mut SharedStore)
        requires
            old(self).wf(),
            old(self).spec_store() is Some,
        ensures
            *r == old(self).spec_store().unwrap(),
            r.wf(),
            final(self).spec_store() == Some(*final(r)),
            final(self).spec_capacity() == old(self).spec_capacity(),
    {
        self.store.as_mut().unwrap()
    }
}

} // verus!
