//! The shared slab arena: size-classed blocks that are given back to a free
//! list, behind a mutual-exclusion flag kept in the region itself.
use crate::allocator::{
    align_up, checked_align_up, dangling_for_layout, lemma_align_positive, lemma_align_up,
    AllocError, Allocator, Block, Layout,
};
use vstd::prelude::*;

verus! {

/// Smallest size class.
pub const SLAB_MIN_SIZE: usize = 8;

/// Page size of the region; requests over half a page take whole pages.
pub const SLAB_PAGE_SIZE: usize = 4096;

/// The smallest power of two that is at least `s`, starting the search at `c`.
pub open spec fn pow2_class(c: nat, s: nat) -> nat
    decreases (if c >= s {
        0
    } else {
        s - c
    }),
{
    if c == 0 || c >= s {
        c
    } else {
        pow2_class(c * 2, s)
    }
}

/// The size class that serves a request: the larger of size and alignment,
/// rounded up to a power of two of at least the minimum size, or to whole
/// pages over half a page.
pub open spec fn class_size(layout: Layout) -> nat {
    let s: nat = if layout.size >= layout.align {
        layout.size as nat
    } else {
        layout.align as nat
    };
    if s <= SLAB_PAGE_SIZE / 2 {
        pow2_class(SLAB_MIN_SIZE as nat, s)
    } else {
        align_up(s, SLAB_PAGE_SIZE as nat)
    }
}

/// Whether a free block can serve a request.
pub open spec fn fits(b: Block, layout: Layout) -> bool {
    b.size == class_size(layout) && b.addr % layout.align == 0
}

/// Some free block can serve the request.
pub open spec fn has_fit(free: Seq<Block>, layout: Layout) -> bool {
    exists|i: int| 0 <= i < free.len() && fits(#[trigger] free[i], layout)
}

/// `i` is the first free block that can serve the request.
pub open spec fn is_first_fit(free: Seq<Block>, layout: Layout, i: int) -> bool {
    &&& 0 <= i < free.len()
    &&& fits(free[i], layout)
    &&& forall|j: int| 0 <= j < i ==> !fits(#[trigger] free[j], layout)
}

/// The size class of a request, or `None` where it does not fit in a `usize`.
pub fn size_class(layout: Layout) -> (r: Option<usize>)
    requires
        layout.wf(),
    ensures
        r matches Some(c) ==> c as nat == class_size(layout),
        r is None <==> class_size(layout) > usize::MAX,
{
    let s = if layout.size >= layout.align {
        layout.size
    } else {
        layout.align
    };
    if s <= SLAB_PAGE_SIZE / 2 {
        let mut c: usize = SLAB_MIN_SIZE;
        while c < s
            invariant
                SLAB_MIN_SIZE <= c <= 2 * SLAB_PAGE_SIZE,
                s <= SLAB_PAGE_SIZE / 2,
                pow2_class(c as nat, s as nat) == pow2_class(SLAB_MIN_SIZE as nat, s as nat),
            decreases 2 * SLAB_PAGE_SIZE - c,
        {
            c = c * 2;
        }
        Some(c)
    } else {
        checked_align_up(s, SLAB_PAGE_SIZE)
    }
}

/// The slab region under its mutex: the capacity of the region, the first
/// address never handed out, the free list and the count of blocks out.
#[derive(Debug)]
pub struct LockedSlabPool {
    capacity: usize,
    top: usize,
    free: Vec<Block>,
    live: usize,
}

/// The slab region with its mutex released. Every operation takes the mutex
/// for its own duration.
#[derive(Debug)]
pub struct SlabPool {
    region: LockedSlabPool,
}

impl LockedSlabPool {
    pub closed spec fn spec_capacity(&self) -> nat {
        self.capacity as nat
    }

    pub closed spec fn spec_top(&self) -> nat {
        self.top as nat
    }

    /// Blocks given back and ready to serve a request of their class.
    pub closed spec fn spec_free(&self) -> Seq<Block> {
        self.free@
    }

    /// A fresh region of `capacity` bytes under its mutex.
    pub fn new(capacity: usize) -> (r: LockedSlabPool)
        ensures
            r.wf(),
            r.spec_capacity() == capacity,
            r.spec_top() == 0,
            r.spec_free().len() == 0,
            r.outstanding() == 0,
    {
        LockedSlabPool { capacity, top: 0, free: Vec::new(), live: 0 }
    }

    /// Blocks handed out and not yet given back.
    pub fn outstanding_blocks(&self) -> (r: usize)
        ensures
            r == self.outstanding(),
    {
        self.live
    }

    /// Releases the mutex.
    pub fn unlock(self) -> (r: SlabPool)
        ensures
            r.region() == self,
    {
        SlabPool { region: self }
    }

    /// Index of the first free block that fits the request, if any.
    fn find_fit(&self, class: usize, align: usize) -> (r: Option<usize>)
        requires
            align > 0,
        ensures
            match r {
                Some(i) => {
                    &&& i < self.free@.len()
                    &&& self.free@[i as int].size == class
                    &&& self.free@[i as int].addr % align == 0
                    &&& forall|j: int|
                        0 <= j < i ==> !(self.free@[j].size == class && self.free@[j].addr % align
                            == 0)
                },
                None => forall|i: int|
                    0 <= i < self.free@.len() ==> !(self.free@[i].size == class
                        && self.free@[i].addr % align == 0),
            },
    {
        let mut i: usize = 0;
        while i < self.free.len()
            invariant
                i <= self.free@.len(),
                align > 0,
                forall|j: int|
                    0 <= j < i ==> !(self.free@[j].size == class && self.free@[j].addr % align
                        == 0),
            decreases self.free@.len() - i,
        {
            let b = self.free[i];
            if b.size == class && b.addr % align == 0 {
                return Some(i);
            }
            i = i + 1;
        }
        None
    }

    /// Serves a request from the free list where a block of its class and
    /// alignment is there, else from the untouched part of the region.
    pub fn alloc_block(&mut self, layout: Layout) -> (r: Result<Block, AllocError>)
        requires
            old(self).wf(),
            layout.wf(),
        ensures
            final(self).wf(),
            r is Ok <==> old(self).can_allocate(layout),
            final(self).spec_capacity() == old(self).spec_capacity(),
            match r {
                Ok(b) => {
                    &&& b.size == layout.size
                    &&& b.addr % layout.align == 0
                    &&& final(self).outstanding() == old(self).outstanding() + 1
                    &&& layout.size == 0 ==> {
                        &&& b.addr == layout.align
                        &&& final(self).spec_top() == old(self).spec_top()
                        &&& final(self).spec_free() == old(self).spec_free()
                    }
                    &&& layout.size > 0 && has_fit(old(self).spec_free(), layout) ==> exists|i: int|
                        {
                            &&& is_first_fit(old(self).spec_free(), layout, i)
                            &&& b.addr == old(self).spec_free()[i].addr
                            &&& final(self).spec_free() == old(self).spec_free().remove(i)
                            &&& final(self).spec_top() == old(self).spec_top()
                        }
                    &&& layout.size > 0 && !has_fit(old(self).spec_free(), layout) ==> {
                        &&& b.addr == align_up(old(self).spec_top(), layout.align as nat)
                        &&& final(self).spec_top() == b.addr + class_size(layout)
                        &&& final(self).spec_free() == old(self).spec_free()
                    }
                },
                Err(_) => *final(self) == *old(self),
            },
    {
        proof {
            lemma_align_positive(layout);
        }
        if self.live == usize::MAX {
            return Err(AllocError);
        }
        if layout.size == 0 {
            self.live = self.live + 1;
            return Ok(dangling_for_layout(&layout));
        }
        let class = match size_class(layout) {
            Some(c) => c,
            None => return Err(AllocError),
        };
        match self.find_fit(class, layout.align) {
            Some(i) => {
                assert(fits(self.spec_free()[i as int], layout));
                assert(is_first_fit(self.spec_free(), layout, i as int));
                let b = self.free.remove(i);
                self.live = self.live + 1;
                return Ok(Block { addr: b.addr, size: layout.size });
            },
            None => {
                assert(!has_fit(self.spec_free(), layout));
            },
        }
        let addr = match checked_align_up(self.top, layout.align) {
            Some(a) => a,
            None => return Err(AllocError),
        };
        proof {
            lemma_align_up(self.top as nat, layout.align as nat);
        }
        if addr > self.capacity || class > self.capacity - addr {
            return Err(AllocError);
        }
        self.top = addr + class;
        self.live = self.live + 1;
        Ok(Block { addr, size: layout.size })
    }

    /// Gives a block back to the free list of its class.
    pub fn free_block(&mut self, block: Block, layout: Layout)
        requires
            old(self).wf(),
            layout.wf(),
            block.size == layout.size,
            old(self).outstanding() > 0,
        ensures
            final(self).wf(),
            final(self).outstanding() == old(self).outstanding() - 1,
            final(self).spec_capacity() == old(self).spec_capacity(),
            final(self).spec_top() == old(self).spec_top(),
            layout.size == 0 || class_size(layout) > usize::MAX ==> final(self).spec_free()
                == old(self).spec_free(),
            layout.size > 0 && class_size(layout) <= usize::MAX ==> final(self).spec_free() == old(self).spec_free().push(
                Block { addr: block.addr, size: class_size(layout) as usize },
            ),
    {
        self.live = self.live - 1;
        if layout.size > 0 {
            let class = match size_class(layout) {
                Some(c) => c,
                None => {
                    return;
                },
            };
            self.free.push(Block { addr: block.addr, size: class });
        }
    }
}

impl Allocator for LockedSlabPool {
    open spec fn wf(&self) -> bool {
        self.spec_top() <= self.spec_capacity()
    }

    closed spec fn outstanding(&self) -> nat {
        self.live as nat
    }

    open spec fn can_allocate(&self, layout: Layout) -> bool {
        &&& self.outstanding() < usize::MAX
        &&& (layout.size == 0 || has_fit(self.spec_free(), layout) || align_up(self.spec_top(), layout.align as nat) + class_size(layout)
            <= self.spec_capacity())
    }

    fn allocate(&mut self, layout: Layout) -> (r: Result<Block, AllocError>)
        ensures
            final(self).wf(),
            r is Ok <==> old(self).can_allocate(layout),
            final(self).spec_capacity() == old(self).spec_capacity(),
            match r {
                Ok(b) => {
                    &&& b.size == layout.size
                    &&& b.addr % layout.align == 0
                    &&& final(self).outstanding() == old(self).outstanding() + 1
                    &&& layout.size == 0 ==> {
                        &&& b.addr == layout.align
                        &&& final(self).spec_top() == old(self).spec_top()
                        &&& final(self).spec_free() == old(self).spec_free()
                    }
                    &&& layout.size > 0 && has_fit(old(self).spec_free(), layout) ==> exists|i: int|
                        {
                            &&& is_first_fit(old(self).spec_free(), layout, i)
                            &&& b.addr == old(self).spec_free()[i].addr
                            &&& final(self).spec_free() == old(self).spec_free().remove(i)
                            &&& final(self).spec_top() == old(self).spec_top()
                        }
                    &&& layout.size > 0 && !has_fit(old(self).spec_free(), layout) ==> {
                        &&& b.addr == align_up(old(self).spec_top(), layout.align as nat)
                        &&& final(self).spec_top() == b.addr + class_size(layout)
                        &&& final(self).spec_free() == old(self).spec_free()
                    }
                },
                Err(_) => *final(self) == *old(self),
            },
    {
        self.alloc_block(layout)
    }

    fn deallocate(&mut self, block: Block, layout: Layout)
        ensures
            final(self).wf(),
            final(self).outstanding() == old(self).outstanding() - 1,
            final(self).spec_capacity() == old(self).spec_capacity(),
            final(self).spec_top() == old(self).spec_top(),
            layout.size == 0 || class_size(layout) > usize::MAX ==> final(self).spec_free()
                == old(self).spec_free(),
            layout.size > 0 && class_size(layout) <= usize::MAX ==> final(self).spec_free() == old(self).spec_free().push(
                Block { addr: block.addr, size: class_size(layout) as usize },
            ),
    {
        self.free_block(block, layout)
    }
}

impl SlabPool {
    /// The region's state.
    pub closed spec fn region(&self) -> LockedSlabPool {
        self.region
    }

    /// A fresh region of `capacity` bytes.
    pub fn new(capacity: usize) -> (r: SlabPool)
        ensures
            r.wf(),
            r.region().spec_capacity() == capacity,
            r.region().spec_top() == 0,
            r.region().spec_free().len() == 0,
            r.outstanding() == 0,
    {
        LockedSlabPool::new(capacity).unlock()
    }

    /// Takes the mutex; the region is reached through the result until it
    /// is unlocked again.
    pub fn lock(self) -> (r: LockedSlabPool)
        ensures
            r == self.region(),
    {
        self.region
    }

    /// Blocks handed out and not yet given back.
    pub fn outstanding_blocks(&self) -> (r: usize)
        ensures
            r == self.outstanding(),
    {
        self.region.outstanding_blocks()
    }
}

impl Allocator for SlabPool {
    open spec fn wf(&self) -> bool {
        self.region().wf()
    }

    open spec fn outstanding(&self) -> nat {
        self.region().outstanding()
    }

    open spec fn can_allocate(&self, layout: Layout) -> bool {
        self.region().can_allocate(layout)
    }

    fn allocate(&mut self, layout: Layout) -> (r: Result<Block, AllocError>)
        ensures
            final(self).wf(),
            r is Ok <==> old(self).can_allocate(layout),
            final(self).region().spec_capacity() == old(self).region().spec_capacity(),
            match r {
                Ok(b) => {
                    &&& b.size == layout.size
                    &&& b.addr % layout.align == 0
                    &&& final(self).outstanding() == old(self).outstanding() + 1
                    &&& layout.size == 0 ==> {
                        &&& b.addr == layout.align
                        &&& final(self).region().spec_top() == old(self).region().spec_top()
                        &&& final(self).region().spec_free() == old(self).region().spec_free()
                    }
                    &&& layout.size > 0 && has_fit(old(self).region().spec_free(), layout) ==> exists|i: int|
                        {
                            &&& is_first_fit(old(self).region().spec_free(), layout, i)
                            &&& b.addr == old(self).region().spec_free()[i].addr
                            &&& final(self).region().spec_free() == old(self).region().spec_free().remove(i)
                            &&& final(self).region().spec_top() == old(self).region().spec_top()
                        }
                    &&& layout.size > 0 && !has_fit(old(self).region().spec_free(), layout) ==> {
                        &&& b.addr == align_up(old(self).region().spec_top(), layout.align as nat)
                        &&& final(self).region().spec_top() == b.addr + class_size(layout)
                        &&& final(self).region().spec_free() == old(self).region().spec_free()
                    }
                },
                Err(_) => *final(self) == *old(self),
            },
    {
        self.region.alloc_block(layout)
    }

    fn deallocate(&mut self, block: Block, layout: Layout)
        ensures
            final(self).wf(),
            final(self).outstanding() == old(self).outstanding() - 1,
            final(self).region().spec_capacity() == old(self).region().spec_capacity(),
            final(self).region().spec_top() == old(self).region().spec_top(),
            layout.size == 0 || class_size(layout) > usize::MAX ==> final(self).region().spec_free()
                == old(self).region().spec_free(),
            layout.size > 0 && class_size(layout) <= usize::MAX ==> final(self).region().spec_free() == old(self).region().spec_free().push(
                Block { addr: block.addr, size: class_size(layout) as usize },
            ),
    {
        self.region.free_block(block, layout)
    }
}

/// A single allocation given back at once leaks nothing: where `allocate`
/// served `layout` from `before` with `block`, leaving `between`, and
/// `deallocate` then gave `block` back, leaving `after`, the slab serves the
/// same layout again. The requirements are what the two calls ensure.
pub proof fn lemma_slab_round_trip(
    before: LockedSlabPool,
    layout: Layout,
    block: Block,
    between: LockedSlabPool,
    after: LockedSlabPool,
)
    requires
        before.wf(),
        layout.wf(),
        before.can_allocate(layout),
        block.size == layout.size,
        block.addr % layout.align == 0,
        between.outstanding() == before.outstanding() + 1,
        after.outstanding() == between.outstanding() - 1,
        layout.size > 0 && class_size(layout) <= usize::MAX ==> after.spec_free()
            == between.spec_free().push(Block { addr: block.addr, size: class_size(layout) as usize }),
    ensures
        after.can_allocate(layout),
{
    if layout.size > 0 {
        if has_fit(before.spec_free(), layout) {
            let j = choose|j: int| 0 <= j < before.spec_free().len() && fits(#[trigger] before.spec_free()[j], layout);
            assert(before.spec_free()[j].size == class_size(layout));
        }
        let i = between.spec_free().len() as int;
        assert(fits(after.spec_free()[i], layout));
    }
}

} // verus!
