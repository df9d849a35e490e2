//! The request/configuration arena: bump allocation, reclaimed in bulk.
use crate::allocator::{align_up, layout_of, lemma_align_positive, lemma_align_up, checked_align_up, dangling_for_layout, AllocError, Allocator, Block, Layout};
use vstd::arithmetic::power2::is_pow2;
use vstd::prelude::*;

verus! {

/// Natural alignment of the arena: requests aligned to at most this many
/// bytes are served from the bump region without further work.
pub const NGX_ALIGNMENT: usize = 8;

/// A bump arena of `capacity` bytes. Small blocks are never reclaimed one by
/// one; a large block (over `max` bytes, or over-aligned) that is the last
/// one carved gives its bytes back when it is freed.
#[derive(Debug)]
pub struct Pool {
    capacity: usize,
    top: usize,
    max: usize,
    live: usize,
}

impl Pool {
    pub closed spec fn spec_capacity(&self) -> nat {
        self.capacity as nat
    }

    /// First free address of the bump region.
    pub closed spec fn spec_top(&self) -> nat {
        self.top as nat
    }

    /// Largest size that counts as a small block.
    pub closed spec fn spec_max(&self) -> nat {
        self.max as nat
    }

    pub closed spec fn spec_live(&self) -> nat {
        self.live as nat
    }

    /// Whether a block of this layout is large: freed one by one.
    pub open spec fn is_large(&self, layout: Layout) -> bool {
        layout.size > self.spec_max() || layout.align > NGX_ALIGNMENT
    }

    /// An empty arena of `capacity` bytes whose small blocks are those of at
    /// most `max` bytes.
    pub fn new(capacity: usize, max: usize) -> (r: Pool)
        ensures
            r.wf(),
            r.spec_capacity() == capacity,
            r.spec_max() == max,
            r.spec_top() == 0,
            r.outstanding() == 0,
    {
        Pool { capacity, top: 0, max, live: 0 }
    }

    pub fn capacity(&self) -> (r: usize)
        ensures
            r == self.spec_capacity(),
    {
        self.capacity
    }

    /// Bytes of the region that are in use or lost to alignment.
    pub fn used(&self) -> (r: usize)
        ensures
            r == self.spec_top(),
    {
        self.top
    }

    /// Blocks handed out and not yet given back.
    pub fn outstanding_blocks(&self) -> (r: usize)
        requires
            self.wf(),
        ensures
            r == self.outstanding(),
    {
        self.live
    }

    /// Serves a request: a zero-sized one by the placeholder block, any
    /// other by the bytes at the first address from the top of the region
    /// that is aligned for it.
    pub fn alloc_block(&mut self, layout: Layout) -> (r: Result<Block, AllocError>)
        requires
            old(self).wf(),
            layout.wf(),
        ensures
            final(self).wf(),
            r is Ok <==> old(self).can_allocate(layout),
            final(self).spec_capacity() == old(self).spec_capacity(),
            final(self).spec_max() == old(self).spec_max(),
            match r {
                Ok(b) => {
                    &&& b.size == layout.size
                    &&& b.addr % layout.align == 0
                    &&& final(self).outstanding() == old(self).outstanding() + 1
                    &&& layout.size == 0 ==> b.addr == layout.align && final(self).spec_top()
                        == old(self).spec_top()
                    &&& layout.size > 0 ==> b.addr == align_up(
                        old(self).spec_top(),
                        layout.align as nat,
                    ) && final(self).spec_top() == b.addr + b.size
                },
                Err(_) => *final(self) == *old(self),
            },
    {
        proof {
            lemma_align_positive(layout);
        }
        if self.live == usize::MAX {
            return Err(AllocError);
        }
        if layout.size == 0 {
            self.live = self.live + 1;
            return Ok(dangling_for_layout(&layout));
        }
        let addr = match checked_align_up(self.top, layout.align) {
            Some(a) => a,
            None => return Err(AllocError),
        };
        proof {
            lemma_align_up(self.top as nat, layout.align as nat);
        }
        if addr > self.capacity || layout.size > self.capacity - addr {
            return Err(AllocError);
        }
        self.top = addr + layout.size;
        self.live = self.live + 1;
        Ok(Block { addr, size: layout.size })
    }

    /// Gives a block back. Only a large block that is the last one carved
    /// returns its bytes to the region; every other block stays in use
    /// until the whole arena goes.
    pub fn free_block(&mut self, block: Block, layout: Layout)
        requires
            old(self).wf(),
            layout.wf(),
            block.size == layout.size,
            old(self).outstanding() > 0,
        ensures
            final(self).wf(),
            final(self).outstanding() == old(self).outstanding() - 1,
            final(self).spec_capacity() == old(self).spec_capacity(),
            final(self).spec_max() == old(self).spec_max(),
            final(self).spec_top() == if layout.size > 0 && old(self).is_large(layout)
                && block.addr + block.size == old(self).spec_top() {
                block.addr as nat
            } else {
                old(self).spec_top()
            },
    {
        self.live = self.live - 1;
        if layout.size > 0 && (layout.size > self.max || layout.align > NGX_ALIGNMENT) {
            if block.addr <= self.top && self.top - block.addr == block.size {
                self.top = block.addr;
            }
        }
    }

    /// A block for a value of type `T`.
    pub fn alloc_type<T>(&mut self) -> (r: Result<Block, AllocError>)
        requires
            old(self).wf(),
        ensures
            final(self).wf(),
            r is Ok <==> old(self).can_allocate(layout_of::<T>()),
            match r {
                Ok(b) => {
                    &&& b.size == layout_of::<T>().size
                    &&& final(self).outstanding() == old(self).outstanding() + 1
                },
                Err(_) => *final(self) == *old(self),
            },
    {
        self.allocate(Layout::new::<T>())
    }

    /// A zero-filled block for a value of type `T`. Contents are not part
    /// of this model, so it is served as `alloc_type` serves it.
    pub fn calloc_type<T>(&mut self) -> (r: Result<Block, AllocError>)
        requires
            old(self).wf(),
        ensures
            final(self).wf(),
            r is Ok <==> old(self).can_allocate(layout_of::<T>()),
            match r {
                Ok(b) => {
                    &&& b.size == layout_of::<T>().size
                    &&& final(self).outstanding() == old(self).outstanding() + 1
                },
                Err(_) => *final(self) == *old(self),
            },
    {
        self.allocate(Layout::new::<T>())
    }

    /// A block for a value of type `T` at any address.
    pub fn alloc_type_unaligned<T>(&mut self) -> (r: Result<Block, AllocError>)
        requires
            old(self).wf(),
        ensures
            final(self).wf(),
            r is Ok <==> old(self).can_allocate(Layout { size: layout_of::<T>().size, align: 1 }),
            match r {
                Ok(b) => {
                    &&& b.size == layout_of::<T>().size
                    &&& final(self).outstanding() == old(self).outstanding() + 1
                },
                Err(_) => *final(self) == *old(self),
            },
    {
        let l = Layout::new::<T>();
        proof {
            reveal(is_pow2);
        }
        self.allocate(Layout { size: l.size, align: 1 })
    }
}

impl Allocator for Pool {
    open spec fn wf(&self) -> bool {
        &&& self.spec_top() <= self.spec_capacity()
    }

    closed spec fn outstanding(&self) -> nat {
        self.live as nat
    }

    open spec fn can_allocate(&self, layout: Layout) -> bool {
        &&& self.outstanding() < usize::MAX
        &&& (layout.size == 0 || align_up(self.spec_top(), layout.align as nat) + layout.size
            <= self.spec_capacity())
    }

    fn allocate(&mut self, layout: Layout) -> (r: Result<Block, AllocError>)
        ensures
            final(self).wf(),
            r is Ok <==> old(self).can_allocate(layout),
            final(self).spec_capacity() == old(self).spec_capacity(),
            final(self).spec_max() == old(self).spec_max(),
            match r {
                Ok(b) => {
                    &&& b.size == layout.size
                    &&& b.addr % layout.align == 0
                    &&& final(self).outstanding() == old(self).outstanding() + 1
                    &&& layout.size == 0 ==> b.addr == layout.align && final(self).spec_top()
                        == old(self).spec_top()
                    &&& layout.size > 0 ==> b.addr == align_up(
                        old(self).spec_top(),
                        layout.align as nat,
                    ) && final(self).spec_top() == b.addr + b.size
                },
                Err(_) => *final(self) == *old(self),
            },
    {
        self.alloc_block(layout)
    }

    fn deallocate(&mut self, block: Block, layout: Layout)
        ensures
            final(self).wf(),
            final(self).outstanding() == old(self).outstanding() - 1,
            final(self).spec_capacity() == old(self).spec_capacity(),
            final(self).spec_max() == old(self).spec_max(),
            final(self).spec_top() == if layout.size > 0 && old(self).is_large(layout)
                && block.addr + block.size == old(self).spec_top() {
                block.addr as nat
            } else {
                old(self).spec_top()
            },
    {
        self.free_block(block, layout)
    }
}

} // verus!
