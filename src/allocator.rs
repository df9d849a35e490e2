//! The allocator capability: sized, aligned requests served by an arena.
use vstd::arithmetic::power2::is_pow2;
use vstd::layout::valid_layout;
use vstd::prelude::*;

verus! {

/// Size and alignment of a memory request.
#[derive(Clone, Copy, Debug, PartialEq, Eq)]
pub struct Layout {
    pub size: usize,
    pub align: usize,
}

/// A layout was asked for with an alignment that is not a power of two, or
/// a size that would overflow once rounded up to the alignment.
#[derive(Clone, Copy, Debug, PartialEq, Eq)]
pub struct LayoutError;

/// The arena could not serve a request.
#[derive(Clone, Copy, Debug, PartialEq, Eq)]
pub struct AllocError;

/// A block handed out by an arena: its start address within the arena and
/// its length in bytes.
#[derive(Clone, Copy, Debug, PartialEq, Eq)]
pub struct Block {
    pub addr: usize,
    pub size: usize,
}

impl Layout {
    pub open spec fn wf(self) -> bool {
        valid_layout(self.size, self.align)
    }

    /// Builds a layout, refusing an alignment that is not a power of two or a
    /// size that does not fit once rounded up to the alignment.
    pub fn from_size_align(size: usize, align: usize) -> (r: Result<Layout, LayoutError>)
        ensures
            r is Ok <==> valid_layout(size, align),
            r matches Ok(l) ==> l.size == size && l.align == align,
    {
        if !is_power_of_two(align) {
            return Err(LayoutError);
        }
        proof {
            reveal(is_pow2);
        }
        let max: usize = isize::MAX as usize;
        assert(max % align <= max) by (nonlinear_arith)
            requires
                align > 0,
        ;
        if size > max - max % align {
            return Err(LayoutError);
        }
        Ok(Layout { size, align })
    }

    /// The layout of a value of type `T`.
    pub fn new<T>() -> (r: Layout)
        ensures
            r.wf(),
            r == layout_of::<T>(),
    {
        vstd::layout::layout_for_type_is_valid::<T>();
        Layout { size: core::mem::size_of::<T>(), align: core::mem::align_of::<T>() }
    }
}

/// The layout of a value of type `T`.
pub open spec fn layout_of<T>() -> Layout {
    Layout {
        size: vstd::layout::size_of::<T>() as usize,
        align: vstd::layout::align_of::<T>() as usize,
    }
}

/// A valid layout has a positive alignment.
pub proof fn lemma_align_positive(layout: Layout)
    requires
        layout.wf(),
    ensures
        layout.align > 0,
{
    reveal(is_pow2);
}

/// Whether `n` is a power of two.
pub fn is_power_of_two(n: usize) -> (r: bool)
    ensures
        r == is_pow2(n as int),
{
    reveal(is_pow2);
    if n == 0 {
        return false;
    }
    let mut m: usize = n;
    while m > 1
        invariant
            m >= 1,
            is_pow2(n as int) == is_pow2(m as int),
        decreases m,
    {
        proof {
            reveal(is_pow2);
        }
        if m % 2 == 1 {
            return false;
        }
        m = m / 2;
    }
    true
}

/// `x` rounded up to the next multiple of `a`.
pub open spec fn align_up(x: nat, a: nat) -> nat
    recommends
        a > 0,
{
    if x % a == 0 {
        x
    } else {
        x + (a - x % a) as nat
    }
}

/// Rounding up gives a multiple of `a` that is at least `x` and less than
/// `x + a`.
pub proof fn lemma_align_up(x: nat, a: nat)
    requires
        a > 0,
    ensures
        align_up(x, a) % a == 0,
        x <= align_up(x, a) < x + a,
{
    if x % a != 0 {
        let q = x / a;
        vstd::arithmetic::div_mod::lemma_fundamental_div_mod(x as int, a as int);
        let r = x % a;
        assert(x + (a - r) == (q + 1) * a) by (nonlinear_arith)
            requires
                x == a * q + r,
        ;
        vstd::arithmetic::div_mod::lemma_mod_multiples_basic((q + 1) as int, a as int);
    }
}

/// `x` rounded up to a multiple of `a`, or `None` where that overflows.
pub fn checked_align_up(x: usize, a: usize) -> (r: Option<usize>)
    requires
        a > 0,
    ensures
        r matches Some(v) ==> v as nat == align_up(x as nat, a as nat),
        r is None <==> align_up(x as nat, a as nat) > usize::MAX,
{
    let rem = x % a;
    if rem == 0 {
        Some(x)
    } else {
        x.checked_add(a - rem)
    }
}

/// The placeholder block of a zero-sized request: the address equal to the
/// alignment, which is aligned and never handed out by an arena for data.
pub fn dangling_for_layout(layout: &Layout) -> (r: Block)
    ensures
        r.addr == layout.align,
        r.size == 0,
{
    Block { addr: layout.align, size: 0 }
}

/// A memory source. An arena counts the blocks that it has handed out and
/// that were not yet given back; a zero-sized request is served by a
/// placeholder and counted like any other block.
pub trait Allocator: Sized {
    /// The arena's internal invariant.
    spec fn wf(&self) -> bool;

    /// Blocks handed out and not yet given back.
    spec fn outstanding(&self) -> nat;

    /// Whether a request with this layout is served in the current state.
    spec fn can_allocate(&self, layout: Layout) -> bool;

    /// Serves a request: a block of exactly `layout.size` bytes at an address
    /// aligned to `layout.align`, or `AllocError` with the arena unchanged.
    fn allocate(&mut self, layout: Layout) -> (r: Result<Block, AllocError>)
        requires
            old(self).wf(),
            layout.wf(),
        ensures
            final(self).wf(),
            r is Ok <==> old(self).can_allocate(layout),
            match r {
                Ok(b) => {
                    &&& b.size == layout.size
                    &&& b.addr % layout.align == 0
                    &&& final(self).outstanding() == old(self).outstanding() + 1
                },
                Err(_) => *final(self) == *old(self),
            },
    ;

    /// Gives back a block that was handed out for `layout`.
    fn deallocate(&mut self, block: Block, layout: Layout)
        requires
            old(self).wf(),
            layout.wf(),
            block.size == layout.size,
            old(self).outstanding() > 0,
        ensures
            final(self).wf(),
            final(self).outstanding() == old(self).outstanding() - 1,
    ;
}

/// Moves a block to one of another layout: a new block is taken and, once
/// it is there, the old one is given back. Where the arena cannot serve the
/// new layout it is unchanged and the old block stays valid.
fn relocate<A: Allocator>(alloc: &mut A, block: Block, old_layout: Layout, new_layout: Layout) -> (r:
    Result<Block, AllocError>)
    requires
        old(alloc).wf(),
        old_layout.wf(),
        new_layout.wf(),
        block.size == old_layout.size,
        old(alloc).outstanding() > 0,
    ensures
        final(alloc).wf(),
        r is Ok <==> old(alloc).can_allocate(new_layout),
        match r {
            Ok(b) => {
                &&& b.size == new_layout.size
                &&& b.addr % new_layout.align == 0
                &&& final(alloc).outstanding() == old(alloc).outstanding()
            },
            Err(_) => *final(alloc) == *old(alloc),
        },
{
    match alloc.allocate(new_layout) {
        Ok(b) => {
            alloc.deallocate(block, old_layout);
            Ok(b)
        },
        Err(e) => Err(e),
    }
}

/// Moves a block to a layout at least as large.
pub fn grow<A: Allocator>(alloc: &mut A, block: Block, old_layout: Layout, new_layout: Layout) -> (r:
    Result<Block, AllocError>)
    requires
        old(alloc).wf(),
        old_layout.wf(),
        new_layout.wf(),
        new_layout.size >= old_layout.size,
        block.size == old_layout.size,
        old(alloc).outstanding() > 0,
    ensures
        final(alloc).wf(),
        r is Ok <==> old(alloc).can_allocate(new_layout),
        match r {
            Ok(b) => {
                &&& b.size == new_layout.size
                &&& b.addr % new_layout.align == 0
                &&& final(alloc).outstanding() == old(alloc).outstanding()
            },
            Err(_) => *final(alloc) == *old(alloc),
        },
{
    relocate(alloc, block, old_layout, new_layout)
}

/// Moves a block to a layout at most as large.
pub fn shrink<A: Allocator>(alloc: &mut A, block: Block, old_layout: Layout, new_layout: Layout) -> (r:
    Result<Block, AllocError>)
    requires
        old(alloc).wf(),
        old_layout.wf(),
        new_layout.wf(),
        new_layout.size <= old_layout.size,
        block.size == old_layout.size,
        old(alloc).outstanding() > 0,
    ensures
        final(alloc).wf(),
        r is Ok <==> old(alloc).can_allocate(new_layout),
        match r {
            Ok(b) => {
                &&& b.size == new_layout.size
                &&& b.addr % new_layout.align == 0
                &&& final(alloc).outstanding() == old(alloc).outstanding()
            },
            Err(_) => *final(alloc) == *old(alloc),
        },
{
    relocate(alloc, block, old_layout, new_layout)
}

} // verus!
