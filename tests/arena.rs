use ngx::allocator::{grow, shrink, is_power_of_two, AllocError, Allocator, Block, Layout, LayoutError};
use ngx::arena::pool::Pool;
use ngx::arena::slab::{size_class, LockedSlabPool, SlabPool};

fn layout(size: usize, align: usize) -> Layout {
    Layout::from_size_align(size, align).unwrap()
}

#[test]
fn layouts() {
    assert_eq!(Layout::from_size_align(8, 3), Err(LayoutError));
    assert_eq!(Layout::from_size_align(usize::MAX, 1), Err(LayoutError));
    assert!(Layout::from_size_align(0, 1).is_ok());
    assert!(is_power_of_two(1) && is_power_of_two(64) && !is_power_of_two(0) && !is_power_of_two(12));
    let l = Layout::new::<u64>();
    assert_eq!((l.size, l.align), (8, std::mem::align_of::<u64>()));
}

#[test]
fn pool_bumps_and_aligns() {
    let mut p = Pool::new(64, 16);
    assert_eq!(p.allocate(layout(3, 1)), Ok(Block { addr: 0, size: 3 }));
    assert_eq!(p.allocate(layout(8, 8)), Ok(Block { addr: 8, size: 8 }));
    assert_eq!(p.used(), 16);
    assert_eq!(p.allocate(layout(0, 4)), Ok(Block { addr: 4, size: 0 }));
    assert_eq!(p.used(), 16);
    assert_eq!(p.allocate(layout(49, 1)), Err(AllocError));
    assert_eq!(p.used(), 16);
    assert_eq!(p.outstanding_blocks(), 3);
    p.deallocate(Block { addr: 0, size: 3 }, layout(3, 1));
    assert_eq!(p.used(), 16);
    assert_eq!(p.outstanding_blocks(), 2);
}

#[test]
fn pool_frees_last_large_block() {
    let mut p = Pool::new(256, 16);
    let b = p.allocate(layout(100, 8)).unwrap();
    assert_eq!(p.used(), 100);
    p.deallocate(b, layout(100, 8));
    assert_eq!(p.used(), 0);
    let small = p.allocate(layout(10, 8)).unwrap();
    p.deallocate(small, layout(10, 8));
    assert_eq!(p.used(), 10);
}

#[test]
fn pool_typed_blocks() {
    let mut p = Pool::new(64, 64);
    assert_eq!(p.alloc_type::<u32>().map(|b| b.size), Ok(4));
    assert_eq!(p.calloc_type::<u16>().map(|b| b.size), Ok(2));
    let b = p.alloc_type_unaligned::<u64>().unwrap();
    assert_eq!(b, Block { addr: 6, size: 8 });
    assert_eq!(p.outstanding_blocks(), 3);
}

#[test]
fn slab_size_classes() {
    assert_eq!(size_class(layout(1, 1)), Some(8));
    assert_eq!(size_class(layout(9, 1)), Some(16));
    assert_eq!(size_class(layout(3, 32)), Some(32));
    assert_eq!(size_class(layout(2048, 1)), Some(2048));
    assert_eq!(size_class(layout(2049, 1)), Some(4096));
    assert_eq!(size_class(layout(5000, 8)), Some(8192));
}

#[test]
fn slab_round_trip_reuses_the_block() {
    let mut s = SlabPool::new(64);
    let l = layout(20, 4);
    let a = s.allocate(l).unwrap();
    assert_eq!(a, Block { addr: 0, size: 20 });
    let b = s.allocate(l).unwrap();
    assert_eq!(b, Block { addr: 32, size: 20 });
    assert_eq!(s.allocate(l), Err(AllocError));
    s.deallocate(a, l);
    assert_eq!(s.outstanding_blocks(), 1);
    assert_eq!(s.allocate(l), Ok(a));
    assert_eq!(s.outstanding_blocks(), 2);
}

#[test]
fn slab_free_block_serves_only_its_class() {
    let mut s = LockedSlabPool::new(32);
    let a = s.alloc_block(layout(8, 8)).unwrap();
    s.free_block(a, layout(8, 8));
    assert_eq!(s.alloc_block(layout(16, 8)), Ok(Block { addr: 8, size: 16 }));
    assert_eq!(s.alloc_block(layout(5, 1)), Ok(Block { addr: 0, size: 5 }));
    assert_eq!(s.alloc_block(layout(0, 1)), Ok(Block { addr: 1, size: 0 }));
    assert_eq!(s.outstanding_blocks(), 3);
    let unlocked = s.unlock();
    let mut again = unlocked.lock();
    assert_eq!(again.alloc_block(layout(8, 1)), Ok(Block { addr: 24, size: 8 }));
    assert_eq!(again.alloc_block(layout(1, 1)), Err(AllocError));
}

#[test]
fn grow_and_shrink_move_the_block() {
    let mut s = SlabPool::new(256);
    let a = s.allocate(layout(8, 8)).unwrap();
    let b = grow(&mut s, a, layout(8, 8), layout(40, 8)).unwrap();
    assert_eq!(b, Block { addr: 8, size: 40 });
    assert_eq!(s.outstanding_blocks(), 1);
    let c = shrink(&mut s, b, layout(40, 8), layout(8, 8)).unwrap();
    assert_eq!(c, a);
    assert_eq!(s.outstanding_blocks(), 1);
    assert_eq!(grow(&mut s, c, layout(8, 8), layout(1000, 8)), Err(AllocError));
    assert_eq!(s.outstanding_blocks(), 1);
}
