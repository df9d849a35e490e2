use ngx::allocator::{AllocError, Allocator};
use ngx::arena::pool::Pool;
use ngx::arena::slab::SlabPool;
use ngx::collections::map::RbTreeMap;
use ngx::collections::ordering::compare_bytes;
use ngx::collections::queue::Queue;
use std::cmp::Ordering;

fn items<A: Allocator>(q: &Queue<i32, A>) -> Vec<i32> {
    let mut out = Vec::new();
    let mut it = q.iter();
    while let Some(x) = it.next() {
        out.push(*x);
    }
    out
}

#[test]
fn queue_push_pop_both_ends() {
    let mut q = Queue::try_new_in(Pool::new(4096, 4096)).unwrap();
    assert!(q.is_empty());
    q.push_back(2).unwrap();
    q.push_front(1).unwrap();
    q.push_back(3).unwrap();
    assert_eq!(q.len(), 3);
    assert_eq!(items(&q), vec![1, 2, 3]);
    assert_eq!(q.get(1), Some(&2));
    assert_eq!(q.get(3), None);
    assert_eq!(q.pop_front(), Some(1));
    assert_eq!(q.pop_back(), Some(3));
    assert_eq!(q.pop_back(), Some(2));
    assert_eq!(q.pop_back(), None);
    assert_eq!(q.pop_front(), None);
    assert_eq!(q.len(), 0);
}

#[test]
fn queue_len_tracks_items_over_a_sequence() {
    let mut q = Queue::try_new_in(SlabPool::new(1 << 16)).unwrap();
    let mut model: std::collections::VecDeque<i32> = std::collections::VecDeque::new();
    for i in 0..200 {
        match i % 5 {
            0 | 3 => {
                q.push_back(i).unwrap();
                model.push_back(i);
            }
            1 => {
                q.push_front(i).unwrap();
                model.push_front(i);
            }
            2 => assert_eq!(q.pop_front(), model.pop_front()),
            _ => assert_eq!(q.pop_back(), model.pop_back()),
        }
        assert_eq!(q.len(), model.len());
        assert_eq!(items(&q), model.iter().copied().collect::<Vec<_>>());
    }
    let blocks = q.len() + 1;
    assert_eq!(q.allocator().outstanding_blocks(), blocks);
    let slab = q.into_allocator();
    assert_eq!(slab.outstanding_blocks(), 0);
}

#[test]
fn queue_push_failure_leaves_queue_unchanged() {
    let mut q = Queue::try_new_in(Pool::new(64, 64)).unwrap();
    let mut pushed = 0;
    loop {
        match q.push_back(pushed) {
            Ok(_) => pushed += 1,
            Err(AllocError) => break,
        }
    }
    assert_eq!(q.len(), pushed as usize);
    assert_eq!(items(&q), (0..pushed).collect::<Vec<_>>());
    assert_eq!(q.push_front(99), Err(AllocError));
    assert_eq!(q.len(), pushed as usize);
}

#[test]
fn queue_needs_room_for_its_head() {
    assert!(Queue::<i32, Pool>::try_new_in(Pool::new(0, 0)).is_err());
}

#[test]
fn queue_thousand_alternating_pushes_on_bump_arena() {
    let mut q = Queue::try_new_in(Pool::new(1 << 20, 4096)).unwrap();
    for i in 0..1000 {
        if i % 2 == 0 {
            q.push_back(i).unwrap();
        } else {
            q.push_front(i).unwrap();
        }
    }
    let mut expected: Vec<i32> = (0..1000).filter(|i| i % 2 == 1).rev().collect();
    expected.extend((0..1000).filter(|i| i % 2 == 0));
    assert_eq!(items(&q), expected);
    assert_eq!(q.len(), 1000);
    let pool = q.into_allocator();
    assert_eq!(pool.outstanding_blocks(), 0);
}

fn entries<A: Allocator>(m: &RbTreeMap<i32, A>) -> Vec<(Vec<u8>, i32)> {
    let mut out = Vec::new();
    let mut it = m.iter();
    while let Some((k, v)) = it.next() {
        out.push((k.to_vec(), *v));
    }
    out
}

#[test]
fn map_insert_get_remove() {
    let mut m = RbTreeMap::try_new_in(SlabPool::new(1 << 16)).unwrap();
    assert!(m.is_empty());
    m.try_insert(b"b".to_vec(), 2).unwrap();
    m.try_insert(b"a".to_vec(), 1).unwrap();
    m.try_insert(b"c".to_vec(), 3).unwrap();
    m.try_insert(b"b".to_vec(), 20).unwrap();
    assert_eq!(m.get(b"b"), Some(&20));
    assert_eq!(m.get(b"z"), None);
    assert_eq!(m.allocator().outstanding_blocks(), 4);
    assert_eq!(m.remove(b"a"), Some(1));
    assert_eq!(m.remove(b"a"), None);
    assert_eq!(m.get(b"a"), None);
    assert_eq!(m.remove_entry(b"c"), Some((b"c".to_vec(), 3)));
    assert_eq!(m.allocator().outstanding_blocks(), 2);
    assert!(!m.is_empty());
    let slab = m.into_allocator();
    assert_eq!(slab.outstanding_blocks(), 0);
}

#[test]
fn map_iterates_in_key_order() {
    let mut m = RbTreeMap::try_new_in(Pool::new(1 << 16, 4096)).unwrap();
    for (k, v) in [("pear", 1), ("apple", 2), ("app", 3), ("zebra", 4), ("", 5)] {
        m.try_insert(k.as_bytes().to_vec(), v).unwrap();
    }
    let keys: Vec<Vec<u8>> = entries(&m).into_iter().map(|e| e.0).collect();
    let expected: Vec<Vec<u8>> = ["", "app", "apple", "pear", "zebra"]
        .iter()
        .map(|k| k.as_bytes().to_vec())
        .collect();
    assert_eq!(keys, expected);
}

#[test]
fn map_last_write_wins_over_a_sequence() {
    let mut m = RbTreeMap::try_new_in(SlabPool::new(1 << 16)).unwrap();
    let mut model = std::collections::BTreeMap::new();
    for i in 0..300i32 {
        let key = format!("k{}", (i * 7) % 23).into_bytes();
        if i % 4 == 3 {
            assert_eq!(m.remove(&key), model.remove(&key));
        } else {
            m.try_insert(key.clone(), i).unwrap();
            model.insert(key, i);
        }
        for j in 0..23 {
            let k = format!("k{}", j).into_bytes();
            assert_eq!(m.get(&k), model.get(&k));
        }
    }
    let expected: Vec<(Vec<u8>, i32)> = model.into_iter().collect();
    assert_eq!(entries(&m), expected);
}

#[test]
fn map_clear_then_reuse() {
    let mut m = RbTreeMap::try_new_in(SlabPool::new(1 << 16)).unwrap();
    for i in 0..10 {
        m.try_insert(vec![i as u8], i).unwrap();
    }
    m.clear();
    assert!(m.is_empty());
    assert_eq!(m.allocator().outstanding_blocks(), 1);
    m.clear();
    assert!(m.is_empty());
    m.try_insert(b"x".to_vec(), 1).unwrap();
    assert_eq!(m.get(b"x"), Some(&1));
    assert_eq!(entries(&m), vec![(b"x".to_vec(), 1)]);
}

#[test]
fn map_keys_sharing_a_prefix_are_distinct() {
    let mut m = RbTreeMap::try_new_in(SlabPool::new(1 << 16)).unwrap();
    m.try_insert(b"ab".to_vec(), 1).unwrap();
    m.try_insert(b"abc".to_vec(), 2).unwrap();
    m.try_insert(b"a".to_vec(), 3).unwrap();
    assert_eq!(m.get(b"ab"), Some(&1));
    assert_eq!(m.get(b"abc"), Some(&2));
    assert_eq!(m.remove(b"ab"), Some(1));
    assert_eq!(m.get(b"abc"), Some(&2));
    assert_eq!(m.get(b"a"), Some(&3));
}

#[test]
fn map_insert_failure_leaves_map_unchanged() {
    assert!(RbTreeMap::<i32, Pool>::try_new_in(Pool::new(0, 0)).is_err());
    let sentinel = std::mem::size_of::<ngx::collections::map::MapSentinel>();
    let mut m = RbTreeMap::try_new_in(Pool::new(sentinel, sentinel)).unwrap();
    assert_eq!(m.try_insert(b"k".to_vec(), 1), Err(AllocError));
    assert!(m.is_empty());
    assert_eq!(m.allocator().used(), sentinel);
}

#[test]
fn byte_order() {
    assert_eq!(compare_bytes(b"a", b"b"), Ordering::Less);
    assert_eq!(compare_bytes(b"ab", b"a"), Ordering::Greater);
    assert_eq!(compare_bytes(b"", b""), Ordering::Equal);
    assert_eq!(compare_bytes(b"\xff", b"\x00\x00"), Ordering::Greater);
}

#[test]
fn pushes_hand_back_the_stored_item() {
    let mut q = Queue::try_new_in(Pool::new(4096, 4096)).unwrap();
    *q.push_back(1).unwrap() += 10;
    *q.push_front(2).unwrap() *= 3;
    assert_eq!(items(&q), vec![6, 11]);
    if let Some(x) = q.get_mut(1) {
        *x = 7;
    }
    assert!(q.get_mut(2).is_none());
    assert_eq!(items(&q), vec![6, 7]);
}

#[test]
fn map_insert_and_get_mut_change_in_place() {
    let mut m = RbTreeMap::try_new_in(SlabPool::new(1 << 16)).unwrap();
    *m.try_insert(b"a".to_vec(), 1).unwrap() += 1;
    assert_eq!(m.get(b"a"), Some(&2));
    let before = m.allocator().outstanding_blocks();
    *m.try_insert(b"a".to_vec(), 5).unwrap() += 1;
    assert_eq!(m.allocator().outstanding_blocks(), before);
    assert_eq!(m.get(b"a"), Some(&6));
    *m.get_mut(b"a").unwrap() = 9;
    assert_eq!(m.get(b"a"), Some(&9));
    assert!(m.get_mut(b"b").is_none());
}
