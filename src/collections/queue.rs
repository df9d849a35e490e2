//! A double-ended queue whose every node is a block of its arena.
use crate::allocator::{layout_of, AllocError, Allocator, Block, Layout};
use std::collections::VecDeque;
use vstd::prelude::*;

verus! {

/// The head of the queue: a block that the queue takes from its arena when
/// it is made and gives back when it goes, whatever it holds.
pub struct QueueLinks {
    pub prev: usize,
    pub next: usize,
}

/// A node: its item and the block of the arena that holds it.
pub struct QueueEntry<T> {
    item: T,
    block: Block,
}

/// Relies on `VecDeque`'s `IndexMut`: a mutable reference to the element at
/// `i`, whose final value becomes that element.
#[verifier::external_body]
fn deque_index_mut<E>(v: &mut VecDeque<E>, i: usize) -> (r: &mut E)
    requires
        i < old(v)@.len(),
    ensures
        *r == old(v)@[i as int],
        final(v)@ == old(v)@.update(i as int, *final(r)),
{
    &mut v[i]
}

/// The layout of the head of the ring.
pub open spec fn head_layout() -> Layout {
    layout_of::<QueueLinks>()
}

/// The layout of a node holding an item of type `T`.
pub open spec fn node_layout<T>() -> Layout {
    layout_of::<QueueEntry<T>>()
}

/// A queue that owns its items, each in a node allocated from `A`, with a
/// head node allocated when the queue is made.
pub struct Queue<T, A: Allocator> {
    entries: VecDeque<QueueEntry<T>>,
    head: Block,
    alloc: A,
}

impl<T, A: Allocator> View for Queue<T, A> {
    type V = Seq<T>;

    /// The items from front to back.
    closed spec fn view(&self) -> Seq<T> {
        self.entries@.map_values(|e: QueueEntry<T>| e.item)
    }
}

impl<T, A: Allocator> Queue<T, A> {
    /// The arena that the nodes come from.
    pub closed spec fn spec_allocator(&self) -> A {
        self.alloc
    }

    /// The arena holds the head and one block per item.
    pub closed spec fn wf(&self) -> bool {
        &&& self.alloc.wf()
        &&& self.alloc.outstanding() >= self.entries@.len() + 1
        &&& self.head.size == head_layout().size
        &&& forall|i: int|
            0 <= i < self.entries@.len() ==> (#[trigger] self.entries@[i]).block.size
                == node_layout::<T>().size
    }

    /// An empty queue; fails where the arena cannot hold the head.
    pub fn try_new_in(alloc: A) -> (r: Result<Self, AllocError>)
        requires
            alloc.wf(),
        ensures
            r is Ok <==> alloc.can_allocate(head_layout()),
            r matches Ok(q) ==> {
                &&& q.wf()
                &&& q@.len() == 0
                &&& q.spec_allocator().outstanding() == alloc.outstanding() + 1
            },
    {
        let mut alloc = alloc;
        match alloc.allocate(Layout::new::<QueueLinks>()) {
            Ok(head) => Ok(Queue { entries: VecDeque::new(), head, alloc }),
            Err(e) => Err(e),
        }
    }

    pub fn allocator(&self) -> (r: &A)
        ensures
            *r == self.spec_allocator(),
    {
        &self.alloc
    }

    pub fn is_empty(&self) -> (r: bool)
        ensures
            r == (self@.len() == 0),
    {
        self.entries.len() == 0
    }

    pub fn len(&self) -> (r: usize)
        ensures
            r == self@.len(),
    {
        self.entries.len()
    }

    /// The item at position `i` from the front.
    pub fn get(&self, i: usize) -> (r: Option<&T>)
        ensures
            i < self@.len() ==> r == Some(&self@[i as int]),
            i >= self@.len() ==> r is None,
    {
        if i < self.entries.len() {
            Some(&self.entries[i].item)
        } else {
            None
        }
    }

    /// A walk over the items from front to back.
    pub fn iter(&self) -> (r: QueueIter<'_, T, A>)
        ensures
            r.queue() == self,
            r.pos() == 0,
    {
        QueueIter::new(self)
    }

    /// Appends an item; where the arena cannot hold the node the queue is
    /// unchanged and the error is returned.
    pub fn push_back(&mut self, item: T) -> (r: Result<&mut T, AllocError>)
        requires
            old(self).wf(),
        ensures
            final(self).wf(),
            r is Ok <==> old(self).spec_allocator().can_allocate(node_layout::<T>()),
            r is Ok ==> *r.unwrap() == item && final(self)@ == old(self)@.push(*final(r.unwrap()))
                && final(self).spec_allocator().outstanding()
                == old(self).spec_allocator().outstanding() + 1,
            r is Err ==> *final(self) == *old(self),
    {
        match self.alloc.allocate(Layout::new::<QueueEntry<T>>()) {
            Ok(block) => {
                let entry = QueueEntry { item, block };
                self.entries.push_back(entry);
                let n = self.entries.len() - 1;
                proof {
                    assert(self@ =~= old(self)@.push(item));
                    self.lemma_replace_any(n as int);
                    assert forall|v: T| #[trigger] self@.update(n as int, v) == old(self)@.push(
                        v,
                    ) by {
                        assert(self@.update(n as int, v) =~= old(self)@.push(v));
                    }
                }
                Ok(self.item_mut(n))
            },
            Err(e) => Err(e),
        }
    }

    /// Prepends an item; where the arena cannot hold the node the queue is
    /// unchanged and the error is returned.
    pub fn push_front(&mut self, item: T) -> (r: Result<&mut T, AllocError>)
        requires
            old(self).wf(),
        ensures
            final(self).wf(),
            r is Ok <==> old(self).spec_allocator().can_allocate(node_layout::<T>()),
            r is Ok ==> *r.unwrap() == item && final(self)@ == seq![*final(r.unwrap())] + old(self)@
                && final(self).spec_allocator().outstanding()
                == old(self).spec_allocator().outstanding() + 1,
            r is Err ==> *final(self) == *old(self),
    {
        match self.alloc.allocate(Layout::new::<QueueEntry<T>>()) {
            Ok(block) => {
                let entry = QueueEntry { item, block };
                self.entries.push_front(entry);
                proof {
                    assert(self@ =~= seq![item] + old(self)@);
                    assert forall|i: int| 0 <= i < self.entries@.len() implies (
                    #[trigger] self.entries@[i]).block.size == node_layout::<T>().size by {
                        if i > 0 {
                            assert(self.entries@[i] == old(self).entries@[i - 1]);
                        }
                    }
                    self.lemma_replace_any(0);
                    assert forall|v: T| #[trigger] self@.update(0, v) == seq![v] + old(self)@ by {
                        assert(self@.update(0, v) =~= seq![v] + old(self)@);
                    }
                }
                Ok(self.item_mut(0))
            },
            Err(e) => Err(e),
        }
    }

    /// The item at position `i` from the front, to change in place.
    pub fn get_mut(&mut self, i: usize) -> (r: Option<&mut T>)
        requires
            old(self).wf(),
        ensures
            final(self).wf(),
            final(self).spec_allocator() == old(self).spec_allocator(),
            i < old(self)@.len() ==> {
                &&& r is Some
                &&& *r.unwrap() == old(self)@[i as int]
                &&& final(self)@ == old(self)@.update(i as int, *final(r.unwrap()))
            },
            i >= old(self)@.len() ==> r is None && *final(self) == *old(self),
    {
        if i < self.entries.len() {
            proof {
                self.lemma_replace_any(i as int);
            }
            Some(self.item_mut(i))
        } else {
            None
        }
    }

    /// `q2` is `pre` with the `i`th item replaced by `v`.
    spec fn replaced(pre: Self, i: int, q2: Self, v: T) -> bool {
        &&& q2.entries@ == pre.entries@.update(i, QueueEntry { item: v, block: pre.entries@[i].block })
        &&& q2.alloc == pre.alloc
        &&& q2.head == pre.head
    }

    /// Whatever the `i`th item comes to be, the queue stays well formed and
    /// holds it at `i`.
    proof fn lemma_replace_any(&self, i: int)
        requires
            self.wf(),
            0 <= i < self@.len(),
        ensures
            forall|q2: Self, v: T|
                #[trigger] Self::replaced(*self, i, q2, v) ==> q2.wf() && q2@ == self@.update(i, v)
                    && q2.alloc == self.alloc,
    {
        assert forall|q2: Self, v: T| #[trigger] Self::replaced(*self, i, q2, v) implies q2.wf()
            && q2@ == self@.update(i, v) && q2.alloc == self.alloc by {
            assert(q2@ =~= self@.update(i, v));
            assert forall|j: int| 0 <= j < q2.entries@.len() implies (
            #[trigger] q2.entries@[j]).block.size == node_layout::<T>().size by {
                assert(j != i ==> q2.entries@[j] == self.entries@[j]);
            }
        }
    }

    /// The `i`th item, to change in place.
    fn item_mut(&mut self, i: usize) -> (r: &mut T)
        requires
            i < old(self).entries@.len(),
        ensures
            *r == old(self).entries@[i as int].item,
            Self::replaced(*old(self), i as int, *final(self), *final(r)),
    {
        let e = deque_index_mut(&mut self.entries, i);
        &mut e.item
    }

    /// Removes the last item and gives its node back to the arena; `None`,
    /// with the queue unchanged, where the queue is empty.
    pub fn pop_back(&mut self) -> (r: Option<T>)
        requires
            old(self).wf(),
        ensures
            final(self).wf(),
            old(self)@.len() == 0 ==> r is None && *final(self) == *old(self),
            old(self)@.len() > 0 ==> {
                &&& r == Some(old(self)@.last())
                &&& final(self)@ == old(self)@.drop_last()
                &&& final(self).spec_allocator().outstanding()
                    == old(self).spec_allocator().outstanding() - 1
            },
    {
        if self.entries.len() == 0 {
            return None;
        }
        match self.entries.pop_back() {
            Some(e) => {
                self.alloc.deallocate(e.block, Layout::new::<QueueEntry<T>>());
                proof {
                    assert(self@ =~= old(self)@.drop_last());
                }
                Some(e.item)
            },
            None => None,
        }
    }

    /// Removes the first item and gives its node back to the arena; `None`,
    /// with the queue unchanged, where the queue is empty.
    pub fn pop_front(&mut self) -> (r: Option<T>)
        requires
            old(self).wf(),
        ensures
            final(self).wf(),
            old(self)@.len() == 0 ==> r is None && *final(self) == *old(self),
            old(self)@.len() > 0 ==> {
                &&& r == Some(old(self)@[0])
                &&& final(self)@ == old(self)@.subrange(1, old(self)@.len() as int)
                &&& final(self).spec_allocator().outstanding()
                    == old(self).spec_allocator().outstanding() - 1
            },
    {
        if self.entries.len() == 0 {
            return None;
        }
        match self.entries.pop_front() {
            Some(e) => {
                self.alloc.deallocate(e.block, Layout::new::<QueueEntry<T>>());
                proof {
                    assert(self@ =~= old(self)@.subrange(1, old(self)@.len() as int));
                    assert forall|i: int| 0 <= i < self.entries@.len() implies (
                    #[trigger] self.entries@[i]).block.size == node_layout::<T>().size by {
                        assert(self.entries@[i] == old(self).entries@[i + 1]);
                    }
                }
                Some(e.item)
            },
            None => None,
        }
    }
}

impl<T, A: Allocator> Queue<T, A> {
    /// Pops and drops every item, gives each node and then the head back to
    /// the arena, and returns the arena.
    pub fn into_allocator(self) -> (r: A)
        requires
            self.wf(),
        ensures
            r.wf(),
            r.outstanding() == self.spec_allocator().outstanding() - self@.len() - 1,
    {
        let mut q = self;
        while q.entries.len() > 0
            invariant
                q.wf(),
                q.spec_allocator().outstanding() + self@.len() == self.spec_allocator().outstanding()
                    + q@.len(),
            decreases q@.len(),
        {
            q.pop_back();
        }
        let head = q.head;
        let mut alloc = q.alloc;
        alloc.deallocate(head, Layout::new::<QueueLinks>());
        alloc
    }
}

/// Pushing an item at one end and popping from the same end gives the item
/// back and leaves the items as they were; pushing at the back and popping
/// from the front of a non-empty queue takes the oldest item and keeps the
/// order of the rest.
pub proof fn lemma_queue_order<T>(items: Seq<T>, x: T)
    ensures
        items.push(x).last() == x,
        items.push(x).drop_last() == items,
        (seq![x] + items)[0] == x,
        (seq![x] + items).subrange(1, items.len() as int + 1) == items,
        items.len() > 0 ==> items.push(x)[0] == items[0] && items.push(x).subrange(
            1,
            items.len() as int + 1,
        ) == items.subrange(1, items.len() as int).push(x),
{
    assert(items.push(x).drop_last() =~= items);
    assert((seq![x] + items).subrange(1, items.len() as int + 1) =~= items);
    if items.len() > 0 {
        assert(items.push(x).subrange(1, items.len() as int + 1) =~= items.subrange(
            1,
            items.len() as int,
        ).push(x));
    }
}

/// The items after pushing `0, 1, ..., n - 1` in turn, each even number at
/// the back and each odd one at the front.
pub open spec fn alternating_pushes(n: nat) -> Seq<int>
    decreases n,
{
    if n == 0 {
        seq![]
    } else {
        let x = (n - 1) as int;
        let prev = alternating_pushes((n - 1) as nat);
        if x % 2 == 0 {
            prev.push(x)
        } else {
            seq![x] + prev
        }
    }
}

/// The odd numbers below `n` in decreasing order, then the even ones in
/// increasing order.
pub open spec fn odds_then_evens(n: nat) -> Seq<int> {
    let h = (n / 2) as int;
    Seq::new(n, |j: int| if j < h { 2 * (h - 1 - j) + 1 } else { 2 * (j - h) })
}

/// Pushing `0, 1, ..., n - 1` alternately at the back (even numbers) and at
/// the front (odd numbers) leaves `n` items: the odd numbers descending, then
/// the even numbers ascending.
pub proof fn lemma_alternating_pushes(n: nat)
    ensures
        alternating_pushes(n) == odds_then_evens(n),
        alternating_pushes(n).len() == n,
    decreases n,
{
    if n > 0 {
        let m = (n - 1) as nat;
        lemma_alternating_pushes(m);
        let x = m as int;
        let prev = alternating_pushes(m);
        let h = (m / 2) as int;
        let h2 = (n / 2) as int;
        if x % 2 == 0 {
            assert(h2 == h);
            assert(x == 2 * (x - h));
            assert(alternating_pushes(n) =~= odds_then_evens(n));
        } else {
            assert(h2 == h + 1);
            assert(x == 2 * h + 1);
            assert forall|j: int| 0 <= j < n implies #[trigger] alternating_pushes(n)[j]
                == odds_then_evens(n)[j] by {
                if j > 0 {
                    assert(alternating_pushes(n)[j] == prev[j - 1]);
                }
            }
            assert(alternating_pushes(n) =~= odds_then_evens(n));
        }
    }
}

/// A queue made over an arena with no block out, given `n` items and then
/// taken apart by `into_allocator`, leaves the arena with no block out: the
/// queue holds its head and one block per item, and gives them all back.
pub proof fn lemma_teardown_returns_every_block(
    base: nat,
    made: nat,
    filled: nat,
    n: nat,
    after: nat,
)
    requires
        base == 0,
        made == base + 1,
        filled == made + n,
        after == filled - n - 1,
    ensures
        after == 0,
{
}

/// A walk over a queue's items from front to back.
pub struct QueueIter<'a, T, A: Allocator> {
    queue: &'a Queue<T, A>,
    pos: usize,
}

impl<'a, T, A: Allocator> QueueIter<'a, T, A> {
    pub closed spec fn queue(&self) -> &'a Queue<T, A> {
        self.queue
    }

    /// How many items were handed out.
    pub closed spec fn pos(&self) -> nat {
        self.pos as nat
    }

    pub fn new(queue: &'a Queue<T, A>) -> (r: Self)
        ensures
            r.queue() == queue,
            r.pos() == 0,
    {
        QueueIter { queue, pos: 0 }
    }

    /// The next item, or `None` once every item was handed out.
    pub fn next(&mut self) -> (r: Option<&'a T>)
        ensures
            final(self).queue() == old(self).queue(),
            old(self).pos() < old(self).queue()@.len() ==> {
                &&& r == Some(&old(self).queue()@[old(self).pos() as int])
                &&& final(self).pos() == old(self).pos() + 1
            },
            old(self).pos() >= old(self).queue()@.len() ==> r is None && final(self).pos()
                == old(self).pos(),
    {
        if self.pos < self.queue.entries.len() {
            let item = &self.queue.entries[self.pos].item;
            self.pos = self.pos + 1;
            Some(item)
        } else {
            None
        }
    }
}

} // verus!
