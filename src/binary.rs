use vstd::prelude::*;
use vstd::multiset::Multiset;
use crate::heap::{is_heap, is_top, BinaryHeap, HeapError, Order};

verus! {

/// A heap over a caller-owned buffer whose root holds the largest element.
pub struct MaxHeap<'a> {
    heap: BinaryHeap<'a>,
}

impl<'a> MaxHeap<'a> {
    /// The occupied region, in buffer order.
    pub closed spec fn items(&self) -> Seq<i64> {
        self.heap.items()
    }

    /// The length of the backing buffer.
    pub closed spec fn capacity(&self) -> nat {
        self.heap.capacity()
    }

    /// The underlying heap is consistent and ordered by `Order::Max`.
    pub closed spec fn inv(&self) -> bool {
        self.heap.inv() && self.heap.order() == Order::Max
    }

    /// The elements held, without regard to position.
    pub open spec fn contents(&self) -> Multiset<i64> {
        self.items().to_multiset()
    }

    /// No child precedes its parent: each parent is at least as large as its children.
    pub open spec fn wf(&self) -> bool {
        &&& self.inv()
        &&& is_heap(Order::Max, self.items())
    }

    /// An empty heap over `v`.
    pub fn new(v: &'a mut [i64]) -> (r: Self)
        ensures
            r.wf(),
            r.items() == Seq::<i64>::empty(),
            r.capacity() == old(v)@.len(),
    {
        MaxHeap { heap: BinaryHeap::new(v, Order::Max) }
    }

    /// A heap over the first `size` elements already in `v`.
    pub fn new_with(v: &'a mut [i64], size: usize) -> (r: Result<Self, HeapError>)
        ensures
            r is Err <==> size > old(v)@.len(),
            r is Err ==> r == Err::<Self, HeapError>(HeapError::CapacityExceeded),
            r matches Ok(h) ==> {
                &&& h.wf()
                &&& h.capacity() == old(v)@.len()
                &&& h.items().len() == size
                &&& h.contents() == old(v)@.subrange(0, size as int).to_multiset()
            },
    {
        match BinaryHeap::new_with(v, size, Order::Max) {
            Ok(heap) => Ok(MaxHeap { heap }),
            Err(e) => Err(e),
        }
    }

    /// Whether no element is held.
    pub fn empty(&self) -> (r: bool)
        requires
            self.wf(),
        ensures
            r == (self.items().len() == 0),
    {
        self.heap.is_empty()
    }

    /// The number of elements held.
    pub fn size(&self) -> (r: usize)
        requires
            self.wf(),
        ensures
            r == self.items().len(),
    {
        self.heap.len()
    }

    /// The largest element held, if any.
    pub fn max(&self) -> (r: Option<i64>)
        requires
            self.wf(),
        ensures
            r is None <==> self.items().len() == 0,
            r matches Some(x) ==> x == self.items()[0] && is_top(Order::Max, x, self.contents()),
    {
        self.heap.peek()
    }

    /// Removes and returns the largest element held, if any.
    pub fn extract_max(&mut self) -> (r: Option<i64>)
        requires
            old(self).wf(),
        ensures
            final(self).wf(),
            final(self).capacity() == old(self).capacity(),
            r is None <==> old(self).items().len() == 0,
            r is None ==> final(self).items() == old(self).items(),
            r matches Some(x) ==> {
                &&& x == old(self).items()[0]
                &&& is_top(Order::Max, x, old(self).contents())
                &&& final(self).contents() == old(self).contents().remove(x)
                &&& final(self).items().len() == old(self).items().len() - 1
            },
    {
        self.heap.extract()
    }

    /// Replaces the element at `i` with `key`, which must be at least as large as it.
    pub fn increase_key(&mut self, i: usize, key: i64) -> (r: Result<(), HeapError>)
        requires
            old(self).wf(),
        ensures
            final(self).wf(),
            final(self).capacity() == old(self).capacity(),
            final(self).items().len() == old(self).items().len(),
            r is Ok <==> i < old(self).items().len() && key >= old(self).items()[i as int],
            r is Err ==> final(self).items() == old(self).items(),
            i >= old(self).items().len() ==> r == Err::<(), HeapError>(HeapError::IndexOutOfRange),
            i < old(self).items().len() && r is Err ==> r == Err::<(), HeapError>(
                HeapError::UpdateRejected,
            ),
            r is Ok ==> final(self).contents() == old(self).contents().insert(key).remove(
                old(self).items()[i as int],
            ),
            r is Ok && key == old(self).items()[i as int] ==> final(self).items() == old(
                self,
            ).items(),
    {
        self.heap.update_key(i, key)
    }

    /// Adds `key`, unless the buffer is full.
    pub fn insert(&mut self, key: i64) -> (r: Result<(), HeapError>)
        requires
            old(self).wf(),
        ensures
            final(self).wf(),
            final(self).capacity() == old(self).capacity(),
            r is Err <==> old(self).items().len() == old(self).capacity(),
            r is Err ==> r == Err::<(), HeapError>(HeapError::CapacityExceeded) && final(self).items()
                == old(self).items(),
            r is Ok ==> final(self).contents() == old(self).contents().insert(key)
                && final(self).items().len() == old(self).items().len() + 1,
    {
        self.heap.insert(key)
    }
}

/// A heap over a caller-owned buffer whose root holds the smallest element.
pub struct MinHeap<'a> {
    heap: BinaryHeap<'a>,
}

impl<'a> MinHeap<'a> {
    /// The occupied region, in buffer order.
    pub closed spec fn items(&self) -> Seq<i64> {
        self.heap.items()
    }

    /// The length of the backing buffer.
    pub closed spec fn capacity(&self) -> nat {
        self.heap.capacity()
    }

    /// The underlying heap is consistent and ordered by `Order::Min`.
    pub closed spec fn inv(&self) -> bool {
        self.heap.inv() && self.heap.order() == Order::Min
    }

    /// The elements held, without regard to position.
    pub open spec fn contents(&self) -> Multiset<i64> {
        self.items().to_multiset()
    }

    /// No child precedes its parent: each parent is at most as large as its children.
    pub open spec fn wf(&self) -> bool {
        &&& self.inv()
        &&& is_heap(Order::Min, self.items())
    }

    /// An empty heap over `v`.
    pub fn new(v: &'a mut [i64]) -> (r: Self)
        ensures
            r.wf(),
            r.items() == Seq::<i64>::empty(),
            r.capacity() == old(v)@.len(),
    {
        MinHeap { heap: BinaryHeap::new(v, Order::Min) }
    }

    /// A heap over the first `size` elements already in `v`.
    pub fn new_with(v: &'a mut [i64], size: usize) -> (r: Result<Self, HeapError>)
        ensures
            r is Err <==> size > old(v)@.len(),
            r is Err ==> r == Err::<Self, HeapError>(HeapError::CapacityExceeded),
            r matches Ok(h) ==> {
                &&& h.wf()
                &&& h.capacity() == old(v)@.len()
                &&& h.items().len() == size
                &&& h.contents() == old(v)@.subrange(0, size as int).to_multiset()
            },
    {
        match BinaryHeap::new_with(v, size, Order::Min) {
            Ok(heap) => Ok(MinHeap { heap }),
            Err(e) => Err(e),
        }
    }

    /// Whether no element is held.
    pub fn empty(&self) -> (r: bool)
        requires
            self.wf(),
        ensures
            r == (self.items().len() == 0),
    {
        self.heap.is_empty()
    }

    /// The number of elements held.
    pub fn size(&self) -> (r: usize)
        requires
            self.wf(),
        ensures
            r == self.items().len(),
    {
        self.heap.len()
    }

    /// The smallest element held, if any.
    pub fn min(&self) -> (r: Option<i64>)
        requires
            self.wf(),
        ensures
            r is None <==> self.items().len() == 0,
            r matches Some(x) ==> x == self.items()[0] && is_top(Order::Min, x, self.contents()),
    {
        self.heap.peek()
    }

    /// Removes and returns the smallest element held, if any.
    pub fn extract_min(&mut self) -> (r: Option<i64>)
        requires
            old(self).wf(),
        ensures
            final(self).wf(),
            final(self).capacity() == old(self).capacity(),
            r is None <==> old(self).items().len() == 0,
            r is None ==> final(self).items() == old(self).items(),
            r matches Some(x) ==> {
                &&& x == old(self).items()[0]
                &&& is_top(Order::Min, x, old(self).contents())
                &&& final(self).contents() == old(self).contents().remove(x)
                &&& final(self).items().len() == old(self).items().len() - 1
            },
    {
        self.heap.extract()
    }

    /// Replaces the element at `i` with `key`, which must be at most as large as it.
    pub fn decrease_key(&mut self, i: usize, key: i64) -> (r: Result<(), HeapError>)
        requires
            old(self).wf(),
        ensures
            final(self).wf(),
            final(self).capacity() == old(self).capacity(),
            final(self).items().len() == old(self).items().len(),
            r is Ok <==> i < old(self).items().len() && key <= old(self).items()[i as int],
            r is Err ==> final(self).items() == old(self).items(),
            i >= old(self).items().len() ==> r == Err::<(), HeapError>(HeapError::IndexOutOfRange),
            i < old(self).items().len() && r is Err ==> r == Err::<(), HeapError>(
                HeapError::UpdateRejected,
            ),
            r is Ok ==> final(self).contents() == old(self).contents().insert(key).remove(
                old(self).items()[i as int],
            ),
            r is Ok && key == old(self).items()[i as int] ==> final(self).items() == old(
                self,
            ).items(),
    {
        self.heap.update_key(i, key)
    }

    /// Adds `key`, unless the buffer is full.
    pub fn insert(&mut self, key: i64) -> (r: Result<(), HeapError>)
        requires
            old(self).wf(),
        ensures
            final(self).wf(),
            final(self).capacity() == old(self).capacity(),
            r is Err <==> old(self).items().len() == old(self).capacity(),
            r is Err ==> r == Err::<(), HeapError>(HeapError::CapacityExceeded) && final(self).items()
                == old(self).items(),
            r is Ok ==> final(self).contents() == old(self).contents().insert(key)
                && final(self).items().len() == old(self).items().len() + 1,
    {
        self.heap.insert(key)
    }
}

} // verus!
