use vstd::prelude::*;

verus! {

/// A bounded FIFO ring buffer over a caller-owned buffer: the queued elements
/// run from `head` up to, not including, `tail`, wrapping at the end of the
/// buffer. One slot is kept free, so a buffer of length `n` holds at most
/// `n - 1` elements.
pub struct Queue<'a, T: Copy + 'a> {
    v: &'a mut [T],
    tail: usize,
    head: usize,
}

impl<'a, T: Copy> Queue<'a, T> {
    /// The length of the backing buffer.
    pub closed spec fn capacity(&self) -> nat {
        self.v@.len()
    }

    /// The number of queued elements.
    closed spec fn count(&self) -> int {
        if self.head <= self.tail {
            self.tail - self.head
        } else {
            self.tail + self.v@.len() - self.head
        }
    }

    /// The slot that holds the `k`-th queued element.
    closed spec fn slot(&self, k: int) -> int {
        if self.head + k < self.v@.len() {
            self.head + k
        } else {
            self.head + k - self.v@.len()
        }
    }

    /// The queued elements, oldest first.
    pub closed spec fn items(&self) -> Seq<T> {
        Seq::new(self.count() as nat, |k: int| self.v@[self.slot(k)])
    }

    /// Both ends name slots of the buffer, or the buffer is empty and both are 0.
    pub closed spec fn wf(&self) -> bool {
        if self.v@.len() == 0 {
            self.head == 0 && self.tail == 0
        } else {
            self.head < self.v@.len() && self.tail < self.v@.len()
        }
    }

    /// An empty queue over `v`.
    pub fn new(v: &'a mut [T]) -> (r: Self)
        ensures
            r.wf(),
            r.items() == Seq::<T>::empty(),
            r.capacity() == old(v)@.len(),
    {
        let r = Queue { v, head: 0, tail: 0 };
        assert(r.items() =~= Seq::<T>::empty());
        r
    }

    /// A queue over `v` whose elements run from slot `head` up to slot `tail`;
    /// both must name slots of the buffer.
    pub fn new_with(v: &'a mut [T], head: usize, tail: usize) -> (r: Result<Self, ()>)
        ensures
            r is Err <==> !(head < old(v)@.len() && tail < old(v)@.len()),
            r matches Ok(q) ==> {
                &&& q.wf()
                &&& q.capacity() == old(v)@.len()
                &&& q.items().len() == if head <= tail {
                    tail - head
                } else {
                    tail + old(v)@.len() - head
                }
                &&& forall|k: int|
                    0 <= k < q.items().len() ==> #[trigger] q.items()[k] == old(v)@[(head + k)
                        % (old(v)@.len() as int)]
            },
    {
        if !(head < v.len() && tail < v.len()) {
            return Err(());
        }
        let q = Queue { v, head, tail };
        proof {
            let n = q.v@.len() as int;
            assert forall|k: int| 0 <= k < q.items().len() implies #[trigger] q.items()[k]
                == q.v@[(head + k) % n] by {
                if head + k < n {
                    vstd::arithmetic::div_mod::lemma_small_mod((head + k) as nat, n as nat);
                } else {
                    vstd::arithmetic::div_mod::lemma_mod_add_multiples_vanish(head + k - n, n);
                    vstd::arithmetic::div_mod::lemma_small_mod((head + k - n) as nat, n as nat);
                }
            }
        }
        Ok(q)
    }

    /// Appends `x` at the tail, unless only the reserved slot is left.
    pub fn enqueue(&mut self, x: T) -> (r: Result<(), &'static str>)
        requires
            old(self).wf(),
        ensures
            final(self).wf(),
            final(self).capacity() == old(self).capacity(),
            r is Ok <==> old(self).items().len() + 1 < old(self).capacity(),
            r is Ok ==> final(self).items() == old(self).items().push(x),
            r is Err ==> final(self).items() == old(self).items(),
    {
        if self.v.len() == 0 {
            return Err("Queue overflow");
        }
        let next_tail = if self.tail + 1 == self.v.len() {
            0
        } else {
            self.tail + 1
        };
        if next_tail == self.head {
            return Err("Queue overflow");
        }
        let ghost s0 = self.items();
        self.v[self.tail] = x;
        self.tail = next_tail;
        assert(self.items() =~= s0.push(x));
        Ok(())
    }

    /// Removes and returns the element at the head, if any.
    pub fn dequeue(&mut self) -> (r: Result<T, &'static str>)
        requires
            old(self).wf(),
        ensures
            final(self).wf(),
            final(self).capacity() == old(self).capacity(),
            r is Err <==> old(self).items().len() == 0,
            r is Err ==> final(self).items() == old(self).items(),
            r matches Ok(x) ==> x == old(self).items()[0] && final(self).items()
                == old(self).items().drop_first(),
    {
        if self.head == self.tail {
            return Err("Queue underflow");
        }
        let ghost s0 = self.items();
        let n = self.v.len();
        let prev_head = self.head;
        let next_head = if prev_head + 1 == n {
            0
        } else {
            prev_head + 1
        };
        self.head = next_head;
        assert(self.items() =~= s0.drop_first());
        Ok(self.v[prev_head])
    }
}

} // verus!
