use vstd::prelude::*;

verus! {

/// A bounded LIFO stack over a caller-owned buffer: the stacked elements are
/// `v[0..top)`, the newest at `top - 1`. One slot of the buffer is kept free, so
/// a buffer of length `n` holds at most `n - 1` elements.
pub struct Stack<'a, T: Copy + 'a> {
    v: &'a mut [T],
    top: usize,
}

impl<'a, T: Copy> Stack<'a, T> {
    /// The stacked elements, oldest first.
    pub closed spec fn items(&self) -> Seq<T> {
        self.v@.subrange(0, self.top as int)
    }

    /// The length of the backing buffer.
    pub closed spec fn capacity(&self) -> nat {
        self.v@.len()
    }

    /// The stacked region lies within the buffer.
    pub closed spec fn wf(&self) -> bool {
        self.top <= self.v@.len()
    }

    /// An empty stack over `v`.
    pub fn new(v: &'a mut [T]) -> (r: Self)
        ensures
            r.wf(),
            r.items() == Seq::<T>::empty(),
            r.capacity() == old(v)@.len(),
    {
        let r = Stack { v, top: 0 };
        assert(r.items() =~= Seq::<T>::empty());
        r
    }

    /// A stack whose elements are the first `top` slots of `v`; `top` must
    /// name a slot of the buffer.
    pub fn new_with(v: &'a mut [T], top: usize) -> (r: Result<Self, ()>)
        ensures
            r is Err <==> top >= old(v)@.len(),
            r matches Ok(s) ==> {
                &&& s.wf()
                &&& s.items() == old(v)@.subrange(0, top as int)
                &&& s.capacity() == old(v)@.len()
            },
    {
        if !(top < v.len()) {
            return Err(());
        }
        Ok(Stack { v, top })
    }

    /// Pushes `x`, unless only the reserved slot is left.
    pub fn push(&mut self, x: T) -> (r: Result<(), &'static str>)
        requires
            old(self).wf(),
        ensures
            final(self).wf(),
            final(self).capacity() == old(self).capacity(),
            r is Ok <==> old(self).items().len() + 1 < old(self).capacity(),
            r is Ok ==> final(self).items() == old(self).items().push(x),
            r is Err ==> final(self).items() == old(self).items(),
    {
        if self.v.len() - self.top <= 1 {
            return Err("stack is full");
        }
        let ghost s0 = self.items();
        self.v[self.top] = x;
        self.top += 1;
        assert(self.items() =~= s0.push(x));
        Ok(())
    }

    /// Removes and returns the newest element, if any.
    pub fn pop(&mut self) -> (r: Option<T>)
        requires
            old(self).wf(),
        ensures
            final(self).wf(),
            final(self).capacity() == old(self).capacity(),
            r is None <==> old(self).items().len() == 0,
            r is None ==> final(self).items() == old(self).items(),
            r matches Some(x) ==> x == old(self).items().last() && final(self).items()
                == old(self).items().drop_last(),
    {
        if self.top == 0 {
            return None;
        }
        let ghost s0 = self.items();
        self.top -= 1;
        assert(self.items() =~= s0.drop_last());
        Some(self.v[self.top])
    }

    /// Whether no element is stacked.
    pub fn empty(&self) -> (r: bool)
        requires
            self.wf(),
        ensures
            r == (self.items().len() == 0),
    {
        self.top == 0
    }
}

} // verus!
