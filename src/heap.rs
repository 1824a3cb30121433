use vstd::prelude::*;
use vstd::multiset::Multiset;

verus! {

broadcast use vstd::seq_lib::group_to_multiset_ensures, vstd::multiset::group_multiset_axioms;

/// The ordering policy of a heap: which of two keys must sit closer to the root.
#[derive(Clone, Copy, Debug, PartialEq, Eq, Structural)]
pub enum Order {
    /// Larger keys rise to the root.
    Max,
    /// Smaller keys rise to the root.
    Min,
}

impl Order {
    /// `a` must sit above `b`: strictly greater for `Max`, strictly less for `Min`.
    pub open spec fn spec_precedes(self, a: i64, b: i64) -> bool {
        match self {
            Order::Max => a > b,
            Order::Min => a < b,
        }
    }

    /// Whether `a` must sit above `b` under this policy.
    pub fn precedes(&self, a: i64, b: i64) -> (r: bool)
        ensures
            r == self.spec_precedes(a, b),
    {
        match self {
            Order::Max => a > b,
            Order::Min => a < b,
        }
    }
}

/// Errors reported by the heap operations; a failed operation changes nothing.
#[derive(Clone, Copy, Debug, PartialEq, Eq, Structural)]
pub enum HeapError {
    /// The buffer has no free slot, or a prefix longer than the buffer was given.
    CapacityExceeded,
    /// The new key would move against the heap's ordering direction.
    UpdateRejected,
    /// The index does not name an occupied slot.
    IndexOutOfRange,
}

/// Index of the parent of node `j` in the implicit tree.
pub open spec fn parent(j: int) -> int {
    (j - 1) / 2
}

/// Every occupied node is not preceded by any of its children.
pub open spec fn is_heap(order: Order, s: Seq<i64>) -> bool {
    forall|j: int| 0 < j < s.len() ==> !order.spec_precedes(#[trigger] s[j], s[parent(j)])
}

/// `x` is held in `m` and no element of `m` precedes it.
pub open spec fn is_top(order: Order, x: i64, m: Multiset<i64>) -> bool {
    &&& m.contains(x)
    &&& forall|y: i64| #[trigger] m.contains(y) ==> !order.spec_precedes(y, x)
}

/// `s` is a sequence that repeated extraction from a heap holding `m` can
/// return: each element is a top of what is left at its turn.
pub open spec fn is_extraction_sequence(order: Order, m: Multiset<i64>, s: Seq<i64>) -> bool
    decreases s.len(),
{
    if s.len() == 0 {
        true
    } else {
        is_top(order, s[0], m) && is_extraction_sequence(order, m.remove(s[0]), s.drop_first())
    }
}

/// Extending by one extraction: a top `x` of `m`, followed by a sequence that
/// extraction can return from what is left once `x` is removed, is itself a
/// sequence that extraction can return from `m`.
pub proof fn lemma_extraction_step(order: Order, m: Multiset<i64>, x: i64, s: Seq<i64>)
    requires
        is_top(order, x, m),
        is_extraction_sequence(order, m.remove(x), s),
    ensures
        is_extraction_sequence(order, m, seq![x] + s),
{
    let t = seq![x] + s;
    assert(t[0] == x);
    assert(t.drop_first() =~= s);
}

proof fn lemma_extraction_within(order: Order, m: Multiset<i64>, s: Seq<i64>)
    requires
        is_extraction_sequence(order, m, s),
    ensures
        forall|k: int| 0 <= k < s.len() ==> m.contains(#[trigger] s[k]),
    decreases s.len(),
{
    if s.len() > 0 {
        let r = m.remove(s[0]);
        lemma_extraction_within(order, r, s.drop_first());
        assert forall|k: int| 0 <= k < s.len() implies m.contains(#[trigger] s[k]) by {
            if k > 0 {
                assert(s.drop_first()[k - 1] == s[k]);
                assert(r.contains(s[k]));
            }
        }
    }
}

/// Repeated extraction returns the elements in policy order (descending for
/// `Max`, ascending for `Min`): no element precedes one returned before it;
/// and once as many elements were returned as were held, they are exactly the
/// elements held.
pub proof fn lemma_extraction_sorted(order: Order, m: Multiset<i64>, s: Seq<i64>)
    requires
        is_extraction_sequence(order, m, s),
    ensures
        forall|i: int, j: int| 0 <= i < j < s.len() ==> !order.spec_precedes(s[j], s[i]),
        s.len() == m.len() ==> s.to_multiset() == m,
    decreases s.len(),
{
    if s.len() > 0 {
        let r = m.remove(s[0]);
        let t = s.drop_first();
        lemma_extraction_sorted(order, r, t);
        lemma_extraction_within(order, m, s);
        assert forall|i: int, j: int| 0 <= i < j < s.len() implies !order.spec_precedes(
            s[j],
            s[i],
        ) by {
            if i > 0 {
                assert(t[i - 1] == s[i] && t[j - 1] == s[j]);
            } else {
                assert(m.contains(s[j]));
            }
        }
        assert(s =~= t.insert(0, s[0]));
        assert(s.to_multiset() == t.to_multiset().insert(s[0]));
        assert(r.len() == m.len() - 1);
        if s.len() == m.len() {
            assert(s.to_multiset() =~= m);
        }
    } else {
        if m.len() == 0 {
            assert(s.to_multiset() =~= m);
        }
    }
}

/// The edges of `s[0..n)` whose parent lies at or above `lo` hold, except those
/// hanging from `k`; the children of `k` do not precede the parent of `k`.
spec fn heap_below_except(order: Order, s: Seq<i64>, n: int, lo: int, k: int) -> bool {
    &&& forall|j: int|
        0 < j < n && parent(j) >= lo && parent(j) != k ==> !order.spec_precedes(
            #[trigger] s[j],
            s[parent(j)],
        )
    &&& forall|j: int|
        0 < j < n && parent(j) == k && parent(k) >= lo ==> !order.spec_precedes(
            #[trigger] s[j],
            s[parent(k)],
        )
}

/// The edges of `s[0..n)` hold except the one from `k` to its parent; the children
/// of `k` do not precede the parent of `k`.
spec fn heap_except_up(order: Order, s: Seq<i64>, n: int, k: int) -> bool {
    &&& forall|j: int|
        0 < j < n && j != k ==> !order.spec_precedes(#[trigger] s[j], s[parent(j)])
    &&& forall|j: int|
        0 < j < n && parent(j) == k && k > 0 ==> !order.spec_precedes(
            #[trigger] s[j],
            s[parent(k)],
        )
}

proof fn lemma_swap_multiset(s: Seq<i64>, n: int, i: int, j: int)
    requires
        0 <= i < n,
        0 <= j < n,
        n <= s.len(),
    ensures
        s.update(i, s[j]).update(j, s[i]).subrange(0, n).to_multiset() == s.subrange(
            0,
            n,
        ).to_multiset(),
{
    let a = s.subrange(0, n);
    let b = a.update(i, s[j]);
    assert(s.update(i, s[j]).update(j, s[i]).subrange(0, n) =~= b.update(j, s[i]));
    assert(b.update(j, s[i]).to_multiset() =~= a.to_multiset());
}

/// Moving the last element onto the first and dropping the last slot removes
/// exactly the first element.
proof fn lemma_move_last_to_root(s: Seq<i64>)
    requires
        s.len() > 0,
    ensures
        s.update(0, s.last()).subrange(0, s.len() - 1).to_multiset() == s.to_multiset().remove(
            s[0],
        ),
{
    let n = s.len() - 1;
    let u = s.update(0, s[n]);
    let a = u.subrange(0, n);
    assert(u =~= a.push(s[n]));
    assert(u.to_multiset() == s.to_multiset().insert(s[n]).remove(s[0]));
    assert(u.to_multiset() == a.to_multiset().insert(s[n]));
    let m = s.to_multiset();
    assert(m.count(s[0]) > 0);
    assert forall|x: i64| #[trigger] a.to_multiset().count(x) == m.remove(s[0]).count(x) by {
        assert(a.to_multiset().insert(s[n]).count(x) == m.insert(s[n]).remove(s[0]).count(x));
    }
    assert(a.to_multiset() =~= m.remove(s[0]));
}

/// In a heap, no occupied element precedes the root.
proof fn lemma_root_is_top(order: Order, s: Seq<i64>)
    requires
        is_heap(order, s),
        s.len() > 0,
    ensures
        is_top(order, s[0], s.to_multiset()),
{
    assert forall|y: i64| #[trigger] s.to_multiset().contains(y) implies !order.spec_precedes(
        y,
        s[0],
    ) by {
        let k = choose|k: int| 0 <= k < s.len() && s[k] == y;
        lemma_root_dominates(order, s, k);
    }
}

proof fn lemma_root_dominates(order: Order, s: Seq<i64>, k: int)
    requires
        is_heap(order, s),
        0 <= k < s.len(),
    ensures
        !order.spec_precedes(s[k], s[0]),
    decreases k,
{
    if k > 0 {
        lemma_root_dominates(order, s, parent(k));
        assert(!order.spec_precedes(s[k], s[parent(k)]));
    }
}

/// A heap over a caller-owned buffer: the occupied region is `v[0..size)`.
pub struct BinaryHeap<'a> {
    v: &'a mut [i64],
    size: usize,
    order: Order,
}

impl<'a> BinaryHeap<'a> {
    /// The ordering policy fixed at construction.
    pub closed spec fn order(&self) -> Order {
        self.order
    }

    /// The length of the backing buffer.
    pub closed spec fn capacity(&self) -> nat {
        self.v@.len()
    }

    /// The occupied region, in buffer order.
    pub closed spec fn items(&self) -> Seq<i64> {
        self.v@.subrange(0, self.size as int)
    }

    /// The elements held, without regard to position.
    pub open spec fn contents(&self) -> Multiset<i64> {
        self.items().to_multiset()
    }

    /// The occupied region lies within the buffer.
    pub closed spec fn inv(&self) -> bool {
        self.size <= self.v@.len()
    }

    /// The occupied region lies within the buffer and satisfies the heap property.
    pub open spec fn wf(&self) -> bool {
        &&& self.inv()
        &&& is_heap(self.order(), self.items())
    }

    fn swap(&mut self, i: usize, j: usize)
        requires
            i < old(self).v@.len(),
            j < old(self).v@.len(),
        ensures
            final(self).v@ == old(self).v@.update(i as int, old(self).v@[j as int]).update(
                j as int,
                old(self).v@[i as int],
            ),
            final(self).size == old(self).size,
            final(self).order == old(self).order,
    {
        let a = self.v[i];
        let b = self.v[j];
        self.v[i] = b;
        self.v[j] = a;
    }

    /// Moves the element at `node` toward the root until its parent is not
    /// preceded by it.
    fn sift_up(&mut self, node: usize, n: usize)
        requires
            node < n <= old(self).v@.len(),
            old(self).size <= old(self).v@.len(),
            heap_except_up(old(self).order, old(self).v@, n as int, node as int),
        ensures
            final(self).v@.len() == old(self).v@.len(),
            final(self).size == old(self).size,
            final(self).order == old(self).order,
            is_heap(final(self).order, final(self).v@.subrange(0, n as int)),
            final(self).v@.subrange(0, n as int).to_multiset() == old(self).v@.subrange(
                0,
                n as int,
            ).to_multiset(),
            forall|j: int| n <= j < final(self).v@.len() ==> final(self).v@[j] == old(self).v@[j],
            node == 0 || !old(self).order.spec_precedes(
                old(self).v@[node as int],
                old(self).v@[parent(node as int)],
            ) ==> final(self).v@ == old(self).v@,
    {
        let ghost size0 = self.size;
        let ghost s0 = self.v@;
        let ghost o = self.order;
        let mut k: usize = node;
        while k > 0
            invariant
                k < n <= self.v@.len(),
                self.size == size0,
                size0 == old(self).size,
                node < old(self).v@.len(),
                self.order == old(self).order,
                self.v@.len() == old(self).v@.len(),
                heap_except_up(self.order, self.v@, n as int, k as int),
                self.v@.subrange(0, n as int).to_multiset() == old(self).v@.subrange(
                    0,
                    n as int,
                ).to_multiset(),
                forall|j: int| n <= j < self.v@.len() ==> self.v@[j] == old(self).v@[j],
                s0 == old(self).v@,
                k <= node,
                o == self.order,
                k < node ==> o.spec_precedes(s0[node as int], s0[parent(node as int)]),
                k == node ==> self.v@ == s0,
            decreases k,
        {
            let p: usize = (k - 1) / 2;
            if !self.order.precedes(self.v[k], self.v[p]) {
                assert(self.v@.subrange(0, n as int)[k as int] == self.v@[k as int]);
                return;
            }
            let ghost s = self.v@;
            assert(self.order.spec_precedes(s[k as int], s[parent(k as int)]));
            self.swap(k, p);
            proof {
                lemma_swap_multiset(s, n as int, k as int, p as int);
                assert(heap_except_up(self.order, self.v@, n as int, p as int)) by {
                    assert forall|j: int| 0 < j < n && j != p implies !self.order.spec_precedes(
                        #[trigger] self.v@[j],
                        self.v@[parent(j)],
                    ) by {
                        if j == k {
                        } else if parent(j) == k {
                        } else if parent(j) == p {
                            assert(!self.order.spec_precedes(s[j], s[p as int]));
                        }
                    }
                    assert forall|j: int|
                        0 < j < n && parent(j) == p && p > 0 implies !self.order.spec_precedes(
                        #[trigger] self.v@[j],
                        self.v@[parent(p as int)],
                    ) by {
                        assert(!self.order.spec_precedes(s[p as int], s[parent(p as int)]));
                        if j != k {
                            assert(!self.order.spec_precedes(s[j], s[p as int]));
                        }
                    }
                }
            }
            k = p;
        }
    }

    /// Moves the element at `lo` down the tree, swapping it with the child that
    /// precedes it (the left child on a tie), until no child precedes it.
    fn sift_down(&mut self, lo: usize)
        requires
            old(self).size <= old(self).v@.len(),
            lo < old(self).size,
            heap_below_except(old(self).order, old(self).v@, old(self).size as int, lo as int, lo as int),
        ensures
            final(self).v@.len() == old(self).v@.len(),
            final(self).size == old(self).size,
            final(self).order == old(self).order,
            forall|j: int|
                0 < j < final(self).size && parent(j) >= lo ==> !final(self).order.spec_precedes(
                    #[trigger] final(self).v@[j],
                    final(self).v@[parent(j)],
                ),
            forall|j: int|
                0 < j < final(self).size && parent(j) < lo && j != lo ==> final(self).v@[j] == old(self).v@[j],
            final(self).contents() == old(self).contents(),
            forall|j: int|
                final(self).size <= j < final(self).v@.len() ==> final(self).v@[j] == old(self).v@[j],
    {
        let n = self.size;
        let mut k: usize = lo;
        loop
            invariant
                lo <= k < n,
                n == self.size,
                n <= self.v@.len(),
                self.order == old(self).order,
                self.v@.len() == old(self).v@.len(),
                heap_below_except(self.order, self.v@, n as int, lo as int, k as int),
                self.contents() == old(self).contents(),
                forall|j: int| n <= j < self.v@.len() ==> self.v@[j] == old(self).v@[j],
                forall|j: int| 0 <= j < n && j < lo ==> self.v@[j] == old(self).v@[j],
                n == old(self).size,
                k == lo || parent(k as int) >= lo,
                forall|j: int|
                    0 < j < n && parent(j) < lo && j != lo ==> self.v@[j] == old(self).v@[j],
            decreases n - k,
        {
            if k >= n / 2 {
                // `k` is a leaf
                return;
            }
            let left = 2 * k + 1;
            let right = left + 1;
            let mut best = k;
            if self.order.precedes(self.v[left], self.v[k]) {
                best = left;
            }
            if right < n && self.order.precedes(self.v[right], self.v[best]) {
                best = right;
            }
            if best == k {
                return;
            }
            let ghost s = self.v@;
            self.swap(k, best);
            proof {
                lemma_swap_multiset(s, n as int, k as int, best as int);
                let o = self.order;
                let t = self.v@;
                assert(parent(best as int) == k);
                assert forall|j: int| 0 < j < n && parent(j) >= lo && parent(j) != best implies !o.spec_precedes(
                    #[trigger] t[j],
                    t[parent(j)],
                ) by {
                    if j == k {
                    } else if j == best {
                    } else if parent(j) == k {
                        assert(j == left || j == right);
                    }
                }
                assert forall|j: int|
                    0 < j < n && parent(j) == best && parent(best as int) >= lo implies !o.spec_precedes(
                    #[trigger] t[j],
                    t[parent(best as int)],
                ) by {
                    assert(!o.spec_precedes(s[j], s[best as int]));
                }
            }
            k = best;
        }
    }

    /// Restores the heap property over the whole occupied region, processing the
    /// inner nodes from the last one up to the root.
    pub fn build(&mut self)
        requires
            old(self).inv(),
        ensures
            final(self).wf(),
            final(self).order() == old(self).order(),
            final(self).capacity() == old(self).capacity(),
            final(self).items().len() == old(self).items().len(),
            final(self).contents() == old(self).contents(),
    {
        let n = self.size;
        let mut i: usize = n / 2;
        while i > 0
            invariant
                i <= n / 2,
                n == self.size,
                n <= self.v@.len(),
                self.order == old(self).order,
                self.v@.len() == old(self).v@.len(),
                self.contents() == old(self).contents(),
                forall|j: int|
                    0 < j < n && parent(j) >= i ==> !self.order.spec_precedes(
                        #[trigger] self.v@[j],
                        self.v@[parent(j)],
                    ),
            decreases i,
        {
            i = i - 1;
            self.sift_down(i);
        }
        proof {
            let t = self.items();
            assert forall|j: int| 0 < j < t.len() implies !self.order.spec_precedes(
                #[trigger] t[j],
                t[parent(j)],
            ) by {
                assert(t[j] == self.v@[j]);
            }
        }
    }

    /// An empty heap over `v`; the whole buffer is free.
    pub fn new(v: &'a mut [i64], order: Order) -> (r: Self)
        ensures
            r.wf(),
            r.items() == Seq::<i64>::empty(),
            r.capacity() == old(v)@.len(),
            r.order() == order,
    {
        let r = BinaryHeap { v, size: 0, order };
        assert(r.items() =~= Seq::<i64>::empty());
        r
    }

    /// A heap over the first `size` elements already in `v`, arranged by `build`.
    pub fn new_with(v: &'a mut [i64], size: usize, order: Order) -> (r: Result<Self, HeapError>)
        ensures
            r is Err <==> size > old(v)@.len(),
            r is Err ==> r == Err::<Self, HeapError>(HeapError::CapacityExceeded),
            r matches Ok(h) ==> {
                &&& h.wf()
                &&& h.order() == order
                &&& h.capacity() == old(v)@.len()
                &&& h.items().len() == size
                &&& h.contents() == old(v)@.subrange(0, size as int).to_multiset()
            },
    {
        if size > v.len() {
            return Err(HeapError::CapacityExceeded);
        }
        let mut heap = BinaryHeap { v, size, order };
        heap.build();
        Ok(heap)
    }

    /// Whether no element is held.
    pub fn is_empty(&self) -> (r: bool)
        requires
            self.inv(),
        ensures
            r == (self.items().len() == 0),
    {
        self.size == 0
    }

    /// The number of elements held.
    pub fn len(&self) -> (r: usize)
        requires
            self.inv(),
        ensures
            r == self.items().len(),
    {
        self.size
    }

    /// The element at the root, which no held element precedes.
    pub fn peek(&self) -> (r: Option<i64>)
        requires
            self.wf(),
        ensures
            r is None <==> self.items().len() == 0,
            r matches Some(x) ==> x == self.items()[0] && is_top(self.order(), x, self.contents()),
    {
        if self.size == 0 {
            None
        } else {
            proof {
                lemma_root_is_top(self.order, self.items());
            }
            Some(self.v[0])
        }
    }

    /// Removes and returns the element at the root: the last element takes its
    /// place and sinks down.
    pub fn extract(&mut self) -> (r: Option<i64>)
        requires
            old(self).wf(),
        ensures
            final(self).wf(),
            final(self).order() == old(self).order(),
            final(self).capacity() == old(self).capacity(),
            r is None <==> old(self).items().len() == 0,
            r is None ==> final(self).items() == old(self).items(),
            r matches Some(x) ==> {
                &&& x == old(self).items()[0]
                &&& is_top(old(self).order(), x, old(self).contents())
                &&& final(self).contents() == old(self).contents().remove(x)
                &&& final(self).items().len() == old(self).items().len() - 1
            },
    {
        if self.size == 0 {
            return None;
        }
        proof {
            lemma_root_is_top(self.order, self.items());
        }
        let ghost s0 = self.items();
        let top = self.v[0];
        let n = self.size - 1;
        let last = self.v[n];
        self.v[0] = last;
        self.size = n;
        proof {
            assert(self.items() =~= s0.update(0, s0[n as int]).subrange(0, n as int));
            lemma_move_last_to_root(s0);
        }
        if n > 0 {
            proof {
                let t = self.v@;
                assert forall|j: int| 0 < j < n && parent(j) > 0 implies !self.order.spec_precedes(
                    #[trigger] t[j],
                    t[parent(j)],
                ) by {
                    assert(t[j] == s0[j] && t[parent(j)] == s0[parent(j)]);
                }
            }
            self.sift_down(0);
            proof {
                let t = self.items();
                assert forall|j: int| 0 < j < t.len() implies !self.order.spec_precedes(
                    #[trigger] t[j],
                    t[parent(j)],
                ) by {
                    assert(t[j] == self.v@[j]);
                }
            }
        }
        Some(top)
    }

    /// Adds `key` in the first free slot and lets it rise toward the root.
    pub fn insert(&mut self, key: i64) -> (r: Result<(), HeapError>)
        requires
            old(self).wf(),
        ensures
            final(self).wf(),
            final(self).order() == old(self).order(),
            final(self).capacity() == old(self).capacity(),
            r is Err <==> old(self).items().len() == old(self).capacity(),
            r is Err ==> r == Err::<(), HeapError>(HeapError::CapacityExceeded) && final(self).items()
                == old(self).items(),
            r is Ok ==> final(self).contents() == old(self).contents().insert(key)
                && final(self).items().len() == old(self).items().len() + 1,
    {
        let n = self.size;
        if n == self.v.len() {
            return Err(HeapError::CapacityExceeded);
        }
        let ghost s0 = self.items();
        self.v[n] = key;
        proof {
            assert(self.v@.subrange(0, n + 1) =~= s0.push(key));
            let t = self.v@;
            assert forall|j: int| 0 < j < n + 1 && j != n implies !self.order.spec_precedes(
                #[trigger] t[j],
                t[parent(j)],
            ) by {
                assert(t[j] == s0[j] && t[parent(j)] == s0[parent(j)]);
            }
        }
        self.sift_up(n, n + 1);
        self.size = n + 1;
        proof {
            let t = self.items();
            assert(t =~= self.v@.subrange(0, n + 1));
        }
        Ok(())
    }

    /// Replaces the element at `i` with `key`, provided `key` precedes it or
    /// equals it, and lets it rise toward the root.
    pub fn update_key(&mut self, i: usize, key: i64) -> (r: Result<(), HeapError>)
        requires
            old(self).wf(),
        ensures
            final(self).wf(),
            final(self).order() == old(self).order(),
            final(self).capacity() == old(self).capacity(),
            final(self).items().len() == old(self).items().len(),
            r is Ok <==> i < old(self).items().len() && (old(self).order().spec_precedes(
                key,
                old(self).items()[i as int],
            ) || key == old(self).items()[i as int]),
            r is Err ==> final(self).items() == old(self).items(),
            i >= old(self).items().len() ==> r == Err::<(), HeapError>(HeapError::IndexOutOfRange),
            i < old(self).items().len() && r is Err ==> r == Err::<(), HeapError>(
                HeapError::UpdateRejected,
            ),
            r is Ok ==> final(self).contents() == old(self).contents().insert(key).remove(
                old(self).items()[i as int],
            ),
            r is Ok && key == old(self).items()[i as int] ==> final(self).items() == old(
                self,
            ).items(),
    {
        if i >= self.size {
            return Err(HeapError::IndexOutOfRange);
        }
        let cur = self.v[i];
        if !(self.order.precedes(key, cur) || key == cur) {
            return Err(HeapError::UpdateRejected);
        }
        let n = self.size;
        let ghost s0 = self.items();
        let ghost v0 = self.v@;
        self.v[i] = key;
        proof {
            assert(self.v@.subrange(0, n as int) =~= s0.update(i as int, key));
            let t = self.v@;
            let o = self.order;
            assert forall|j: int| 0 < j < n && j != i implies !o.spec_precedes(
                #[trigger] t[j],
                t[parent(j)],
            ) by {
                assert(!o.spec_precedes(s0[j], s0[parent(j)]));
            }
            assert forall|j: int| 0 < j < n && parent(j) == i && i > 0 implies !o.spec_precedes(
                #[trigger] t[j],
                t[parent(i as int)],
            ) by {
                assert(!o.spec_precedes(s0[j], s0[i as int]));
                assert(!o.spec_precedes(s0[i as int], s0[parent(i as int)]));
            }
            if key == cur {
                assert(t =~= v0);
                if i > 0 {
                    assert(!o.spec_precedes(s0[i as int], s0[parent(i as int)]));
                }
            }
        }
        self.sift_up(i, n);
        proof {
            assert(self.items() =~= self.v@.subrange(0, n as int));
        }
        Ok(())
    }
}

} // verus!
