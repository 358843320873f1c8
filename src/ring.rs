use std::collections::VecDeque;
use vstd::prelude::*;

verus! {

/// The last `min(cap, s.len())` elements of `s`, in order.
pub open spec fn keep_last<T>(s: Seq<T>, cap: nat) -> Seq<T> {
    if s.len() <= cap {
        s
    } else {
        s.subrange(s.len() - cap, s.len() as int)
    }
}

/// What a buffer of capacity `cap` holds after pushing each element of `xs`,
/// in order, onto a buffer that held `start`.
pub open spec fn push_all<T>(start: Seq<T>, xs: Seq<T>, cap: nat) -> Seq<T>
    decreases xs.len(),
{
    if xs.len() == 0 {
        start
    } else {
        keep_last(push_all(start, xs.drop_last(), cap).push(xs.last()), cap)
    }
}

/// A bounded first-in first-out buffer: once `capacity` elements are held,
/// each new element evicts the oldest one.
pub struct RingBuffer<T> {
    items: VecDeque<T>,
    capacity: usize,
}

impl<T> RingBuffer<T> {
    pub closed spec fn spec_capacity(&self) -> nat {
        self.capacity as nat
    }

    /// The retained elements, oldest first.
    pub closed spec fn view(&self) -> Seq<T> {
        self.items@
    }

    #[verifier::type_invariant]
    spec fn wf(&self) -> bool {
        self.items@.len() <= self.capacity
    }

    pub fn new(capacity: usize) -> (r: Self)
        ensures
            r.view() == Seq::<T>::empty(),
            r.spec_capacity() == capacity,
    {
        RingBuffer { items: VecDeque::new(), capacity }
    }

    pub fn capacity(&self) -> (r: usize)
        ensures
            r == self.spec_capacity(),
    {
        self.capacity
    }

    pub fn len(&self) -> (r: usize)
        ensures
            r == self.view().len(),
    {
        self.items.len()
    }

    /// Appends `x`, first evicting the oldest element when the buffer is full.
    pub fn push(&mut self, x: T)
        ensures
            final(self).view().len() <= final(self).spec_capacity(),
            final(self).spec_capacity() == old(self).spec_capacity(),
            final(self).view() == keep_last(old(self).view().push(x), old(self).spec_capacity()),
    {
        let mut held = RingBuffer { items: VecDeque::new(), capacity: 0 };
        std::mem::swap(self, &mut held);
        proof {
            use_type_invariant(&held);
        }
        let ghost before = held.items@;
        let RingBuffer { mut items, capacity } = held;
        if capacity > 0 {
            if items.len() >= capacity {
                items.pop_front();
            }
            items.push_back(x);
        }
        proof {
            let s = before.push(x);
            if capacity == 0 {
                assert(items@ =~= s.subrange(s.len() - capacity, s.len() as int));
            } else if s.len() > capacity {
                assert(items@ =~= s.subrange(s.len() - capacity, s.len() as int));
            } else {
                assert(items@ =~= s);
            }
        }
        *self = RingBuffer { items, capacity };
    }

    /// The retained elements, oldest first, for a caller to copy.
    pub fn contents(&self) -> (r: &VecDeque<T>)
        ensures
            r@ == self.view(),
    {
        &self.items
    }
}

proof fn lemma_keep_last_push<T>(s: Seq<T>, x: T, cap: nat)
    ensures
        keep_last(keep_last(s, cap).push(x), cap) =~= keep_last(s.push(x), cap),
{
}

/// Eviction: starting from an empty buffer of capacity `cap`, any sequence of
/// pushes leaves at most `cap` elements, and they are exactly the most
/// recently pushed `min(cap, xs.len())` elements in push order.
pub proof fn lemma_eviction<T>(xs: Seq<T>, cap: nat)
    ensures
        push_all(Seq::<T>::empty(), xs, cap).len() <= cap,
        push_all(Seq::<T>::empty(), xs, cap) == keep_last(xs, cap),
    decreases xs.len(),
{
    if xs.len() > 0 {
        lemma_eviction(xs.drop_last(), cap);
        lemma_keep_last_push(xs.drop_last(), xs.last(), cap);
        assert(xs.drop_last().push(xs.last()) =~= xs);
    }
}

} // verus!
