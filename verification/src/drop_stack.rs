use vstd::prelude::*;
use std::collections::VecDeque;

verus! {

broadcast use vstd::std_specs::vecdeque::group_vec_dequeue_axioms;

/// A capacity-bounded stack ordered by insertion (oldest at the bottom,
/// newest at the top). Pushing onto a full stack never fails: the single
/// oldest element is evicted first, so the length never exceeds the
/// capacity. A zero-capacity stack keeps nothing: every pushed element is
/// discarded immediately.
pub struct DropStack<T> {
    stack: VecDeque<T>,
    max_size: usize,
}

impl<T> View for DropStack<T> {
    type V = Seq<T>;

    /// The elements, oldest first.
    closed spec fn view(&self) -> Seq<T> {
        self.stack@
    }
}

impl<T> DropStack<T> {
    /// The fixed bound set at construction.
    pub closed spec fn capacity(&self) -> usize {
        self.max_size
    }

    /// The length never exceeds the capacity.
    pub open spec fn wf(&self) -> bool {
        self@.len() <= self.capacity()
    }

    /// An empty stack with the given capacity.
    pub fn new(max_size: usize) -> (s: Self)
        ensures
            s.wf(),
            s@ == Seq::<T>::empty(),
            s.capacity() == max_size,
    {
        Self { stack: VecDeque::with_capacity(max_size), max_size }
    }

    /// Appends at the newest end; if the stack is full, the oldest element
    /// is evicted first. On a zero-capacity stack the value is discarded.
    pub fn push_top(&mut self, v: T)
        requires
            old(self).wf(),
        ensures
            final(self).wf(),
            final(self).capacity() == old(self).capacity(),
            old(self).capacity() == 0 ==> final(self)@ == old(self)@,
            old(self).capacity() > 0 && old(self)@.len() < old(self).capacity() ==> final(self)@
                == old(self)@.push(v),
            old(self).capacity() > 0 && old(self)@.len() == old(self).capacity() ==> final(self)@
                == old(self)@.subrange(1, old(self)@.len() as int).push(v),
    {
        if self.max_size == 0 {
            return ;
        }
        if self.stack.len() == self.max_size {
            self.stack.pop_front();
        }
        self.stack.push_back(v);
    }

    /// How many elements the stack currently holds.
    pub fn len(&self) -> (n: usize)
        ensures
            n == self@.len(),
    {
        self.stack.len()
    }

    /// Whether the stack holds no elements.
    pub fn is_empty(&self) -> (b: bool)
        ensures
            b == (self@.len() == 0),
    {
        self.stack.len() == 0
    }

    /// The element at position `i`, counting from the oldest.
    pub fn get(&self, i: usize) -> (r: &T)
        requires
            i < self@.len(),
        ensures
            *r == self@[i as int],
    {
        &self.stack[i]
    }

    /// Removes and returns the newest element, if any.
    pub fn pop_top(&mut self) -> (r: Option<T>)
        ensures
            final(self).capacity() == old(self).capacity(),
            match r {
                Some(v) => old(self)@.len() > 0 && v == old(self)@.last() && final(self)@ == old(
                    self,
                )@.drop_last(),
                None => old(self)@.len() == 0 && final(self)@ == old(self)@,
            },
    {
        self.stack.pop_back()
    }

    /// Removes and returns the oldest element, if any.
    pub fn pop_bottom(&mut self) -> (r: Option<T>)
        ensures
            final(self).capacity() == old(self).capacity(),
            match r {
                Some(v) => old(self)@.len() > 0 && v == old(self)@.first() && final(self)@ == old(
                    self,
                )@.drop_first(),
                None => old(self)@.len() == 0 && final(self)@ == old(self)@,
            },
    {
        self.stack.pop_front()
    }
}

} // verus!
