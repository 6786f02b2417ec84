//! A growable stack, the value store the bytecode side of the project
//! builds on; modelled by the sequence of its elements.

use vstd::prelude::*;

verus! {

broadcast use vstd::seq::group_seq_axioms, vstd::std_specs::vec::group_vec_axioms;

/// A stack of values; the view is the element sequence, bottom first.
#[derive(Debug)]
pub struct Stack<T>(pub Vec<T>);

impl<T> View for Stack<T> {
    type V = Seq<T>;

    open spec fn view(&self) -> Seq<T> {
        self.0@
    }
}

impl<T> Stack<T> {
    /// The empty stack.
    pub fn new() -> (r: Stack<T>)
        ensures
            r@ == Seq::<T>::empty(),
    {
        Stack(Vec::new())
    }

    /// An empty stack with room for `capacity` elements.
    pub fn with_capacity(capacity: usize) -> (r: Stack<T>)
        ensures
            r@ == Seq::<T>::empty(),
    {
        Stack(Vec::with_capacity(capacity))
    }

    /// Removes and returns the top element, if any.
    pub fn pop(&mut self) -> (r: Option<T>)
        ensures
            (match r {
                Some(v) => old(self)@.len() > 0 && v == old(self)@.last() && final(self)@ == old(
                    self,
                )@.drop_last(),
                None => old(self)@.len() == 0 && final(self)@ == old(self)@,
            }),
    {
        self.0.pop()
    }

    /// Removes and returns the top element, if any.
    pub fn try_pop(&mut self) -> (r: Option<T>)
        ensures
            (match r {
                Some(v) => old(self)@.len() > 0 && v == old(self)@.last() && final(self)@ == old(
                    self,
                )@.drop_last(),
                None => old(self)@.len() == 0 && final(self)@ == old(self)@,
            }),
    {
        self.0.pop()
    }

    /// Pushes a value on top.
    pub fn push(&mut self, value: T)
        ensures
            final(self)@ == old(self)@.push(value),
    {
        self.0.push(value);
    }

    /// Splits off and returns everything from `idx` up; the stack keeps
    /// the elements below.
    pub fn split_off(&mut self, idx: usize) -> (r: Vec<T>)
        requires
            idx <= old(self)@.len(),
        ensures
            final(self)@ == old(self)@.subrange(0, idx as int),
            r@ == old(self)@.subrange(idx as int, old(self)@.len() as int),
    {
        self.0.split_off(idx)
    }

    /// The elements from `start` up, topmost last.
    pub fn peek_range(&self, start: usize) -> (r: &[T])
        requires
            start <= self@.len(),
        ensures
            r@ == self@.subrange(start as int, self@.len() as int),
    {
        &self.0[start..self.0.len()]
    }

    /// Keeps the bottom `idx` elements; a no-op when the stack is already
    /// that short.
    pub fn truncate(&mut self, idx: usize)
        ensures
            idx <= old(self)@.len() ==> final(self)@ == old(self)@.subrange(0, idx as int),
            idx > old(self)@.len() ==> final(self)@ == old(self)@,
    {
        self.0.truncate(idx)
    }

    /// Removes every element.
    pub fn clear(&mut self)
        ensures
            final(self)@ == Seq::<T>::empty(),
    {
        self.0.clear();
    }

    /// Moves every element of `other` onto the stack, in order; `other`
    /// is left empty.
    pub fn append_vec(&mut self, other: &mut Vec<T>)
        ensures
            final(self)@ == old(self)@ + old(other)@,
            final(other)@ == Seq::<T>::empty(),
    {
        self.0.append(other)
    }

    /// Overwrites the element at `idx`.
    pub fn set_idx(&mut self, idx: usize, value: T)
        requires
            idx < old(self)@.len(),
        ensures
            final(self)@ == old(self)@.update(idx as int, value),
    {
        let slot = &mut self.0[idx];
        *slot = value;
    }
}

} // verus!
