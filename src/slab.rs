use vstd::prelude::*;

verus! {

/// A block of storage whose capacity is fixed when it is made.
///
/// Elements sit at positions `0 .. len()` in the order they were appended;
/// nothing ever grows the block past its capacity.
pub struct Slab<T> {
    items: Vec<T>,
    capacity: usize,
}

impl<T> View for Slab<T> {
    type V = Seq<T>;

    /// The elements held, in order.
    closed spec fn view(&self) -> Seq<T> {
        self.items@
    }
}

impl<T> Slab<T> {
    /// The capacity fixed at creation.
    pub closed spec fn cap(&self) -> nat {
        self.capacity as nat
    }

    /// A block never holds more than its capacity.
    pub open spec fn wf(&self) -> bool {
        self@.len() <= self.cap()
    }

    pub open spec fn spec_is_full(&self) -> bool {
        self@.len() == self.cap()
    }

    /// An empty block with room for exactly `capacity` elements.
    pub fn new(capacity: usize) -> (s: Self)
        ensures
            s@ == Seq::<T>::empty(),
            s.cap() == capacity,
            s.wf(),
    {
        Slab { items: Vec::with_capacity(capacity), capacity }
    }

    pub fn len(&self) -> (n: usize)
        ensures
            n == self@.len(),
    {
        self.items.len()
    }

    pub fn capacity(&self) -> (c: usize)
        ensures
            c == self.cap(),
    {
        self.capacity
    }

    pub fn is_full(&self) -> (b: bool)
        ensures
            b == self.spec_is_full(),
    {
        self.items.len() == self.capacity
    }

    /// Appends one element and returns its position.
    pub fn push(&mut self, value: T) -> (pos: usize)
        requires
            old(self)@.len() < old(self).cap(),
        ensures
            final(self)@ == old(self)@.push(value),
            final(self).cap() == old(self).cap(),
            pos == old(self)@.len(),
    {
        let pos = self.items.len();
        self.items.push(value);
        pos
    }

    /// Appends every element of `values`, in order.
    pub fn extend(&mut self, values: Vec<T>)
        requires
            old(self)@.len() + values@.len() <= old(self).cap(),
        ensures
            final(self)@ == old(self)@ + values@,
            final(self).cap() == old(self).cap(),
    {
        let mut values = values;
        self.items.append(&mut values);
    }

    /// Moves the elements from position `at` onward, in order, into the empty
    /// block `other`, which must have room for them and one more.
    pub fn split_off_extend(&mut self, at: usize, other: &mut Slab<T>)
        requires
            at <= old(self)@.len(),
            old(other)@.len() == 0,
            old(self)@.len() - at < old(other).cap(),
        ensures
            final(self)@ == old(self)@.subrange(0, at as int),
            final(other)@ == old(self)@.subrange(at as int, old(self)@.len() as int),
            final(self).cap() == old(self).cap(),
            final(other).cap() == old(other).cap(),
    {
        let mut moved = self.items.split_off(at);
        other.items.append(&mut moved);
    }

    /// The element at position `i`.
    pub fn get(&self, i: usize) -> (r: &T)
        requires
            i < self@.len(),
        ensures
            *r == self@[i as int],
    {
        &self.items[i]
    }

    /// The elements at positions `start .. start + len`.
    pub fn get_slice(&self, start: usize, len: usize) -> (r: &[T])
        requires
            start + len <= self@.len(),
        ensures
            r@ == self@.subrange(start as int, start + len),
    {
        let n: usize = self.items.len();
        let end: usize = start + len;
        vstd::slice::slice_subrange(self.items.as_slice(), start, end)
    }
}

} // verus!
