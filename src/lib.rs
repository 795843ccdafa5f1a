//! A growable arena whose elements stay where they were put.

use vstd::prelude::*;

pub mod laws;
pub mod local;
pub mod local_bulk;
pub mod model;
pub mod slab;

pub use local::Arena;
pub use model::{ArenaView, Handle, SliceHandle};

verus! {

/// A borrowed handle on an [`Arena`] that forwards every operation to it.
pub struct ArenaRef<'a, T> {
    arena: &'a mut Arena<T>,
}

impl<'a, T> ArenaRef<'a, T> {
    /// The arena this handle forwards to.
    pub closed spec fn target(&self) -> Arena<T> {
        *self.arena
    }

    pub fn new(arena: &'a mut Arena<T>) -> (r: Self)
        ensures
            r.target() == *old(arena),
    {
        ArenaRef { arena }
    }

    pub fn len(&self) -> (n: usize)
        ensures
            n == self.target()@.len,
    {
        self.arena.len()
    }

    pub fn is_empty(&self) -> (b: bool)
        ensures
            b == (self.target()@.len == 0),
    {
        self.arena.is_empty()
    }

    /// A shorter-lived handle on the same arena.
    pub fn as_ref(&mut self) -> (r: ArenaRef<'_, T>)
        ensures
            r.target() == old(self).target(),
    {
        ArenaRef { arena: self.arena }
    }

    pub fn insert(&mut self, value: T) -> (h: Handle)
        requires
            old(self).target().wf(),
            old(self).target()@.len < usize::MAX,
        ensures
            final(self).target().wf(),
            final(self).target()@ == old(self).target()@.after_insert(value),
            h == old(self).target()@.insert_handle(),
    {
        self.arena.insert(value)
    }

    pub fn insert_all(&mut self, values: Vec<T>) -> (s: SliceHandle)
        requires
            old(self).target().wf(),
            old(self).target()@.len + values@.len() <= usize::MAX,
        ensures
            final(self).target().wf(),
            final(self).target()@ == old(self).target()@.after_insert_all(values@),
            s == old(self).target()@.insert_all_handle(values@),
    {
        self.arena.insert_all(values)
    }
}

} // verus!
