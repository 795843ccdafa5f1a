use vstd::prelude::*;

use crate::local;
use crate::model::{ArenaView, Handle, SliceHandle};

verus! {

#[verifier::external_type_specification]
#[verifier::external_body]
pub struct ExId<'id>(generativity::Id<'id>);

#[verifier::external_type_specification]
#[verifier::external_body]
pub struct ExGuard<'id>(generativity::Guard<'id>);

/// Relies on generativity's `From<Guard<'id>> for Id<'id>`: a guard gives up
/// the brand it carries. Nothing is claimed of the value.
#[verifier::external_body]
fn brand_of<'id>(guard: generativity::Guard<'id>) -> generativity::Id<'id> {
    guard.into()
}

/// An arena branded with a unique lifetime `'id`, paired with the one
/// [`Token`] of that brand. A bulk insert needs the token exclusively, a
/// single insert only shared, so a token of one arena is never accepted by
/// another.
pub struct Arena<'id, T> {
    arena: local::Arena<T>,
    _id: generativity::Id<'id>,
}

/// The capability to insert into the arena of brand `'id`.
pub struct Token<'id> {
    _id: generativity::Id<'id>,
}

impl<'id, T> Arena<'id, T> {
    /// The arena behind the brand.
    pub closed spec fn inner(&self) -> local::Arena<T> {
        self.arena
    }

    /// An empty arena of the brand that `guard` carries, with its token.
    pub fn new(guard: generativity::Guard<'id>) -> (r: (Self, Token<'id>))
        ensures
            r.0.inner().wf(),
            r.0.inner()@ == ArenaView::<T>::empty(),
    {
        let id = brand_of(guard);
        (Arena { arena: local::Arena::new(), _id: id }, Token { _id: id })
    }

    pub fn len(&self) -> (n: usize)
        ensures
            n == self.inner()@.len,
    {
        self.arena.len()
    }

    pub fn is_empty(&self) -> (b: bool)
        ensures
            b == (self.inner()@.len == 0),
    {
        self.arena.is_empty()
    }

    pub fn insert(&mut self, _token: &Token<'id>, value: T) -> (h: Handle)
        requires
            old(self).inner().wf(),
            old(self).inner()@.len < usize::MAX,
        ensures
            final(self).inner().wf(),
            final(self).inner()@ == old(self).inner()@.after_insert(value),
            h == old(self).inner()@.insert_handle(),
    {
        self.arena.insert(value)
    }

    pub fn insert_all(&mut self, _token: &mut Token<'id>, values: Vec<T>) -> (s: SliceHandle)
        requires
            old(self).inner().wf(),
            old(self).inner()@.len + values@.len() <= usize::MAX,
        ensures
            final(self).inner().wf(),
            final(self).inner()@ == old(self).inner()@.after_insert_all(values@),
            s == old(self).inner()@.insert_all_handle(values@),
    {
        self.arena.insert_all(values)
    }

    /// The element that `h` refers to.
    pub fn get(&self, h: Handle) -> (r: &T)
        requires
            self.inner()@.holds(h),
        ensures
            *r == self.inner()@.at(h),
    {
        self.arena.get(h)
    }

    /// The elements that `s` refers to, in order.
    pub fn get_slice(&self, s: SliceHandle) -> (r: &[T])
        requires
            self.inner()@.holds_slice(s),
        ensures
            r@ == self.inner()@.slice_at(s),
    {
        self.arena.get_slice(s)
    }
}

} // verus!
