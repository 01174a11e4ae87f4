//! Typed, generation-checked offsets into an arena.

use vstd::prelude::*;
use core::marker::PhantomData;

verus! {

/// An offset into an arena together with the generation the slot had when
/// the handle was issued.
#[derive(Debug, PartialEq, Eq, Hash)]
pub struct Handle<T> {
    offset: u64,
    generation: u64,
    _marker: PhantomData<T>,
}

impl<T> Clone for Handle<T> {
    fn clone(&self) -> (r: Self)
        ensures
            r == *self,
    {
        Handle { offset: self.offset, generation: self.generation, _marker: PhantomData }
    }
}

impl<T> Copy for Handle<T> {

}

impl<T> Handle<T> {
    pub closed spec fn spec_offset(&self) -> u64 {
        self.offset
    }

    pub closed spec fn spec_generation(&self) -> u64 {
        self.generation
    }

    pub fn from_parts(offset: u64, generation: u64) -> (r: Handle<T>)
        ensures
            r.spec_offset() == offset,
            r.spec_generation() == generation,
    {
        Handle { offset, generation, _marker: PhantomData }
    }

    /// A handle of the first generation.
    pub fn from_offset(offset: u64) -> (r: Handle<T>)
        ensures
            r.spec_offset() == offset,
            r.spec_generation() == 1,
    {
        Self::from_parts(offset, 1)
    }

    #[verifier::when_used_as_spec(spec_offset)]
    pub fn offset(&self) -> (r: u64)
        ensures
            r == self.spec_offset(),
    {
        self.offset
    }

    #[verifier::when_used_as_spec(spec_generation)]
    pub fn generation(&self) -> (r: u64)
        ensures
            r == self.spec_generation(),
    {
        self.generation
    }

    /// The same slot, viewed as holding a `U`.
    pub fn cast<U>(&self) -> (r: Handle<U>)
        ensures
            r.spec_offset() == self.spec_offset(),
            r.spec_generation() == self.spec_generation(),
    {
        Handle::<U>::from_parts(self.offset, self.generation)
    }
}

} // verus!
