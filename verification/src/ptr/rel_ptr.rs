//! Self-relative pointers: a signed distance from the pointer's own
//! address to its target, so that a mapped region can be attached at any
//! base address.  Addresses are plain 64-bit numbers here and the
//! arithmetic wraps, as address arithmetic does.

use vstd::prelude::*;
use core::marker::PhantomData;

verus! {

#[derive(Debug, PartialEq, Eq)]
pub struct RelPtr<T> {
    offset: i64,
    _marker: PhantomData<T>,
}

/// `x - y` modulo 2^64.
pub open spec fn addr_sub(x: u64, y: u64) -> u64 {
    if x >= y {
        (x - y) as u64
    } else {
        (x - y + 0x1_0000_0000_0000_0000) as u64
    }
}

/// `x + y` modulo 2^64.
pub open spec fn addr_add(x: u64, y: u64) -> u64 {
    if x + y > u64::MAX {
        (x + y - 0x1_0000_0000_0000_0000) as u64
    } else {
        (x + y) as u64
    }
}

/// The signed distance a relative pointer stores to reach `target` from `this`.
pub open spec fn distance(this: u64, target: u64) -> i64 {
    addr_sub(target, this) as i64
}

/// Where a relative pointer stored at `this` with distance `offset` points.
pub open spec fn resolved(this: u64, offset: i64) -> Option<u64> {
    if offset == 0 {
        None
    } else if addr_add(this, offset as u64) == 0 {
        None
    } else {
        Some(addr_add(this, offset as u64))
    }
}

impl<T> Clone for RelPtr<T> {
    fn clone(&self) -> (r: Self)
        ensures
            r == *self,
    {
        RelPtr { offset: self.offset, _marker: PhantomData }
    }
}

impl<T> Copy for RelPtr<T> {

}

impl<T> RelPtr<T> {
    pub closed spec fn spec_offset(&self) -> i64 {
        self.offset
    }

    pub fn null() -> (r: RelPtr<T>)
        ensures
            r.spec_offset() == 0,
    {
        RelPtr { offset: 0, _marker: PhantomData }
    }

    pub fn is_null(&self) -> (r: bool)
        ensures
            r == (self.spec_offset() == 0),
    {
        self.offset == 0
    }

    /// The relative pointer that, stored at address `this`, reaches `target`.
    pub fn from_ptr(this: u64, target: u64) -> (r: RelPtr<T>)
        ensures
            r.spec_offset() == distance(this, target),
    {
        let delta = target.wrapping_sub(this);
        RelPtr { offset: delta as i64, _marker: PhantomData }
    }

    /// The target of this pointer when it is stored at address `this`;
    /// `None` for a null pointer or a target at address 0.
    pub fn resolve(&self, this: u64) -> (r: Option<u64>)
        ensures
            r == resolved(this, self.spec_offset()),
    {
        if self.is_null() {
            return None;
        }
        let target = this.wrapping_add(self.offset as u64);
        if target == 0 {
            None
        } else {
            Some(target)
        }
    }

    #[verifier::when_used_as_spec(spec_offset)]
    pub fn raw_offset(&self) -> (r: i64)
        ensures
            r == self.spec_offset(),
    {
        self.offset
    }

    /// The size of a relative pointer in memory.
    pub fn byte_size() -> (r: usize)
        ensures
            r as nat == vstd::layout::size_of::<RelPtr<T>>(),
    {
        core::mem::size_of::<RelPtr<T>>()
    }
}

/// A distance reinterpreted as unsigned is the unsigned difference.
proof fn lemma_distance_bits(this: u64, target: u64)
    ensures
        distance(this, target) as u64 == addr_sub(target, this),
{
    let d = addr_sub(target, this);
    assert((d as i64) as u64 == d) by (bit_vector);
}

/// Storing a pointer to `target` at `this` and resolving it there gives back
/// `target`, unless the pointer would be null (target at `this`) or the
/// target is address 0.
pub proof fn law_rel_ptr_roundtrip(this: u64, target: u64)
    requires
        target != this,
        target != 0,
    ensures
        resolved(this, distance(this, target)) == Some(target),
{
    lemma_distance_bits(this, target);
    assert(distance(this, target) != 0) by {
        let d = addr_sub(target, this);
        assert(d != 0);
        assert(d != 0 ==> (d as i64) != 0) by (bit_vector);
    }
}

/// Moving the pointer and its target by the same amount (attaching the region
/// at another base) moves the resolved address by that amount too.
pub proof fn law_rel_ptr_relocates(this: u64, target: u64, shift: u64)
    requires
        target != this,
        addr_add(target, shift) != 0,
    ensures
        resolved(addr_add(this, shift), distance(this, target)) == Some(addr_add(target, shift)),
{
    lemma_distance_bits(this, target);
    let d = addr_sub(target, this);
    assert(d != 0 ==> (d as i64) != 0) by (bit_vector);
    assert(addr_add(addr_add(this, shift), d) == addr_add(target, shift));
}

} // verus!
