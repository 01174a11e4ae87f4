//! A bounded ring with per-slot sequence numbers: a slot whose sequence
//! equals the tail is free for the next push, one whose sequence is one past
//! the head holds the next value to pop.

use vstd::prelude::*;
use crate::bits::{is_power_of_two, power_of_two, lemma_mask_is_mod};

verus! {

#[derive(Debug, Clone, Copy, PartialEq, Eq, Structural)]
pub enum RingError {
    InvalidCapacity,
    Full,
    Empty,
}

/// Two positions less than `c` apart fall into different slots.
pub proof fn lemma_window_slots_distinct(k1: int, k2: int, c: int)
    requires
        c > 0,
        0 <= k1 < k2 < k1 + c,
    ensures
        k1 % c != k2 % c,
{
    vstd::arithmetic::div_mod::lemma_fundamental_div_mod(k1, c);
    vstd::arithmetic::div_mod::lemma_fundamental_div_mod(k2, c);
    if k1 % c == k2 % c {
        let d = k2 / c - k1 / c;
        vstd::arithmetic::mul::lemma_mul_is_distributive_sub(c, k2 / c, k1 / c);
        assert(c * d == k2 - k1);
        assert(false) by (nonlinear_arith)
            requires
                c > 0,
                c * d > 0,
                c * d < c,
        ;
    }
}

pub struct SharedRing<T> {
    mask: u64,
    capacity: u64,
    head: u64,
    tail: u64,
    sequences: Vec<u64>,
    values: Vec<Option<T>>,
}

/// What `try_push(value)` does to a well-formed ring `r0`, leaving `r1` and
/// returning `r`: the value is appended while fewer than `capacity` values are
/// queued, and the ring is left as it was with `Full` otherwise.
pub open spec fn push_outcome<T>(r0: SharedRing<T>, r1: SharedRing<T>, value: T, r: Result<(), RingError>) -> bool {
    &&& r1.wf()
    &&& r1.spec_capacity() == r0.spec_capacity()
    &&& r1.popped() == r0.popped()
    &&& r0.queued().len() < r0.spec_capacity() ==> {
        &&& r == Ok::<(), RingError>(())
        &&& r1.queued() == r0.queued().push(value)
        &&& r1.pushed() == r0.pushed() + 1
    }
    &&& r0.queued().len() >= r0.spec_capacity() ==> {
        &&& r == Err::<(), RingError>(RingError::Full)
        &&& r1.queued() == r0.queued()
        &&& r1.pushed() == r0.pushed()
    }
}

/// A ring that starts empty accepts `capacity` pushes in a row: when
/// `rings[i + 1]` is what pushing `values[i]` into `rings[i]` leaves, with
/// result `results[i]`, and at most `capacity` values are pushed, every push
/// succeeds and the ring then holds exactly the values pushed, in order.
/// Once `capacity` values are in, the next push is refused as `Full`.
pub proof fn law_empty_ring_accepts_capacity_pushes<T>(
    rings: Seq<SharedRing<T>>,
    values: Seq<T>,
    results: Seq<Result<(), RingError>>,
)
    requires
        rings.len() == values.len() + 1,
        results.len() == values.len(),
        rings[0].wf(),
        rings[0].queued().len() == 0,
        values.len() <= rings[0].spec_capacity(),
        forall|i: int|
            0 <= i < values.len() ==> #[trigger] push_outcome(rings[i], rings[i + 1], values[i], results[i]),
    ensures
        forall|i: int| 0 <= i < values.len() ==> #[trigger] results[i] == Ok::<(), RingError>(()),
        rings.last().queued() == values,
        rings.last().spec_capacity() == rings[0].spec_capacity(),
        values.len() == rings[0].spec_capacity() ==> rings.last().queued().len() == rings.last().spec_capacity(),
    decreases values.len(),
{
    let n = values.len() as int;
    if n == 0 {
        assert(rings.last().queued() =~= values);
    } else {
        let rs = rings.drop_last();
        let vs = values.drop_last();
        let os = results.drop_last();
        assert forall|i: int| 0 <= i < vs.len() implies #[trigger] push_outcome(rs[i], rs[i + 1], vs[i], os[i]) by {
            assert(push_outcome(rings[i], rings[i + 1], values[i], results[i]));
        }
        law_empty_ring_accepts_capacity_pushes(rs, vs, os);
        assert(rs.last() == rings[n - 1]);
        assert(push_outcome(rings[n - 1], rings[n], values[n - 1], results[n - 1]));
        assert(rings.last().queued() =~= values);
        assert forall|i: int| 0 <= i < n implies #[trigger] results[i] == Ok::<(), RingError>(()) by {
            if i < n - 1 {
                assert(os[i] == results[i]);
            }
        }
    }
}

impl<T> SharedRing<T> {
    pub closed spec fn spec_capacity(&self) -> nat {
        self.capacity as nat
    }

    /// Number of values pushed so far.
    pub closed spec fn pushed(&self) -> nat {
        self.tail as nat
    }

    /// Number of values popped so far.
    pub closed spec fn popped(&self) -> nat {
        self.head as nat
    }

    /// The slot that logical position `k` lives in.
    closed spec fn slot(&self, k: int) -> int {
        k % (self.capacity as int)
    }

    /// The queued values, oldest first.
    pub closed spec fn queued(&self) -> Seq<T> {
        Seq::new(
            (self.tail - self.head) as nat,
            |k: int|
                match self.values@[self.slot(self.head + k)] {
                    Some(v) => v,
                    None => arbitrary(),
                },
        )
    }

    pub closed spec fn wf(&self) -> bool {
        &&& self.capacity >= 2
        &&& self.capacity <= usize::MAX
        &&& is_power_of_two(self.capacity)
        &&& self.mask == self.capacity - 1
        &&& self.sequences@.len() == self.capacity
        &&& self.values@.len() == self.capacity
        &&& self.head <= self.tail <= self.head + self.capacity
        &&& self.tail + self.capacity <= u64::MAX
        &&& forall|k: int|
            self.head <= k < self.tail ==> {
                &&& #[trigger] self.sequences@[self.slot(k)] == k + 1
                &&& self.values@[self.slot(k)] is Some
            }
        &&& forall|k: int|
            self.tail <= k < self.head + self.capacity ==> #[trigger] self.sequences@[self.slot(k)]
                == k
    }

    /// A well-formed ring never holds more values than it has slots.
    pub proof fn lemma_queued_bounded(&self)
        requires
            self.wf(),
        ensures
            self.queued().len() <= self.spec_capacity(),
            self.spec_capacity() >= 2,
    {
    }

    /// A ring of `capacity` slots; the capacity must be a power of two
    /// greater than one.
    pub fn with_capacity(capacity: usize) -> (r: Result<SharedRing<T>, RingError>)
        ensures
            (capacity <= 1 || !is_power_of_two(capacity as u64)) ==> r == Err::<
                SharedRing<T>,
                RingError,
            >(RingError::InvalidCapacity),
            !(capacity <= 1 || !is_power_of_two(capacity as u64)) ==> (r matches Ok(ring) && {
                &&& ring.wf()
                &&& ring.spec_capacity() == capacity
                &&& ring.queued() == Seq::<T>::empty()
                &&& ring.pushed() == 0
                &&& ring.popped() == 0
            }),
    {
        if capacity <= 1 || !power_of_two(capacity as u64) {
            return Err(RingError::InvalidCapacity);
        }
        let cap = capacity as u64;
        let mut sequences: Vec<u64> = Vec::new();
        let mut values: Vec<Option<T>> = Vec::new();
        let mut i: u64 = 0;
        while i < cap
            invariant
                i <= cap,
                sequences@.len() == i,
                values@.len() == i,
                forall|j: int| 0 <= j < i ==> #[trigger] sequences@[j] == j,
            decreases cap - i,
        {
            sequences.push(i);
            values.push(None);
            i = i + 1;
        }
        let ring = SharedRing { mask: cap - 1, capacity: cap, head: 0, tail: 0, sequences, values };
        proof {
            assert forall|k: int| 0 <= k < cap implies #[trigger] ring.sequences@[ring.slot(k)] == k by {
                vstd::arithmetic::div_mod::lemma_small_mod(k as nat, cap as nat);
            }
            assert(ring.queued() =~= Seq::<T>::empty());
        }
        Ok(ring)
    }

    /// Appends `value` unless the ring is full.
    pub fn try_push(&mut self, value: T) -> (r: Result<(), RingError>)
        requires
            old(self).wf(),
            old(self).pushed() + old(self).spec_capacity() < u64::MAX,
        ensures
            final(self).wf(),
            final(self).spec_capacity() == old(self).spec_capacity(),
            final(self).popped() == old(self).popped(),
            old(self).queued().len() < old(self).spec_capacity() ==> {
                &&& r == Ok::<(), RingError>(())
                &&& final(self).queued() == old(self).queued().push(value)
                &&& final(self).pushed() == old(self).pushed() + 1
            },
            old(self).queued().len() == old(self).spec_capacity() ==> {
                &&& r == Err::<(), RingError>(RingError::Full)
                &&& final(self).queued() == old(self).queued()
                &&& final(self).pushed() == old(self).pushed()
            },
            push_outcome(*old(self), *final(self), value, r),
    {
        let tail = self.tail;
        proof {
            lemma_mask_is_mod(tail, self.capacity);
        }
        let idx = (tail & self.mask) as usize;
        assert(idx as int == self.slot(tail as int));
        let sequence = self.sequences[idx];
        if sequence == tail {
            assert(tail < self.head + self.capacity) by {
                if tail == self.head + self.capacity {
                    assert(self.sequences@[self.slot(self.head as int)] == self.head + 1);
                    assert(self.slot(self.head as int) == self.slot(tail as int)) by {
                        vstd::arithmetic::div_mod::lemma_mod_add_multiples_vanish(
                            self.head as int,
                            self.capacity as int,
                        );
                    }
                }
            }
            let ghost before = *self;
            self.values.set(idx, Some(value));
            self.sequences.set(idx, tail + 1);
            self.tail = tail + 1;
            proof {
                let c = self.capacity as int;
                assert forall|k: int| self.head <= k < self.tail implies {
                    &&& #[trigger] self.sequences@[self.slot(k)] == k + 1
                    &&& self.values@[self.slot(k)] is Some
                } by {
                    if k < tail {
                        lemma_window_slots_distinct(k, tail as int, c);
                        assert(before.sequences@[before.slot(k)] == k + 1);
                        assert(before.values@[before.slot(k)] is Some);
                    }
                }
                assert forall|k: int| self.tail <= k < self.head + self.capacity implies #[trigger] self.sequences@[self.slot(k)] == k by {
                    lemma_window_slots_distinct(tail as int, k, c);
                    assert(before.sequences@[before.slot(k)] == k);
                }
                assert forall|k: int| 0 <= k < before.queued().len() implies self.queued()[k] == before.queued()[k] by {
                    lemma_window_slots_distinct(self.head + k, tail as int, c);
                }
                assert(self.queued() =~= before.queued().push(value));
            }
            Ok(())
        } else {
            proof {
                if tail < self.head + self.capacity {
                    assert(self.sequences@[self.slot(tail as int)] == tail);
                }
            }
            Err(RingError::Full)
        }
    }

    /// Removes and returns the oldest value unless the ring is empty.
    pub fn try_pop(&mut self) -> (r: Result<T, RingError>)
        requires
            old(self).wf(),
        ensures
            final(self).wf(),
            final(self).spec_capacity() == old(self).spec_capacity(),
            final(self).pushed() == old(self).pushed(),
            old(self).queued().len() > 0 ==> {
                &&& r == Ok::<T, RingError>(old(self).queued()[0])
                &&& final(self).queued() == old(self).queued().drop_first()
                &&& final(self).popped() == old(self).popped() + 1
            },
            old(self).queued().len() == 0 ==> {
                &&& r == Err::<T, RingError>(RingError::Empty)
                &&& final(self).queued() == old(self).queued()
                &&& final(self).popped() == old(self).popped()
            },
    {
        let head = self.head;
        proof {
            lemma_mask_is_mod(head, self.capacity);
        }
        let idx = (head & self.mask) as usize;
        assert(idx as int == self.slot(head as int));
        let sequence = self.sequences[idx];
        if sequence == head + 1 {
            assert(head < self.tail) by {
                if head == self.tail {
                    assert(self.sequences@[self.slot(head as int)] == head);
                }
            }
            let ghost before = *self;
            self.values.push(None);
            let taken = self.values.swap_remove(idx);
            proof {
                assert(self.values@ =~= before.values@.update(idx as int, None));
            }
            let value = match taken {
                Some(v) => v,
                None => {
                    proof {
                        assert(before.values@[before.slot(head as int)] is Some);
                    }
                    assert(false);
                    return Err(RingError::Empty);
                },
            };
            self.sequences.set(idx, head + self.capacity);
            self.head = head + 1;
            proof {
                let c = self.capacity as int;
                assert forall|k: int| self.head <= k < self.tail implies {
                    &&& #[trigger] self.sequences@[self.slot(k)] == k + 1
                    &&& self.values@[self.slot(k)] is Some
                } by {
                    lemma_window_slots_distinct(head as int, k, c);
                    assert(before.sequences@[before.slot(k)] == k + 1);
                    assert(before.values@[before.slot(k)] is Some);
                }
                assert forall|k: int| self.tail <= k < self.head + self.capacity implies #[trigger] self.sequences@[self.slot(k)] == k by {
                    if k < head + c {
                        lemma_window_slots_distinct(head as int, k, c);
                        assert(before.sequences@[before.slot(k)] == k);
                    } else {
                        vstd::arithmetic::div_mod::lemma_mod_add_multiples_vanish(head as int, c);
                    }
                }
                assert forall|k: int| 0 <= k < self.queued().len() implies self.queued()[k] == before.queued()[k + 1] by {
                    lemma_window_slots_distinct(head as int, head + 1 + k, c);
                }
                assert(self.queued() =~= before.queued().drop_first());
            }
            Ok(value)
        } else {
            proof {
                if head < self.tail {
                    assert(self.sequences@[self.slot(head as int)] == head + 1);
                }
            }
            Err(RingError::Empty)
        }
    }

    #[verifier::when_used_as_spec(spec_capacity_usize)]
    pub fn capacity(&self) -> (r: usize)
        requires
            self.wf(),
        ensures
            r as nat == self.spec_capacity(),
    {
        self.capacity as usize
    }

    pub closed spec fn spec_capacity_usize(&self) -> usize {
        self.capacity as usize
    }

    /// Number of values currently queued.
    pub fn len_estimate(&self) -> (r: usize)
        requires
            self.wf(),
        ensures
            r as nat == self.queued().len(),
    {
        self.tail.saturating_sub(self.head) as usize
    }
}

} // verus!
