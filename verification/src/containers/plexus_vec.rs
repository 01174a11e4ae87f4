//! A vector whose elements are published into an arena one by one; the
//! vector itself only keeps their handles.

use vstd::prelude::*;
use crate::arena::allocator::{ArenaError, SharedArena, FreeBlock, bumped, publication};
use crate::arena::frame::{blocks_sound, slot_in_use, disjoint, lemma_publication_frame, lemma_release_frame};
use crate::arena::header::ARENA_HEADER_SIZE;
use crate::arena::layout::ArenaLayout;
use crate::codec::ArenaValue;
use crate::ptr::handle::Handle;

verus! {

#[derive(Debug, Clone, Copy, PartialEq, Eq, Structural)]
pub enum PlexusVecError {
    Arena(ArenaError),
    Poisoned,
}

pub struct PlexusVec<T> {
    arena: SharedArena,
    handles: Vec<Handle<T>>,
}

/// The layout of a `T`, as a spec value.
pub open spec fn layout_of<T: ArenaValue>() -> ArenaLayout {
    ArenaLayout { size: T::spec_size() as usize, align: T::spec_align() as usize }
}

impl<T: ArenaValue> PlexusVec<T> {
    pub closed spec fn arena_view(&self) -> SharedArena {
        self.arena
    }

    pub closed spec fn handles(&self) -> Seq<Handle<T>> {
        self.handles@
    }

    pub closed spec fn wf(&self) -> bool {
        self.arena.wf()
    }

    /// What reading element `i` yields.
    pub open spec fn element(&self, i: int) -> Result<T, ArenaError> {
        self.arena_view().read_result(self.handles()[i])
    }

    /// The arena's free blocks are sound, every element occupies a slot in
    /// use that reads back, and no two elements overlap.
    pub open spec fn sound(&self) -> bool {
        &&& blocks_sound(self.arena_view())
        &&& forall|i: int|
            0 <= i < self.handles().len() ==> {
                &&& slot_in_use(self.arena_view(), (#[trigger] self.handles()[i]).offset(), T::spec_size())
                &&& self.element(i) is Ok
            }
        &&& forall|i: int, j: int|
            0 <= i < self.handles().len() && 0 <= j < self.handles().len() && i != j ==> disjoint(
                (#[trigger] self.handles()[i]).offset() as int,
                T::spec_size() as int,
                (#[trigger] self.handles()[j]).offset() as int,
                T::spec_size() as int,
            )
    }

    /// The elements, as far as they read back.
    pub open spec fn values(&self) -> Seq<T> {
        Seq::new(
            self.handles().len(),
            |i: int|
                match self.element(i) {
                    Ok(v) => v,
                    Err(_) => arbitrary(),
                },
        )
    }

    pub fn new(arena: SharedArena) -> (r: PlexusVec<T>)
        requires
            arena.wf(),
        ensures
            r.wf(),
            r.arena_view() == arena,
            r.handles() == Seq::<Handle<T>>::empty(),
    {
        PlexusVec { arena, handles: Vec::new() }
    }

    pub fn arena(&self) -> (r: &SharedArena)
        ensures
            *r == self.arena_view(),
    {
        &self.arena
    }

    pub fn into_arena(self) -> (r: SharedArena)
        ensures
            r == self.arena_view(),
    {
        self.arena
    }

    /// Publishes `value` into the arena and appends its handle.
    pub fn push(&mut self, value: T, owner_pid: u32, now_ns: u64) -> (r: Result<(), PlexusVecError>)
        requires
            old(self).wf(),
        ensures
            final(self).wf(),
            ({
                let (res, tail, free) = old(self).arena_view().allocation(layout_of::<T>());
                match res {
                    Err(e) => {
                        &&& r == Err::<(), PlexusVecError>(PlexusVecError::Arena(e))
                        &&& final(self).handles() == old(self).handles()
                    },
                    Ok(off) => if off + T::spec_size() > old(self).arena_view().mem().len() {
                        &&& r == Err::<(), PlexusVecError>(PlexusVecError::Arena(ArenaError::OutOfBounds(off as usize)))
                        &&& final(self).handles() == old(self).handles()
                    } else {
                        &&& r == Ok::<(), PlexusVecError>(())
                        &&& final(self).handles().len() == old(self).handles().len() + 1
                        &&& final(self).handles().drop_last() == old(self).handles()
                        &&& final(self).handles().last().offset() == off
                        &&& final(self).arena_view().tail_pos() == tail
                        &&& final(self).arena_view().free_blocks() == free
                        &&& off >= ARENA_HEADER_SIZE ==> final(self).element(
                            old(self).handles().len() as int,
                        ) == Ok::<T, ArenaError>(value)
                    },
                }
            }),
            r is Ok ==> publication(
                old(self).arena_view(),
                final(self).arena_view(),
                value,
                owner_pid,
                now_ns,
                Ok(final(self).handles().last()),
            ),
            r matches Err(PlexusVecError::Arena(e)) ==> publication(
                old(self).arena_view(),
                final(self).arena_view(),
                value,
                owner_pid,
                now_ns,
                Err(e),
            ),
            old(self).sound() && r is Ok ==> {
                &&& final(self).sound()
                &&& final(self).values() == old(self).values().push(value)
            },
            old(self).sound() && r is Err ==> {
                &&& final(self).sound()
                &&& final(self).values() == old(self).values()
            },
    {
        let ghost before = *self;
        match self.arena.publish_value(value, owner_pid, now_ns) {
            Ok(handle) => {
                self.handles.push(handle);
                proof {
                    assert(self.handles@ =~= before.handles@.push(handle));
                    if before.sound() {
                        self.lemma_push_keeps_elements(before, value, owner_pid, now_ns);
                    }
                }
                Ok(())
            },
            Err(e) => {
                proof {
                    if before.sound() {
                        lemma_publication_frame(before.arena_view(), self.arena_view(), value, owner_pid, now_ns, Err(e));
                        assert forall|i: int| 0 <= i < self.handles().len() implies self.element(i) == before.element(i) by {
                            assert(slot_in_use(before.arena_view(), before.handles()[i].offset(), T::spec_size()));
                        }
                        assert(self.values() =~= before.values());
                    }
                }
                Err(PlexusVecError::Arena(e))
            },
        }
    }

    /// A copy of element `index`, or `None` past the end.
    pub fn get(&self, index: usize) -> (r: Result<Option<T>, PlexusVecError>)
        ensures
            index >= self.handles().len() ==> r == Ok::<Option<T>, PlexusVecError>(None),
            index < self.handles().len() ==> r == match self.element(index as int) {
                Ok(v) => Ok::<Option<T>, PlexusVecError>(Some(v)),
                Err(e) => Err(PlexusVecError::Arena(e)),
            },
    {
        if index >= self.handles.len() {
            return Ok(None);
        }
        let handle = self.handles[index];
        match self.arena.read_copy(handle) {
            Ok(v) => Ok(Some(v)),
            Err(e) => Err(PlexusVecError::Arena(e)),
        }
    }

    /// Removes the last element, returning a copy of it and handing its slot
    /// back to the arena.
    pub fn pop(&mut self) -> (r: Result<Option<T>, PlexusVecError>)
        requires
            old(self).wf(),
        ensures
            final(self).wf(),
            old(self).handles().len() == 0 ==> {
                &&& r == Ok::<Option<T>, PlexusVecError>(None)
                &&& final(self).handles() == old(self).handles()
                &&& final(self).arena_view() == old(self).arena_view()
            },
            old(self).handles().len() > 0 ==> {
                let last = old(self).handles().last();
                let a0 = old(self).arena_view();
                let a1 = final(self).arena_view();
                &&& final(self).handles() == old(self).handles().drop_last()
                &&& a1.mem() == a0.mem()
                &&& a1.tail_pos() == a0.tail_pos()
                &&& match a0.read_result(last) {
                    Err(e) => {
                        &&& r == Err::<Option<T>, PlexusVecError>(PlexusVecError::Arena(e))
                        &&& a1.free_blocks() == a0.free_blocks()
                        &&& a1.generation_map() == a0.generation_map()
                    },
                    Ok(v) => {
                        &&& r == Ok::<Option<T>, PlexusVecError>(Some(v))
                        &&& a1.free_blocks() == a0.free_blocks().push(
                            FreeBlock { offset: last.offset(), size: T::spec_size() as usize },
                        )
                        &&& a1.generation_map() == bumped(a0.generation_map(), last.offset())
                    },
                }
            },
            old(self).sound() ==> {
                &&& final(self).sound()
                &&& final(self).values() == old(self).values().take(final(self).handles().len() as int)
            },
    {
        let ghost before = *self;
        let handle = match self.handles.pop() {
            Some(h) => h,
            None => {
                return Ok(None);
            },
        };
        let value = match self.arena.read_copy(handle) {
            Ok(v) => v,
            Err(e) => {
                return Err(PlexusVecError::Arena(e));
            },
        };
        match self.arena.deallocate_layout(handle, ArenaLayout::of::<T>()) {
            Ok(()) => {},
            Err(e) => {
                return Err(PlexusVecError::Arena(e));
            },
        }
        proof {
            if before.sound() {
                self.lemma_pop_keeps_elements(before);
            }
        }
        Ok(Some(value))
    }

    /// Handing the last element's slot back keeps every other element
    /// readable with the same value, and the free blocks sound.
    proof fn lemma_pop_keeps_elements(&self, before: PlexusVec<T>)
        requires
            before.sound(),
            before.handles().len() > 0,
            self.handles() == before.handles().drop_last(),
            self.arena_view().mem() == before.arena_view().mem(),
            self.arena_view().tail_pos() == before.arena_view().tail_pos(),
            self.arena_view().free_blocks() == before.arena_view().free_blocks().push(
                FreeBlock { offset: before.handles().last().offset(), size: T::spec_size() as usize },
            ),
            self.arena_view().generation_map() == bumped(
                before.arena_view().generation_map(),
                before.handles().last().offset(),
            ),
        ensures
            self.sound(),
            self.values() == before.values().take(self.handles().len() as int),
    {
        let a0 = before.arena_view();
        let a1 = self.arena_view();
        let last = before.handles().last();
        let n = self.handles().len();
        T::lemma_shape();
        assert(slot_in_use(a0, last.offset(), T::spec_size()));
        lemma_release_frame(a0, a1, last.offset(), T::spec_size() as usize);
        assert forall|i: int| 0 <= i < n implies slot_in_use(a1, (#[trigger] self.handles()[i]).offset(), T::spec_size())
            && self.element(i) == before.element(i) by {
            let g = before.handles()[i];
            assert(self.handles()[i] == g);
            assert(before.handles()[before.handles().len() - 1] == last);
            assert(disjoint(g.offset() as int, T::spec_size() as int, last.offset() as int, T::spec_size() as int));
            assert(slot_in_use(a0, g.offset(), T::spec_size()));
            assert(g.offset() != last.offset());
        }
        assert forall|i: int| 0 <= i < n implies self.element(i) is Ok by {
            assert(before.element(i) is Ok);
        }
        assert forall|i: int, j: int|
            0 <= i < n && 0 <= j < n && i != j implies disjoint(
            (#[trigger] self.handles()[i]).offset() as int,
            T::spec_size() as int,
            (#[trigger] self.handles()[j]).offset() as int,
            T::spec_size() as int,
        ) by {
            assert(self.handles()[i] == before.handles()[i]);
            assert(self.handles()[j] == before.handles()[j]);
        }
        assert(self.values() =~= before.values().take(n as int));
    }

    pub fn len(&self) -> (r: usize)
        ensures
            r == self.handles().len(),
    {
        self.handles.len()
    }

    pub fn is_empty(&self) -> (r: bool)
        ensures
            r == (self.handles().len() == 0),
    {
        self.handles.is_empty()
    }

    /// A successful publication appends an element in a fresh slot and keeps
    /// every earlier element readable with the same value.
    proof fn lemma_push_keeps_elements(&self, before: PlexusVec<T>, value: T, owner_pid: u32, now_ns: u64)
        requires
            before.sound(),
            before.wf(),
            self.handles() == before.handles().push(self.handles().last()),
            publication(before.arena_view(), self.arena_view(), value, owner_pid, now_ns, Ok(self.handles().last())),
        ensures
            self.sound(),
            self.values() == before.values().push(value),
    {
        let a0 = before.arena_view();
        let a1 = self.arena_view();
        let h = self.handles().last();
        let n = before.handles().len();
        lemma_publication_frame(a0, a1, value, owner_pid, now_ns, Ok(h));
        assert forall|i: int| 0 <= i < n implies self.element(i) == before.element(i) && slot_in_use(
            a1,
            (#[trigger] self.handles()[i]).offset(),
            T::spec_size(),
        ) && disjoint(self.handles()[i].offset() as int, T::spec_size() as int, h.offset() as int, T::spec_size() as int) by {
            assert(self.handles()[i] == before.handles()[i]);
            assert(slot_in_use(a0, before.handles()[i].offset(), T::spec_size()));
        }
        assert forall|i: int| 0 <= i < self.handles().len() implies {
            &&& slot_in_use(a1, (#[trigger] self.handles()[i]).offset(), T::spec_size())
            &&& self.element(i) is Ok
        } by {
            if i < n {
                assert(before.element(i) is Ok);
            }
        }
        assert forall|i: int, j: int|
            0 <= i < self.handles().len() && 0 <= j < self.handles().len() && i != j implies disjoint(
            (#[trigger] self.handles()[i]).offset() as int,
            T::spec_size() as int,
            (#[trigger] self.handles()[j]).offset() as int,
            T::spec_size() as int,
        ) by {
            if i < n && j < n {
                assert(self.handles()[i] == before.handles()[i]);
                assert(self.handles()[j] == before.handles()[j]);
            }
        }
        assert(self.values() =~= before.values().push(value));
    }
}

} // verus!
