//! A map from keys to values published into an arena; the map keeps the
//! handles of the values.

use vstd::prelude::*;
use std::collections::HashMap;
use vstd::std_specs::hash::obeys_key_model;
use crate::arena::allocator::{
    ArenaError, SharedArena, publication,
};
use crate::arena::frame::{blocks_sound, slot_in_use, disjoint, lemma_publication_frame};
use crate::arena::header::ARENA_HEADER_SIZE;
use crate::codec::ArenaValue;
use crate::containers::plexus_vec::layout_of;
use crate::ptr::handle::Handle;

verus! {

broadcast use vstd::std_specs::hash::group_hash_axioms;

#[derive(Debug, Clone, Copy, PartialEq, Eq, Structural)]
pub enum PlexusMapError {
    Arena(ArenaError),
    Poisoned,
}

pub struct PlexusMap<K, V> {
    arena: SharedArena,
    entries: HashMap<K, Handle<V>>,
}

impl<K: Copy + Eq + core::hash::Hash, V: ArenaValue> PlexusMap<K, V> {
    pub closed spec fn arena_view(&self) -> SharedArena {
        self.arena
    }

    pub closed spec fn entries(&self) -> Map<K, Handle<V>> {
        self.entries@
    }

    pub closed spec fn wf(&self) -> bool {
        self.arena.wf()
    }

    /// What looking up `key` yields.
    pub open spec fn lookup(&self, key: K) -> Result<Option<V>, PlexusMapError> {
        if self.entries().contains_key(key) {
            match self.arena_view().read_result(self.entries()[key]) {
                Ok(v) => Ok(Some(v)),
                Err(e) => Err(PlexusMapError::Arena(e)),
            }
        } else {
            Ok(None)
        }
    }

    /// The arena's free blocks are sound, every stored value occupies a slot
    /// in use that reads back, and no two stored values overlap.
    pub open spec fn sound(&self) -> bool {
        &&& blocks_sound(self.arena_view())
        &&& forall|k: K|
            #[trigger] self.entries().contains_key(k) ==> {
                &&& slot_in_use(self.arena_view(), self.entries()[k].offset(), V::spec_size())
                &&& self.arena_view().read_result(self.entries()[k]) is Ok
            }
        &&& forall|k1: K, k2: K|
            #[trigger] self.entries().contains_key(k1) && #[trigger] self.entries().contains_key(k2) && k1
                != k2 ==> disjoint(
                self.entries()[k1].offset() as int,
                V::spec_size() as int,
                self.entries()[k2].offset() as int,
                V::spec_size() as int,
            )
    }

    pub fn new(arena: SharedArena) -> (r: PlexusMap<K, V>)
        requires
            arena.wf(),
        ensures
            r.wf(),
            r.arena_view() == arena,
            r.entries() == Map::<K, Handle<V>>::empty(),
    {
        PlexusMap { arena, entries: HashMap::new() }
    }

    pub fn arena(&self) -> (r: &SharedArena)
        ensures
            *r == self.arena_view(),
    {
        &self.arena
    }

    /// Publishes `value` into the arena and maps `key` to its handle.
    pub fn insert(&mut self, key: K, value: V, owner_pid: u32, now_ns: u64) -> (r: Result<(), PlexusMapError>)
        requires
            old(self).wf(),
            obeys_key_model::<K>(),
        ensures
            final(self).wf(),
            ({
                let (res, tail, free) = old(self).arena_view().allocation(layout_of::<V>());
                match res {
                    Err(e) => {
                        &&& r == Err::<(), PlexusMapError>(PlexusMapError::Arena(e))
                        &&& final(self).entries() == old(self).entries()
                    },
                    Ok(off) => if off + V::spec_size() > old(self).arena_view().mem().len() {
                        &&& r == Err::<(), PlexusMapError>(PlexusMapError::Arena(ArenaError::OutOfBounds(off as usize)))
                        &&& final(self).entries() == old(self).entries()
                    } else {
                        &&& r == Ok::<(), PlexusMapError>(())
                        &&& final(self).entries().dom() == old(self).entries().dom().insert(key)
                        &&& forall|k: K| k != key && #[trigger] old(self).entries().contains_key(k) ==> final(self).entries()[k] == old(self).entries()[k]
                        &&& final(self).entries()[key].offset() == off
                        &&& final(self).arena_view().tail_pos() == tail
                        &&& final(self).arena_view().free_blocks() == free
                        &&& off >= ARENA_HEADER_SIZE ==> final(self).lookup(key) == Ok::<Option<V>, PlexusMapError>(Some(value))
                    },
                }
            }),
            r is Ok ==> publication(
                old(self).arena_view(),
                final(self).arena_view(),
                value,
                owner_pid,
                now_ns,
                Ok(final(self).entries()[key]),
            ),
            r matches Err(PlexusMapError::Arena(e)) ==> publication(
                old(self).arena_view(),
                final(self).arena_view(),
                value,
                owner_pid,
                now_ns,
                Err(e),
            ),
            old(self).sound() && r is Ok ==> {
                &&& final(self).sound()
                &&& final(self).lookup(key) == Ok::<Option<V>, PlexusMapError>(Some(value))
                &&& forall|k: K| k != key ==> #[trigger] final(self).lookup(k) == old(self).lookup(k)
            },
            old(self).sound() && r is Err ==> {
                &&& final(self).sound()
                &&& forall|k: K| #[trigger] final(self).lookup(k) == old(self).lookup(k)
            },
    {
        let ghost before = *self;
        let handle = match self.arena.publish_value(value, owner_pid, now_ns) {
            Ok(h) => h,
            Err(e) => {
                proof {
                    if before.sound() {
                        let a0 = before.arena_view();
                        let a1 = self.arena_view();
                        lemma_publication_frame(a0, a1, value, owner_pid, now_ns, Err(e));
                        assert forall|k: K| #[trigger] before.entries().contains_key(k) implies a1.read_result(
                            before.entries()[k],
                        ) == a0.read_result(before.entries()[k]) && slot_in_use(
                            a1,
                            before.entries()[k].offset(),
                            V::spec_size(),
                        ) by {
                            assert(slot_in_use(a0, before.entries()[k].offset(), V::spec_size()));
                        }
                        assert forall|k: K| #[trigger] self.lookup(k) == before.lookup(k) by {
                            if before.entries().contains_key(k) {
                                assert(a1.read_result(before.entries()[k]) == a0.read_result(before.entries()[k]));
                            }
                        }
                    }
                }
                return Err(PlexusMapError::Arena(e));
            },
        };
        self.entries.insert(key, handle);
        proof {
            if before.sound() {
                let a0 = before.arena_view();
                let a1 = self.arena_view();
                lemma_publication_frame(a0, a1, value, owner_pid, now_ns, Ok(handle));
                assert forall|k: K| #[trigger] before.entries().contains_key(k) implies a1.read_result(
                    before.entries()[k],
                ) == a0.read_result(before.entries()[k]) && slot_in_use(
                    a1,
                    before.entries()[k].offset(),
                    V::spec_size(),
                ) && disjoint(
                    before.entries()[k].offset() as int,
                    V::spec_size() as int,
                    handle.offset() as int,
                    V::spec_size() as int,
                ) by {
                    assert(slot_in_use(a0, before.entries()[k].offset(), V::spec_size()));
                }
                assert forall|k: K| #[trigger] self.entries().contains_key(k) implies {
                    &&& slot_in_use(a1, self.entries()[k].offset(), V::spec_size())
                    &&& a1.read_result(self.entries()[k]) is Ok
                } by {
                    if k != key {
                        assert(before.entries().contains_key(k));
                    }
                }
                assert forall|k1: K, k2: K|
                    #[trigger] self.entries().contains_key(k1) && #[trigger] self.entries().contains_key(k2)
                        && k1 != k2 implies disjoint(
                    self.entries()[k1].offset() as int,
                    V::spec_size() as int,
                    self.entries()[k2].offset() as int,
                    V::spec_size() as int,
                ) by {
                    if k1 != key {
                        assert(before.entries().contains_key(k1));
                    }
                    if k2 != key {
                        assert(before.entries().contains_key(k2));
                    }
                }
                assert forall|k: K| k != key implies #[trigger] self.lookup(k) == before.lookup(k) by {
                    if before.entries().contains_key(k) {
                        assert(a1.read_result(before.entries()[k]) == a0.read_result(before.entries()[k]));
                    }
                }
            }
        }
        Ok(())
    }

    /// A copy of the value `key` maps to, if any.
    pub fn get(&self, key: K) -> (r: Result<Option<V>, PlexusMapError>)
        requires
            obeys_key_model::<K>(),
        ensures
            r == self.lookup(key),
    {
        let handle = match self.entries.get(&key) {
            Some(h) => *h,
            None => {
                return Ok(None);
            },
        };
        match self.arena.read_copy(handle) {
            Ok(v) => Ok(Some(v)),
            Err(e) => Err(PlexusMapError::Arena(e)),
        }
    }
}

} // verus!
