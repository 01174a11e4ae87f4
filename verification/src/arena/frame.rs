//! Which parts of an arena are in use: free blocks and slots in use that do
//! not overlap, and what a publication leaves of them.

use vstd::prelude::*;
use crate::arena::allocator::{
    SharedArena, FreeBlock, ArenaError, publication, first_fit, first_fit_from, block_fits, swap_removed,
    round_up, touched,
    lemma_first_fit_from, lemma_round_up_bounds, lemma_touched_keeps_generations,
};
use crate::arena::header::{ARENA_HEADER_SIZE, header_bytes, lemma_header_roundtrip, prepared_header};
use crate::arena::layout::{ArenaLayout, splice, lemma_splice_disjoint};
use crate::codec::ArenaValue;
use crate::ptr::handle::Handle;

verus! {

/// The byte ranges `[o1, o1 + n1)` and `[o2, o2 + n2)` do not overlap.
pub open spec fn disjoint(o1: int, n1: int, o2: int, n2: int) -> bool {
    o1 + n1 <= o2 || o2 + n2 <= o1
}

/// Every free block lies between the header and the bump pointer `tail`,
/// and no two free blocks overlap.
pub open spec fn free_list_sound(tail: u64, free: Seq<FreeBlock>) -> bool {
    &&& forall|i: int|
        0 <= i < free.len() ==> ARENA_HEADER_SIZE <= (#[trigger] free[i]).offset && free[i].offset
            + free[i].size <= tail
    &&& forall|i: int, j: int|
        0 <= i < free.len() && 0 <= j < free.len() && i != j ==> disjoint(
            (#[trigger] free[i]).offset as int,
            free[i].size as int,
            (#[trigger] free[j]).offset as int,
            free[j].size as int,
        )
}

/// The `size` bytes at `off` lie between the header and the bump pointer
/// `tail` and overlap no free block.
pub open spec fn slot_clear(off: u64, size: nat, tail: u64, free: Seq<FreeBlock>) -> bool {
    &&& ARENA_HEADER_SIZE <= off
    &&& off + size <= tail
    &&& forall|i: int|
        0 <= i < free.len() ==> disjoint(
            off as int,
            size as int,
            (#[trigger] free[i]).offset as int,
            free[i].size as int,
        )
}

/// The bump pointer lies within the region and the free blocks are sound.
pub open spec fn blocks_sound(a: SharedArena) -> bool {
    &&& ARENA_HEADER_SIZE <= a.tail_pos() <= a.mem().len()
    &&& free_list_sound(a.tail_pos(), a.free_blocks())
}

/// The `size` bytes at `off` are a slot in use: between the header and the
/// bump pointer, overlapping no free block.
pub open spec fn slot_in_use(a: SharedArena, off: u64, size: nat) -> bool {
    slot_clear(off, size, a.tail_pos(), a.free_blocks())
}

/// Removing block `i` by moving the last block into its place keeps every
/// other block, each at one position.
proof fn lemma_swap_removed_blocks(s: Seq<FreeBlock>, i: int)
    requires
        0 <= i < s.len(),
    ensures
        swap_removed(s, i).len() == s.len() - 1,
        forall|k: int|
            0 <= k < s.len() - 1 ==> #[trigger] swap_removed(s, i)[k] == s[if k == i {
                s.len() - 1
            } else {
                k
            }],
{
}

/// Allocating on a sound arena keeps the free blocks sound and every slot
/// in use in use; a slot handed out fits in the region, is in use
/// afterwards, and overlaps no slot that was in use.  Together with
/// `lemma_release_frame` this makes the slots live at any time pairwise
/// disjoint and inside the region, whatever allocations and releases came
/// before, as long as each release hands back a slot in use with its size.
pub proof fn lemma_allocation_frame(a0: SharedArena, layout: ArenaLayout)
    requires
        a0.wf(),
        blocks_sound(a0),
    ensures
        ({
            let (res, tail, free) = a0.allocation(layout);
            &&& free_list_sound(tail, free)
            &&& a0.tail_pos() <= tail <= a0.mem().len()
            &&& forall|off: u64, size: nat|
                slot_clear(off, size, a0.tail_pos(), a0.free_blocks()) ==> #[trigger] slot_clear(
                    off,
                    size,
                    tail,
                    free,
                )
            &&& res matches Ok(off) ==> {
                &&& (off as int) % (layout.align as int) == 0
                &&& off + layout.size <= a0.mem().len()
                &&& slot_clear(off, layout.size as nat, tail, free)
                &&& forall|o: u64, size: nat|
                    #[trigger] slot_clear(o, size, a0.tail_pos(), a0.free_blocks()) ==> disjoint(
                        o as int,
                        size as int,
                        off as int,
                        layout.size as int,
                    )
            }
        }),
{
    a0.lemma_wf_len();
    let f0 = a0.free_blocks();
    let (res, tail, free) = a0.allocation(layout);
    lemma_first_fit_from(f0, layout, 0);
    let ghost picked: Option<int> = if res is Ok { first_fit(f0, layout) } else { None };
    if let Some(i) = picked {
        lemma_swap_removed_blocks(f0, i);
        assert(res == Ok::<u64, ArenaError>(f0[i].offset));
        assert(free == swap_removed(f0, i));
        assert(tail == a0.tail_pos());
    }
    if res is Ok && picked is None {
        reveal(vstd::arithmetic::power2::is_pow2);
        assert(layout.align > 0);
        lemma_round_up_bounds(a0.tail_pos() as int, layout.align as int);
        assert(free == f0);
        assert(res->Ok_0 >= a0.tail_pos());
        assert(tail == res->Ok_0 + layout.size);
        let a = layout.align as int;
        let q = (a0.tail_pos() + a - 1) / a;
        assert((q * a) % a == 0) by (nonlinear_arith)
            requires
                a > 0,
        ;
    }
    if res is Err {
        assert(free == f0 && tail == a0.tail_pos());
    }
    assert forall|k1: int, k2: int|
        0 <= k1 < free.len() && 0 <= k2 < free.len() && k1 != k2 implies disjoint(
        (#[trigger] free[k1]).offset as int,
        free[k1].size as int,
        (#[trigger] free[k2]).offset as int,
        free[k2].size as int,
    ) by {
        if let Some(i) = picked {
            let j1 = if k1 == i { f0.len() - 1 } else { k1 };
            let j2 = if k2 == i { f0.len() - 1 } else { k2 };
            assert(free[k1] == f0[j1] && free[k2] == f0[j2]);
        } else {
            assert(free[k1] == f0[k1] && free[k2] == f0[k2]);
        }
    }
    assert forall|k: int| 0 <= k < free.len() implies ARENA_HEADER_SIZE <= (#[trigger] free[k]).offset
        && free[k].offset + free[k].size <= tail by {
        if let Some(i) = picked {
            let j = if k == i { f0.len() - 1 } else { k };
            assert(free[k] == f0[j]);
        } else {
            assert(free[k] == f0[k]);
        }
    }
    assert forall|off: u64, size: nat| slot_clear(off, size, a0.tail_pos(), f0) implies #[trigger] slot_clear(
        off,
        size,
        tail,
        free,
    ) by {
        assert forall|k: int| 0 <= k < free.len() implies disjoint(
            off as int,
            size as int,
            (#[trigger] free[k]).offset as int,
            free[k].size as int,
        ) by {
            if let Some(i) = picked {
                let j = if k == i { f0.len() - 1 } else { k };
                assert(free[k] == f0[j]);
            } else {
                assert(free[k] == f0[k]);
            }
        }
    }
    if let Ok(off) = res {
        assert forall|o: u64, size: nat| #[trigger] slot_clear(o, size, a0.tail_pos(), f0) implies disjoint(
            o as int,
            size as int,
            off as int,
            layout.size as int,
        ) by {
            if let Some(i) = picked {
                assert(disjoint(o as int, size as int, f0[i].offset as int, f0[i].size as int));
            }
        }
        assert forall|k: int| 0 <= k < free.len() implies disjoint(
            off as int,
            layout.size as int,
            (#[trigger] free[k]).offset as int,
            free[k].size as int,
        ) by {
            if let Some(i) = picked {
                let j = if k == i { f0.len() - 1 } else { k };
                assert(free[k] == f0[j]);
                assert(disjoint(f0[i].offset as int, f0[i].size as int, f0[j].offset as int, f0[j].size as int));
            } else {
                assert(free[k] == f0[k]);
            }
        }
    }
}

/// Adding a block that is clear of every free block keeps the free list
/// sound.
pub proof fn lemma_release_parts(tail: u64, free: Seq<FreeBlock>, off: u64, size: usize)
    requires
        free_list_sound(tail, free),
        slot_clear(off, size as nat, tail, free),
    ensures
        free_list_sound(tail, free.push(FreeBlock { offset: off, size })),
{
    let f1 = free.push(FreeBlock { offset: off, size });
    assert forall|k: int| 0 <= k < f1.len() implies ARENA_HEADER_SIZE <= (#[trigger] f1[k]).offset
        && f1[k].offset + f1[k].size <= tail by {
        if k < free.len() {
            assert(f1[k] == free[k]);
        }
    }
    assert forall|k1: int, k2: int|
        0 <= k1 < f1.len() && 0 <= k2 < f1.len() && k1 != k2 implies disjoint(
        (#[trigger] f1[k1]).offset as int,
        f1[k1].size as int,
        (#[trigger] f1[k2]).offset as int,
        f1[k2].size as int,
    ) by {
        if k1 < free.len() {
            assert(f1[k1] == free[k1]);
        }
        if k2 < free.len() {
            assert(f1[k2] == free[k2]);
        }
    }
}

/// Some block at index `j` or later fits `layout`, so first fit finds one.
pub proof fn lemma_first_fit_finds(free: Seq<FreeBlock>, layout: ArenaLayout, k: int, j: int)
    requires
        0 <= k <= j < free.len(),
        block_fits(free[j], layout),
    ensures
        first_fit_from(free, layout, k) is Some,
    decreases j - k,
{
    if k < j && !block_fits(free[k], layout) {
        lemma_first_fit_finds(free, layout, k + 1, j);
    }
}

/// Handing back a slot in use, with its size, keeps the free blocks sound;
/// every other slot in use that it does not overlap stays in use.
pub proof fn lemma_release_frame(a0: SharedArena, a1: SharedArena, off: u64, size: usize)
    requires
        blocks_sound(a0),
        slot_in_use(a0, off, size as nat),
        a1.free_blocks() == a0.free_blocks().push(FreeBlock { offset: off, size }),
        a1.tail_pos() == a0.tail_pos(),
        a1.mem().len() == a0.mem().len(),
    ensures
        blocks_sound(a1),
        forall|o: u64, n: nat|
            slot_in_use(a0, o, n) && disjoint(o as int, n as int, off as int, size as int)
                ==> #[trigger] slot_in_use(a1, o, n),
{
    let f0 = a0.free_blocks();
    let f1 = a1.free_blocks();
    lemma_release_parts(a0.tail_pos(), f0, off, size);
    assert forall|o: u64, n: nat|
        slot_in_use(a0, o, n) && disjoint(o as int, n as int, off as int, size as int) implies #[trigger] slot_in_use(
        a1,
        o,
        n,
    ) by {
        assert forall|k: int| 0 <= k < f1.len() implies disjoint(
            o as int,
            n as int,
            (#[trigger] f1[k]).offset as int,
            f1[k].size as int,
        ) by {
            if k < f0.len() {
                assert(f1[k] == f0[k]);
            }
        }
    }
}

/// A publication on a sound arena keeps it sound; a slot in use before stays
/// in use and reads back as before.  A slot handed out is in use afterwards,
/// overlaps no slot that was in use, and reads back the value published.
pub proof fn lemma_publication_frame<T: ArenaValue>(
    a0: SharedArena,
    a1: SharedArena,
    value: T,
    owner_pid: u32,
    now_ns: u64,
    r: Result<Handle<T>, ArenaError>,
)
    requires
        a0.wf(),
        blocks_sound(a0),
        publication(a0, a1, value, owner_pid, now_ns, r),
    ensures
        blocks_sound(a1),
        a1.mem().len() == a0.mem().len(),
        forall|off: u64, size: nat| slot_in_use(a0, off, size) ==> #[trigger] slot_in_use(a1, off, size),
        forall|g: Handle<T>|
            #[trigger] slot_in_use(a0, g.offset(), T::spec_size()) ==> a1.read_result(g) == a0.read_result(g),
        r matches Ok(h) ==> {
            &&& slot_in_use(a1, h.offset(), T::spec_size())
            &&& a1.read_result(h) == Ok::<T, ArenaError>(value)
            &&& forall|off: u64, size: nat|
                #[trigger] slot_in_use(a0, off, size) ==> disjoint(
                    off as int,
                    size as int,
                    h.offset() as int,
                    T::spec_size() as int,
                )
        },
{
    let layout = ArenaLayout { size: T::spec_size() as usize, align: T::spec_align() as usize };
    T::lemma_shape();
    T::lemma_codec(value);
    a0.lemma_wf_len();
    lemma_allocation_frame(a0, layout);
    let s = T::spec_size();
    let (res, tail, free) = a0.allocation(layout);
    let prepared = prepared_header(a0.stored_header(), a0.tail_pos(), owner_pid, now_ns);
    lemma_header_roundtrip(prepared);
    lemma_header_roundtrip(a1.stored_header());
    let m0 = a0.mem();
    let m1 = splice(m0, 0, header_bytes(prepared));
    assert(a1.free_blocks() == free && a1.tail_pos() == tail);
    // Values in slots in use read back as before.
    assert forall|g: Handle<T>| #[trigger] slot_in_use(a0, g.offset(), s) implies a1.read_result(g)
        == a0.read_result(g) by {
        let o = g.offset() as int;
        lemma_splice_disjoint(m0, 0, header_bytes(prepared), o, s as int);
        if let Ok(off) = res {
            lemma_touched_keeps_generations(a0.generation_map(), off, g.offset());
            assert(slot_clear(g.offset(), s, a0.tail_pos(), a0.free_blocks()));
            let m2 = splice(m1, off as int, T::spec_encode(value));
            lemma_splice_disjoint(m1, off as int, T::spec_encode(value), o, s as int);
            lemma_splice_disjoint(m2, 0, header_bytes(a1.stored_header()), o, s as int);
        }
    }
    assert forall|off: u64, size: nat| slot_in_use(a0, off, size) implies #[trigger] slot_in_use(a1, off, size) by {
        assert(slot_clear(off, size, a0.tail_pos(), a0.free_blocks()));
    }
    // The slot handed out reads back the value.
    if let Ok(h) = r {
        let off = h.offset();
        assert(res == Ok::<u64, ArenaError>(off));
        assert forall|o: u64, size: nat| #[trigger] slot_in_use(a0, o, size) implies disjoint(
            o as int,
            size as int,
            off as int,
            s as int,
        ) by {
            assert(slot_clear(o, size, a0.tail_pos(), a0.free_blocks()));
        }
        let m2 = splice(m1, off as int, T::spec_encode(value));
        assert(m2.subrange(off as int, off + s) =~= T::spec_encode(value));
        lemma_splice_disjoint(m2, 0, header_bytes(a1.stored_header()), off as int, s as int);
        lemma_touched_keeps_generations(a0.generation_map(), off, off);
    }
}

} // verus!
