//! The arena allocator: a bump pointer over the mapped region, a free list of
//! returned blocks, and per-offset generations that make freed handles stale.

use vstd::prelude::*;
use std::collections::HashMap;
use crate::arena::header::{
    ArenaHeader, ARENA_HEADER_SIZE, PublishState, header_state, header_from_bytes, header_bytes, fresh_header, prepared_header,
    committed_header, rolled_back, heartbeat_header, owner_is_stale, lemma_header_written,
};
use crate::arena::recovery::{RecoveryReport, recovery_report, recovered_header};
use crate::arena::layout::{ArenaLayout, splice, copy_into, read_bytes};
use crate::bits::{is_power_of_two, power_of_two, lemma_mask_is_mod};
use crate::codec::ArenaValue;
use crate::ptr::handle::Handle;

verus! {

broadcast use vstd::std_specs::hash::group_hash_axioms;

#[derive(Debug, Clone, Copy, PartialEq, Eq, Structural)]
pub enum ArenaError {
    TooSmall,
    OutOfMemory,
    OutOfBounds(usize),
    BadLayout,
    CorruptedHeader,
    StaleHandle,
}

/// Smallest region an arena accepts: the header plus one aligned word.
pub const MIN_ARENA_SIZE: usize = 88;

/// How long an owner may stay silent before attaching treats it as dead.
pub const ATTACH_OWNER_TIMEOUT_NS: u64 = 5_000_000_000;

/// A block returned to the arena, available for reuse.
#[derive(Debug, Clone, Copy, PartialEq, Eq, Structural)]
pub struct FreeBlock {
    pub offset: u64,
    pub size: usize,
}

/// The generation an offset currently has; offsets never seen are at 1.
pub open spec fn generation_of(gens: Map<u64, u64>, off: u64) -> u64 {
    if gens.contains_key(off) {
        gens[off]
    } else {
        1
    }
}

/// `gens` with `off` recorded at its current generation.
pub open spec fn touched(gens: Map<u64, u64>, off: u64) -> Map<u64, u64> {
    if gens.contains_key(off) {
        gens
    } else {
        gens.insert(off, 1)
    }
}

/// `gens` with the generation of `off` advanced (saturating).
pub open spec fn bumped(gens: Map<u64, u64>, off: u64) -> Map<u64, u64> {
    gens.insert(
        off,
        if generation_of(gens, off) == u64::MAX {
            u64::MAX
        } else {
            (generation_of(gens, off) + 1) as u64
        },
    )
}

/// A free block can serve a request when it is large enough and aligned.
pub open spec fn block_fits(b: FreeBlock, layout: ArenaLayout) -> bool {
    b.size >= layout.size && (b.offset as int) % (layout.align as int) == 0
}

/// The first block at index `i` or later that can serve `layout`.
pub open spec fn first_fit_from(free: Seq<FreeBlock>, layout: ArenaLayout, i: int) -> Option<int>
    decreases free.len() - i,
{
    if i < 0 || i >= free.len() {
        None
    } else if block_fits(free[i], layout) {
        Some(i)
    } else {
        first_fit_from(free, layout, i + 1)
    }
}

/// The first block that can serve `layout`.
pub open spec fn first_fit(free: Seq<FreeBlock>, layout: ArenaLayout) -> Option<int> {
    first_fit_from(free, layout, 0)
}

/// The block `first_fit_from` picks is in range and fits; none before it does.
pub proof fn lemma_first_fit_from(free: Seq<FreeBlock>, layout: ArenaLayout, k: int)
    requires
        0 <= k,
    ensures
        first_fit_from(free, layout, k) matches Some(i) ==> k <= i < free.len() && block_fits(
            free[i],
            layout,
        ),
    decreases free.len() - k,
{
    if k < free.len() && !block_fits(free[k], layout) {
        lemma_first_fit_from(free, layout, k + 1);
    }
}

/// First fit from index `k` reaches block `j` when no block from `k` up to
/// `j` fits and block `j` does.
proof fn lemma_first_fit_reaches(free: Seq<FreeBlock>, layout: ArenaLayout, k: int, j: int)
    requires
        0 <= k <= j < free.len(),
        free[j].size >= layout.size,
        (free[j].offset as int) % (layout.align as int) == 0,
        forall|m: int|
            k <= m < j ==> !((#[trigger] free[m]).size >= layout.size && (free[m].offset as int) % (
            layout.align as int) == 0),
    ensures
        first_fit_from(free, layout, k) == Some(j),
    decreases j - k,
{
    if k < j {
        lemma_first_fit_reaches(free, layout, k + 1, j);
    }
}

/// First fit from index `k` finds some block when block `j`, at or after
/// `k`, is large enough and aligned.
proof fn lemma_first_fit_from_finds(free: Seq<FreeBlock>, layout: ArenaLayout, k: int, j: int)
    requires
        0 <= k <= j < free.len(),
        free[j].size >= layout.size,
        (free[j].offset as int) % (layout.align as int) == 0,
    ensures
        first_fit_from(free, layout, k) is Some,
    decreases j - k,
{
    if k < j && !block_fits(free[k], layout) {
        lemma_first_fit_from_finds(free, layout, k + 1, j);
    }
}

/// A freed block is reused: when some free block is at least as large as
/// the request and aligned to it, allocation takes the first such block —
/// handing out its offset, leaving the bump pointer alone and removing that
/// block from the free list — rather than bumping or failing, whatever the
/// size of the region.
pub proof fn law_fitting_free_block_is_reused(
    tail: u64,
    free: Seq<FreeBlock>,
    len: nat,
    layout: ArenaLayout,
    j: int,
)
    requires
        is_power_of_two(layout.align as u64),
        0 <= j < free.len(),
        free[j].size >= layout.size,
        (free[j].offset as int) % (layout.align as int) == 0,
        forall|m: int|
            0 <= m < j ==> !((#[trigger] free[m]).size >= layout.size && (free[m].offset as int) % (
            layout.align as int) == 0),
    ensures
        allocation_outcome(tail, free, len, layout) == (
            Ok::<u64, ArenaError>(free[j].offset),
            tail,
            swap_removed(free, j),
        ),
{
    lemma_first_fit_reaches(free, layout, 0, j);
}

/// `s` with element `i` removed by moving the last element into its place.
pub open spec fn swap_removed(s: Seq<FreeBlock>, i: int) -> Seq<FreeBlock> {
    s.update(i, s.last()).drop_last()
}

/// The smallest multiple of `a` that is at least `x`.
pub open spec fn round_up(x: int, a: int) -> int {
    ((x + a - 1) / a) * a
}

/// `value` rounded up to the next multiple of the power of two `alignment`.
fn align_up(value: u64, alignment: u64) -> (r: u64)
    requires
        alignment > 0,
        is_power_of_two(alignment),
        value + alignment - 1 <= u64::MAX,
    ensures
        r == round_up(value as int, alignment as int),
{
    let mask = alignment - 1;
    let x = value + mask;
    let r = x & !mask;
    proof {
        lemma_mask_is_mod(x, alignment);
        vstd::arithmetic::div_mod::lemma_fundamental_div_mod(x as int, alignment as int);
        assert(r == (x / alignment) * alignment) by (nonlinear_arith)
            requires
                r == x - x % alignment,
                x == alignment * (x / alignment) + x % alignment,
        ;
    }
    r
}

/// Rounding up moves `x` forward by less than `a`.
pub proof fn lemma_round_up_bounds(x: int, a: int)
    requires
        a > 0,
    ensures
        x <= round_up(x, a) < x + a,
{
    let y = x + a - 1;
    vstd::arithmetic::div_mod::lemma_fundamental_div_mod(y, a);
    assert(0 <= y % a < a) by {
        vstd::arithmetic::div_mod::lemma_mod_bound(y, a);
    }
    assert((y / a) * a == a * (y / a)) by (nonlinear_arith);
}

/// What publishing `value` does to the arena `a0`, leaving `a1` and
/// returning `r`: the header is marked as preparing; when the allocation
/// fails (or hands out a slot that does not fit) the publication stays
/// prepared, otherwise the value is written in its slot and the header is
/// committed at the new bump pointer.
pub open spec fn publication<T: ArenaValue>(
    a0: SharedArena,
    a1: SharedArena,
    value: T,
    owner_pid: u32,
    now_ns: u64,
    r: Result<Handle<T>, ArenaError>,
) -> bool {
    let layout = ArenaLayout { size: T::spec_size() as usize, align: T::spec_align() as usize };
    let (res, tail, free) = a0.allocation(layout);
    let prepared = prepared_header(a0.stored_header(), a0.tail_pos(), owner_pid, now_ns);
    match res {
        Err(e) => {
            &&& r == Err::<Handle<T>, ArenaError>(e)
            &&& a1.stored_header() == prepared
            &&& a1.mem() == splice(a0.mem(), 0, header_bytes(prepared))
            &&& a1.tail_pos() == tail
            &&& a1.free_blocks() == free
            &&& a1.generation_map() == a0.generation_map()
        },
        Ok(off) => if off + T::spec_size() > a0.mem().len() {
            &&& r == Err::<Handle<T>, ArenaError>(ArenaError::OutOfBounds(off as usize))
            &&& a1.stored_header() == prepared
            &&& a1.mem() == splice(a0.mem(), 0, header_bytes(prepared))
            &&& a1.tail_pos() == tail
            &&& a1.free_blocks() == free
            &&& a1.generation_map() == touched(a0.generation_map(), off)
        } else {
            &&& r matches Ok(h) && h.offset() == off && h.generation() == generation_of(
                a0.generation_map(),
                off,
            )
            &&& a1.tail_pos() == tail
            &&& a1.free_blocks() == free
            &&& a1.generation_map() == touched(a0.generation_map(), off)
            &&& a1.stored_header() == committed_header(
                header_from_bytes(
                    splice(
                        splice(a0.mem(), 0, header_bytes(prepared)),
                        off as int,
                        T::spec_encode(value),
                    ),
                ),
                tail,
                owner_pid,
                now_ns,
            )
            &&& off >= ARENA_HEADER_SIZE ==> a1.stored_header() == committed_header(
                prepared,
                tail,
                owner_pid,
                now_ns,
            )
            &&& header_state(a1.stored_header()) == PublishState::Clean
            &&& a1.mem() == splice(
                splice(
                    splice(a0.mem(), 0, header_bytes(prepared)),
                    off as int,
                    T::spec_encode(value),
                ),
                0,
                header_bytes(a1.stored_header()),
            )
        },
    }
}

/// Recording an offset at its current generation changes no generation.
pub proof fn lemma_touched_keeps_generations(gens: Map<u64, u64>, off: u64, x: u64)
    ensures
        generation_of(touched(gens, off), x) == generation_of(gens, x),
{
}

/// Where the bump pointer at `tail` places `layout` in an arena of `len`
/// bytes, if it fits (the rounding itself must stay within 64 bits).
pub open spec fn bump_offset(tail: u64, layout: ArenaLayout, len: nat) -> Option<u64> {
    if tail + layout.align - 1 > u64::MAX {
        None
    } else if round_up(tail as int, layout.align as int) + layout.size > len {
        None
    } else {
        Some(round_up(tail as int, layout.align as int) as u64)
    }
}

/// The outcome of a layout allocation: the offset handed out (or the error),
/// the new bump tail and the new free list.
pub open spec fn allocation_outcome(
    tail: u64,
    free: Seq<FreeBlock>,
    len: nat,
    layout: ArenaLayout,
) -> (Result<u64, ArenaError>, u64, Seq<FreeBlock>) {
    if !is_power_of_two(layout.align as u64) {
        (Err(ArenaError::BadLayout), tail, free)
    } else {
        match first_fit(free, layout) {
            Some(i) => (Ok(free[i].offset), tail, swap_removed(free, i)),
            None => match bump_offset(tail, layout, len) {
                Some(off) => (Ok(off), (off + layout.size) as u64, free),
                None => (Err(ArenaError::OutOfMemory), tail, free),
            },
        }
    }
}

/// Whether a handle to `size` bytes at `off` of generation `gen` may be used.
pub open spec fn access_result(gens: Map<u64, u64>, len: nat, off: u64, gen: u64, size: nat) -> Result<(), ArenaError> {
    if generation_of(gens, off) != gen {
        Err(ArenaError::StaleHandle)
    } else if off + size > len {
        Err(ArenaError::OutOfBounds(off as usize))
    } else {
        Ok(())
    }
}

#[derive(Debug)]
pub struct SharedArena {
    memory: Vec<u8>,
    tail: u64,
    free_list: Vec<FreeBlock>,
    generations: HashMap<u64, u64>,
}

impl SharedArena {
    /// The bytes of the mapped region.
    pub closed spec fn mem(&self) -> Seq<u8> {
        self.memory@
    }

    /// The bump pointer.
    pub closed spec fn tail_pos(&self) -> u64 {
        self.tail
    }

    /// Blocks returned for reuse, oldest first.
    pub closed spec fn free_blocks(&self) -> Seq<FreeBlock> {
        self.free_list@
    }

    /// Generations recorded per offset.
    pub closed spec fn generation_map(&self) -> Map<u64, u64> {
        self.generations@
    }

    pub closed spec fn wf(&self) -> bool {
        MIN_ARENA_SIZE <= self.memory@.len() <= usize::MAX
    }

    /// A well-formed arena holds at least the header and one word.
    pub proof fn lemma_wf_len(&self)
        requires
            self.wf(),
        ensures
            MIN_ARENA_SIZE <= self.mem().len() <= usize::MAX,
    {
    }

    /// The header stored at the start of the region.
    pub open spec fn stored_header(&self) -> ArenaHeader {
        header_from_bytes(self.mem())
    }

    /// What allocating `layout` in this arena yields.
    pub open spec fn allocation(&self, layout: ArenaLayout) -> (Result<u64, ArenaError>, u64, Seq<FreeBlock>) {
        allocation_outcome(self.tail_pos(), self.free_blocks(), self.mem().len(), layout)
    }

    /// Whether `h` may be used to access a `T` in this arena.
    pub open spec fn access<T: ArenaValue>(&self, h: Handle<T>) -> Result<(), ArenaError> {
        access_result(self.generation_map(), self.mem().len(), h.offset(), h.generation(), T::spec_size())
    }

    /// What reading a `T` through `h` yields.
    pub open spec fn read_result<T: ArenaValue>(&self, h: Handle<T>) -> Result<T, ArenaError> {
        match self.access(h) {
            Err(e) => Err(e),
            Ok(_) => Ok(T::spec_decode(self.mem().subrange(h.offset() as int, h.offset() + T::spec_size()))),
        }
    }

    /// Attaches an arena to the mapped region `memory`.  With `initialize`
    /// a fresh header is written; otherwise the existing header is checked
    /// and a publication orphaned by a silent owner is rolled back.
    pub fn from_raw_parts(memory: Vec<u8>, initialize: bool, owner_pid: u32, now_ns: u64) -> (r: Result<SharedArena, ArenaError>)
        ensures
            memory@.len() < MIN_ARENA_SIZE ==> r == Err::<SharedArena, ArenaError>(ArenaError::TooSmall),
            memory@.len() >= MIN_ARENA_SIZE && initialize ==> (r matches Ok(a) && {
                &&& a.wf()
                &&& a.mem() == splice(memory@, 0, header_bytes(fresh_header(memory@.len() as usize, owner_pid, now_ns)))
                &&& a.stored_header() == fresh_header(memory@.len() as usize, owner_pid, now_ns)
                &&& a.tail_pos() == ARENA_HEADER_SIZE
                &&& a.free_blocks() == Seq::<FreeBlock>::empty()
                &&& a.generation_map() == Map::<u64, u64>::empty()
            }),
            memory@.len() >= MIN_ARENA_SIZE && !initialize ==> ({
                let h = header_from_bytes(memory@);
                let report = recovery_report(h, now_ns, ATTACH_OWNER_TIMEOUT_NS);
                if report == RecoveryReport::HeaderCorrupted || report == RecoveryReport::TailOutOfBounds {
                    r == Err::<SharedArena, ArenaError>(ArenaError::CorruptedHeader)
                } else {
                    (r matches Ok(a) && {
                        &&& a.wf()
                        &&& a.mem() == (if report == RecoveryReport::PendingPublication {
                            splice(memory@, 0, header_bytes(rolled_back(h)))
                        } else {
                            memory@
                        })
                        &&& a.stored_header() == recovered_header(h, now_ns, ATTACH_OWNER_TIMEOUT_NS)
                        &&& a.tail_pos() == recovered_header(h, now_ns, ATTACH_OWNER_TIMEOUT_NS).committed_tail
                        &&& a.free_blocks() == Seq::<FreeBlock>::empty()
                        &&& a.generation_map() == Map::<u64, u64>::empty()
                    })
                }
            }),
    {
        if memory.len() < MIN_ARENA_SIZE {
            return Err(ArenaError::TooSmall);
        }
        let mut arena = SharedArena {
            memory,
            tail: ARENA_HEADER_SIZE as u64,
            free_list: Vec::new(),
            generations: HashMap::new(),
        };
        if initialize {
            let header = ArenaHeader::new(arena.memory.len(), owner_pid, now_ns);
            arena.write_header(&header);
        } else {
            let mut header = arena.header();
            let report = RecoveryReport::recover_in_place_with_timeout(
                &mut header,
                now_ns,
                ATTACH_OWNER_TIMEOUT_NS,
            );
            match report {
                RecoveryReport::HeaderCorrupted => {
                    return Err(ArenaError::CorruptedHeader);
                },
                RecoveryReport::TailOutOfBounds => {
                    return Err(ArenaError::CorruptedHeader);
                },
                RecoveryReport::PendingPublication => {
                    arena.write_header(&header);
                },
                RecoveryReport::Healthy => {},
            }
            arena.tail = header.committed_tail;
        }
        Ok(arena)
    }

    /// The bytes of the region, as they stand.
    pub fn bytes(&self) -> (r: &[u8])
        ensures
            r@ == self.mem(),
    {
        self.memory.as_slice()
    }

    /// Detaches the arena, handing back the mapped region.
    pub fn into_memory(self) -> (r: Vec<u8>)
        ensures
            r@ == self.mem(),
    {
        self.memory
    }

    /// Writes `header` over the start of the region.
    fn write_header(&mut self, header: &ArenaHeader)
        requires
            old(self).wf(),
        ensures
            final(self).wf(),
            final(self).mem() == splice(old(self).mem(), 0, header_bytes(*header)),
            final(self).mem().len() == old(self).mem().len(),
            final(self).stored_header() == *header,
            final(self).tail_pos() == old(self).tail_pos(),
            final(self).free_blocks() == old(self).free_blocks(),
            final(self).generation_map() == old(self).generation_map(),
    {
        let bytes = header.to_bytes();
        copy_into(&mut self.memory, 0, bytes.as_slice());
        proof {
            lemma_header_written(old(self).mem(), *header);
            crate::arena::header::lemma_header_roundtrip(*header);
        }
    }


    /// The generation of `offset`, recording it at generation 1 if unseen.
    fn current_generation_for_offset(&mut self, offset: u64) -> (r: u64)
        ensures
            r == generation_of(old(self).generation_map(), offset),
            final(self).generation_map() == touched(old(self).generation_map(), offset),
            final(self).mem() == old(self).mem(),
            final(self).tail_pos() == old(self).tail_pos(),
            final(self).free_blocks() == old(self).free_blocks(),
            old(self).wf() ==> final(self).wf(),
    {
        match self.generations.get(&offset) {
            Some(g) => *g,
            None => {
                self.generations.insert(offset, 1);
                1
            },
        }
    }

    /// Advances the generation of `offset`, so that older handles go stale.
    fn bump_generation(&mut self, offset: u64)
        ensures
            final(self).generation_map() == bumped(old(self).generation_map(), offset),
            final(self).mem() == old(self).mem(),
            final(self).tail_pos() == old(self).tail_pos(),
            final(self).free_blocks() == old(self).free_blocks(),
            old(self).wf() ==> final(self).wf(),
    {
        let current = match self.generations.get(&offset) {
            Some(g) => *g,
            None => 1,
        };
        self.generations.insert(offset, current.saturating_add(1));
    }

    fn validate_generation<T>(&self, handle: &Handle<T>) -> (r: Result<(), ArenaError>)
        ensures
            r == (if generation_of(self.generation_map(), handle.offset()) == handle.generation() {
                Ok::<(), ArenaError>(())
            } else {
                Err(ArenaError::StaleHandle)
            }),
    {
        let current = match self.generations.get(&handle.offset()) {
            Some(g) => *g,
            None => 1,
        };
        if current != handle.generation() {
            return Err(ArenaError::StaleHandle);
        }
        Ok(())
    }

    /// Takes the first free block that can serve `layout`.
    fn try_allocate_from_free_list(&mut self, layout: ArenaLayout) -> (r: Option<Handle<u8>>)
        requires
            layout.align > 0,
        ensures
            old(self).wf() ==> final(self).wf(),
            final(self).mem() == old(self).mem(),
            final(self).tail_pos() == old(self).tail_pos(),
            match first_fit(old(self).free_blocks(), layout) {
                Some(i) => {
                    let off = old(self).free_blocks()[i].offset;
                    &&& r matches Some(h) && h.offset() == off && h.generation() == generation_of(
                        old(self).generation_map(),
                        off,
                    )
                    &&& final(self).free_blocks() == swap_removed(old(self).free_blocks(), i)
                    &&& final(self).generation_map() == touched(old(self).generation_map(), off)
                },
                None => {
                    &&& r is None
                    &&& final(self).free_blocks() == old(self).free_blocks()
                    &&& final(self).generation_map() == old(self).generation_map()
                },
            },
    {
        let n = self.free_list.len();
        let mut i: usize = 0;
        while i < n
            invariant
                n == self.free_list@.len(),
                i <= n,
                layout.align > 0,
                *self == *old(self),
                first_fit_from(self.free_list@, layout, 0) == first_fit_from(
                    self.free_list@,
                    layout,
                    i as int,
                ),
            decreases n - i,
        {
            let block = self.free_list[i];
            if block.size >= layout.size && block.offset % (layout.align as u64) == 0 {
                self.free_list.swap_remove(i);
                let generation = self.current_generation_for_offset(block.offset);
                return Some(Handle::from_parts(block.offset, generation));
            }
            i = i + 1;
        }
        None
    }

    /// Allocates `layout.size` bytes aligned to `layout.align`: from the
    /// first fitting free block, else by advancing the bump pointer.
    pub fn allocate_layout(&mut self, layout: ArenaLayout) -> (r: Result<Handle<u8>, ArenaError>)
        requires
            old(self).wf(),
        ensures
            final(self).wf(),
            final(self).mem() == old(self).mem(),
            ({
                let (res, tail, free) = old(self).allocation(layout);
                &&& final(self).tail_pos() == tail
                &&& final(self).free_blocks() == free
                &&& match res {
                    Ok(off) => {
                        &&& r matches Ok(h) && h.offset() == off && h.generation() == generation_of(
                            old(self).generation_map(),
                            off,
                        )
                        &&& final(self).generation_map() == touched(old(self).generation_map(), off)
                    },
                    Err(e) => {
                        &&& r == Err::<Handle<u8>, ArenaError>(e)
                        &&& final(self).generation_map() == old(self).generation_map()
                    },
                }
            }),
            r matches Ok(h) ==> (h.offset() as int) % (layout.align as int) == 0,
            first_fit(old(self).free_blocks(), layout) is None ==> (r matches Ok(h) ==> h.offset()
                + layout.size <= old(self).mem().len()),
            is_power_of_two(layout.align as u64) && (exists|j: int|
                0 <= j < old(self).free_blocks().len() && (#[trigger] old(self).free_blocks()[j]).size
                    >= layout.size && (old(self).free_blocks()[j].offset as int) % (layout.align as int)
                    == 0) ==> {
                &&& r is Ok
                &&& final(self).tail_pos() == old(self).tail_pos()
                &&& final(self).free_blocks().len() + 1 == old(self).free_blocks().len()
            },
    {
        proof {
            if is_power_of_two(layout.align as u64) && (exists|j: int|
                0 <= j < old(self).free_blocks().len() && (#[trigger] old(self).free_blocks()[j]).size
                    >= layout.size && (old(self).free_blocks()[j].offset as int) % (layout.align as int)
                    == 0) {
                let f = old(self).free_blocks();
                let j = choose|j: int|
                    0 <= j < f.len() && (#[trigger] f[j]).size >= layout.size && (f[j].offset as int) % (
                    layout.align as int) == 0;
                lemma_first_fit_from_finds(f, layout, 0, j);
                lemma_first_fit_from(f, layout, 0);
            }
        }
        if !power_of_two(layout.align as u64) {
            return Err(ArenaError::BadLayout);
        }
        proof {
            vstd::arithmetic::power2::lemma_pow2_pos(0);
            reveal(vstd::arithmetic::power2::is_pow2);
        }
        proof {
            lemma_first_fit_from(self.free_list@, layout, 0);
        }
        match self.try_allocate_from_free_list(layout) {
            Some(handle) => {
                return Ok(handle);
            },
            None => {},
        }
        let current = self.tail;
        let align = layout.align as u64;
        if current > u64::MAX - (align - 1) {
            return Err(ArenaError::OutOfMemory);
        }
        let aligned = align_up(current, align);
        proof {
            let a = align as int;
            let q = (current + a - 1) / a;
            assert((q * a) % a == 0) by (nonlinear_arith)
                requires
                    a > 0,
            ;
        }
        let size = layout.size as u64;
        if aligned > u64::MAX - size {
            return Err(ArenaError::OutOfMemory);
        }
        let next = aligned + size;
        if next > self.memory.len() as u64 {
            return Err(ArenaError::OutOfMemory);
        }
        self.tail = next;
        let generation = self.current_generation_for_offset(aligned);
        Ok(Handle::from_parts(aligned, generation))
    }

    /// The byte offset `handle` designates, once its generation and bounds
    /// have been checked.
    pub fn ptr_from_handle<T: ArenaValue>(&self, handle: &Handle<T>) -> (r: Result<usize, ArenaError>)
        ensures
            match self.access(*handle) {
                Ok(_) => r == Ok::<usize, ArenaError>(handle.offset() as usize) && handle.offset()
                    + T::spec_size() <= self.mem().len() && handle.offset() as usize as int == handle.offset(),
                Err(e) => r == Err::<usize, ArenaError>(e),
            },
    {
        match self.validate_generation(handle) {
            Ok(()) => {},
            Err(e) => {
                return Err(e);
            },
        }
        let offset = handle.offset();
        let len = self.memory.len() as u64;
        let size = T::size() as u64;
        if offset > len || len - offset < size {
            return Err(ArenaError::OutOfBounds(offset as usize));
        }
        Ok(offset as usize)
    }

    /// Stores `value` in the slot of `handle`.
    pub fn write<T: ArenaValue>(&mut self, handle: &Handle<T>, value: T) -> (r: Result<(), ArenaError>)
        requires
            old(self).wf(),
        ensures
            final(self).wf(),
            r == old(self).access(*handle),
            r is Ok ==> final(self).mem() == splice(
                old(self).mem(),
                handle.offset() as int,
                T::spec_encode(value),
            ),
            r is Err ==> final(self).mem() == old(self).mem(),
            r is Ok ==> final(self).read_result(*handle) == Ok::<T, ArenaError>(value),
            final(self).tail_pos() == old(self).tail_pos(),
            final(self).free_blocks() == old(self).free_blocks(),
            final(self).generation_map() == old(self).generation_map(),
    {
        let offset = match self.ptr_from_handle(handle) {
            Ok(o) => o,
            Err(e) => {
                return Err(e);
            },
        };
        let bytes = value.encode();
        proof {
            T::lemma_codec(value);
        }
        copy_into(&mut self.memory, offset, bytes.as_slice());
        proof {
            let m = self.memory@;
            assert(m.subrange(offset as int, offset + T::spec_size()) =~= T::spec_encode(value));
        }
        Ok(())
    }

    /// Reads a copy of the value in the slot of `handle`.
    pub fn read_copy<T: ArenaValue>(&self, handle: Handle<T>) -> (r: Result<T, ArenaError>)
        ensures
            r == self.read_result(handle),
    {
        let offset = match self.ptr_from_handle(&handle) {
            Ok(o) => o,
            Err(e) => {
                return Err(e);
            },
        };
        let bytes = read_bytes(&self.memory, offset, T::size());
        Ok(T::decode(bytes.as_slice()))
    }

    /// Allocates a slot for a `T` and stores `value` in it.
    pub fn allocate_value<T: ArenaValue>(&mut self, value: T) -> (r: Result<Handle<T>, ArenaError>)
        requires
            old(self).wf(),
        ensures
            final(self).wf(),
            ({
                let layout = ArenaLayout { size: T::spec_size() as usize, align: T::spec_align() as usize };
                let (res, tail, free) = old(self).allocation(layout);
                match res {
                    Err(e) => {
                        &&& r == Err::<Handle<T>, ArenaError>(e)
                        &&& final(self).mem() == old(self).mem()
                        &&& final(self).tail_pos() == tail
                        &&& final(self).free_blocks() == free
                        &&& final(self).generation_map() == old(self).generation_map()
                    },
                    Ok(off) => {
                        &&& final(self).tail_pos() == tail
                        &&& final(self).free_blocks() == free
                        &&& final(self).generation_map() == touched(old(self).generation_map(), off)
                        &&& if off + T::spec_size() > old(self).mem().len() {
                            &&& r == Err::<Handle<T>, ArenaError>(ArenaError::OutOfBounds(off as usize))
                            &&& final(self).mem() == old(self).mem()
                        } else {
                            &&& r matches Ok(h) && h.offset() == off && h.generation() == generation_of(
                                old(self).generation_map(),
                                off,
                            )
                            &&& final(self).mem() == splice(old(self).mem(), off as int, T::spec_encode(value))
                        }
                    },
                }
            }),
            r matches Ok(h) ==> final(self).read_result(h) == Ok::<T, ArenaError>(value),
    {
        let layout = ArenaLayout::of::<T>();
        let raw = match self.allocate_layout(layout) {
            Ok(h) => h,
            Err(e) => {
                return Err(e);
            },
        };
        let handle = raw.cast::<T>();
        match self.write(&handle, value) {
            Ok(()) => {},
            Err(e) => {
                return Err(e);
            },
        }
        Ok(handle)
    }

    /// Returns the slot of `handle` to the free list and makes the handle
    /// (and every copy of it) stale.
    pub fn deallocate_layout<T>(&mut self, handle: Handle<T>, layout: ArenaLayout) -> (r: Result<(), ArenaError>)
        requires
            old(self).wf(),
        ensures
            final(self).wf(),
            final(self).mem() == old(self).mem(),
            final(self).tail_pos() == old(self).tail_pos(),
            generation_of(old(self).generation_map(), handle.offset()) != handle.generation() ==> {
                &&& r == Err::<(), ArenaError>(ArenaError::StaleHandle)
                &&& final(self).free_blocks() == old(self).free_blocks()
                &&& final(self).generation_map() == old(self).generation_map()
            },
            generation_of(old(self).generation_map(), handle.offset()) == handle.generation() ==> {
                &&& r == Ok::<(), ArenaError>(())
                &&& final(self).free_blocks() == old(self).free_blocks().push(
                    FreeBlock { offset: handle.offset(), size: layout.size },
                )
                &&& final(self).generation_map() == bumped(old(self).generation_map(), handle.offset())
            },
            r is Ok && handle.generation() < u64::MAX ==> generation_of(
                final(self).generation_map(),
                handle.offset(),
            ) != handle.generation(),
    {
        match self.validate_generation(&handle) {
            Ok(()) => {},
            Err(e) => {
                return Err(e);
            },
        }
        self.free_list.push(FreeBlock { offset: handle.offset(), size: layout.size });
        self.bump_generation(handle.offset());
        Ok(())
    }

    /// Completes the current publication: the header's committed tail
    /// becomes the bump pointer.
    pub fn commit(&mut self, owner_pid: u32, now_ns: u64)
        requires
            old(self).wf(),
        ensures
            final(self).wf(),
            final(self).stored_header() == committed_header(
                old(self).stored_header(),
                old(self).tail_pos(),
                owner_pid,
                now_ns,
            ),
            final(self).stored_header().committed_tail == old(self).tail_pos(),
            final(self).stored_header().prepared_tail == old(self).tail_pos(),
            header_state(final(self).stored_header()) == PublishState::Clean,
            final(self).mem() == splice(old(self).mem(), 0, header_bytes(final(self).stored_header())),
            final(self).mem().len() == old(self).mem().len(),
            final(self).tail_pos() == old(self).tail_pos(),
            final(self).free_blocks() == old(self).free_blocks(),
            final(self).generation_map() == old(self).generation_map(),
    {
        let committed = self.tail;
        let mut header = self.header();
        header.mark_commit(committed, owner_pid, now_ns);
        self.write_header(&header);
        proof {
            crate::arena::header::law_commit_aligns_tails(old(self).stored_header(), committed, owner_pid, now_ns);
        }
    }

    /// Starts a publication that will end at the current bump pointer.
    pub fn begin_publish(&mut self, owner_pid: u32, now_ns: u64)
        requires
            old(self).wf(),
        ensures
            final(self).wf(),
            final(self).stored_header() == prepared_header(
                old(self).stored_header(),
                old(self).tail_pos(),
                owner_pid,
                now_ns,
            ),
            final(self).mem() == splice(old(self).mem(), 0, header_bytes(final(self).stored_header())),
            final(self).mem().len() == old(self).mem().len(),
            final(self).tail_pos() == old(self).tail_pos(),
            final(self).free_blocks() == old(self).free_blocks(),
            final(self).generation_map() == old(self).generation_map(),
    {
        let prepared = self.tail;
        let mut header = self.header();
        header.mark_prepare(prepared, owner_pid, now_ns);
        self.write_header(&header);
    }

    /// Abandons the current publication: the bump pointer returns to the
    /// committed tail.
    pub fn abort_publish(&mut self)
        requires
            old(self).wf(),
        ensures
            final(self).wf(),
            final(self).tail_pos() == old(self).stored_header().committed_tail,
            final(self).stored_header() == rolled_back(old(self).stored_header()),
            final(self).mem() == splice(old(self).mem(), 0, header_bytes(final(self).stored_header())),
            final(self).mem().len() == old(self).mem().len(),
            final(self).free_blocks() == old(self).free_blocks(),
            final(self).generation_map() == old(self).generation_map(),
    {
        let mut header = self.header();
        self.tail = header.committed_tail;
        header.rollback_to_committed();
        self.write_header(&header);
    }

    #[verifier::when_used_as_spec(tail_pos)]
    pub fn current_tail(&self) -> (r: u64)
        ensures
            r == self.tail_pos(),
    {
        self.tail
    }

    /// Records that `owner_pid` is alive at `now_ns`.
    pub fn heartbeat(&mut self, owner_pid: u32, now_ns: u64)
        requires
            old(self).wf(),
        ensures
            final(self).wf(),
            final(self).stored_header() == heartbeat_header(old(self).stored_header(), owner_pid, now_ns),
            final(self).mem() == splice(old(self).mem(), 0, header_bytes(final(self).stored_header())),
            final(self).mem().len() == old(self).mem().len(),
            final(self).tail_pos() == old(self).tail_pos(),
            final(self).free_blocks() == old(self).free_blocks(),
            final(self).generation_map() == old(self).generation_map(),
    {
        let mut header = self.header();
        header.heartbeat(owner_pid, now_ns);
        self.write_header(&header);
    }

    /// Whether the owner has been silent for more than `timeout_ns` at `now_ns`.
    pub fn detect_dead_owner(&self, timeout_ns: u64, now_ns: u64) -> (r: bool)
        requires
            self.wf(),
        ensures
            r == owner_is_stale(self.stored_header(), now_ns, timeout_ns),
    {
        let header = self.header();
        header.is_owner_stale(now_ns, timeout_ns)
    }

    /// Rolls back a publication whose owner has been silent for more than
    /// `timeout_ns`; the bump pointer then returns to the committed tail.
    pub fn cleanup_orphaned_publication(&mut self, timeout_ns: u64, now_ns: u64) -> (r: RecoveryReport)
        requires
            old(self).wf(),
        ensures
            final(self).wf(),
            r == recovery_report(old(self).stored_header(), now_ns, timeout_ns),
            final(self).stored_header() == recovered_header(old(self).stored_header(), now_ns, timeout_ns),
            r == RecoveryReport::PendingPublication ==> {
                &&& final(self).mem() == splice(old(self).mem(), 0, header_bytes(final(self).stored_header()))
                &&& final(self).tail_pos() == old(self).stored_header().committed_tail
            },
            r != RecoveryReport::PendingPublication ==> {
                &&& final(self).mem() == old(self).mem()
                &&& final(self).tail_pos() == old(self).tail_pos()
            },
            final(self).free_blocks() == old(self).free_blocks(),
            final(self).generation_map() == old(self).generation_map(),
    {
        let mut header = self.header();
        let report = RecoveryReport::recover_in_place_with_timeout(&mut header, now_ns, timeout_ns);
        match report {
            RecoveryReport::PendingPublication => {
                self.write_header(&header);
                self.tail = header.committed_tail;
            },
            _ => {},
        }
        report
    }

    /// Publishes `value` with the two-phase protocol: the header is marked
    /// as preparing, the value is allocated and written, and the header is
    /// committed at the new bump pointer.  When allocation fails the
    /// publication is left prepared.
    #[verifier::rlimit(40)]
    #[verifier::spinoff_prover]
    pub fn publish_value<T: ArenaValue>(&mut self, value: T, owner_pid: u32, now_ns: u64) -> (r: Result<Handle<T>, ArenaError>)
        requires
            old(self).wf(),
        ensures
            final(self).wf(),
            publication(*old(self), *final(self), value, owner_pid, now_ns, r),
            r matches Ok(h) ==> (h.offset() >= ARENA_HEADER_SIZE ==> final(self).read_result(h) == Ok::<
                T,
                ArenaError,
            >(value)),
    {
        self.begin_publish(owner_pid, now_ns);
        let handle = match self.allocate_value(value) {
            Ok(h) => h,
            Err(e) => {
                return Err(e);
            },
        };
        let ghost written = *self;
        self.commit(owner_pid, now_ns);
        proof {
            T::lemma_codec(value);
            if handle.offset() >= ARENA_HEADER_SIZE {
                crate::arena::header::lemma_header_roundtrip(written.stored_header());
                crate::arena::header::lemma_header_unaffected_by_later_write(
                    splice(old(self).mem(), 0, header_bytes(prepared_header(old(self).stored_header(), old(self).tail_pos(), owner_pid, now_ns))),
                    handle.offset() as int,
                    T::spec_encode(value),
                );
                crate::arena::header::lemma_header_roundtrip(self.stored_header());
                crate::arena::layout::lemma_splice_preserves_later(
                    written.mem(),
                    0,
                    header_bytes(self.stored_header()),
                    handle.offset() as int,
                    T::spec_size() as int,
                );
                crate::arena::header::lemma_header_roundtrip(self.stored_header());
            }
        }
        Ok(handle)
    }

    pub fn len(&self) -> (r: usize)
        ensures
            r == self.mem().len(),
    {
        self.memory.len()
    }

    /// A copy of the header stored at the start of the region.
    pub fn header(&self) -> (r: ArenaHeader)
        requires
            self.wf(),
        ensures
            r == self.stored_header(),
    {
        ArenaHeader::from_bytes(self.memory.as_slice())
    }
}

} // verus!
