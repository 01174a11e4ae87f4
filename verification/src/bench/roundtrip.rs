//! The shared-memory round trip the benchmark times: each update is
//! allocated in the arena, its handle sent and received through a channel,
//! read back, checked and freed.

use vstd::prelude::*;
use crate::arena::allocator::{
    ArenaError, FreeBlock, SharedArena, bump_offset, block_fits, round_up, bumped, touched,
};
use crate::arena::layout::splice;
use crate::bits::is_power_of_two;
use crate::arena::frame::{blocks_sound, lemma_allocation_frame, lemma_first_fit_finds, lemma_release_parts};
use crate::arena::layout::ArenaLayout;
use crate::bench::data::{OrderUpdate, synthetic_update};
use crate::codec::ArenaValue;
use crate::ipc::channel::{SharedChannel, Producer, Consumer};
use crate::sync::ring_mpmc::RingError;

verus! {

#[derive(Debug, Clone, Copy, PartialEq, Eq, Structural)]
pub enum BenchError {
    Arena(ArenaError),
    Ring(RingError),
    SequenceMismatch { expected: u64, got: u64 },
}

/// One round trip of the update for `seq`.
#[verifier::rlimit(30)]
fn roundtrip_once(
    arena: &mut SharedArena,
    channel: &mut SharedChannel<OrderUpdate>,
    producer: &Producer<OrderUpdate>,
    consumer: &Consumer<OrderUpdate>,
    seq: u64,
    layout: ArenaLayout,
) -> (r: Result<(), BenchError>)
    requires
        old(arena).wf(),
        old(channel).wf(),
        old(channel).queued().len() == 0,
        old(channel).sent() + old(channel).spec_capacity() < u64::MAX,
        layout.size == 40 && layout.align == 8,
    ensures
        final(arena).wf(),
        final(channel).wf(),
        final(channel).queued().len() == 0,
        final(channel).spec_capacity() == old(channel).spec_capacity(),
        final(channel).sent() <= old(channel).sent() + 1,
        r is Ok ==> final(channel).sent() == old(channel).sent() + 1,
        r matches Err(e) ==> (e matches BenchError::Arena(_)),
        final(arena).mem().len() == old(arena).mem().len(),
        ({
            let (res, tail, free) = old(arena).allocation(layout);
            match res {
                Err(e) => r == Err::<(), BenchError>(BenchError::Arena(e)),
                Ok(off) => if off + 40 > old(arena).mem().len() {
                    r == Err::<(), BenchError>(BenchError::Arena(ArenaError::OutOfBounds(off as usize)))
                } else {
                    &&& r == Ok::<(), BenchError>(())
                    &&& final(arena).tail_pos() == tail
                    &&& final(arena).free_blocks() == free.push(FreeBlock { offset: off, size: 40 })
                    &&& final(arena).mem() == splice(
                        old(arena).mem(),
                        off as int,
                        OrderUpdate::spec_encode(synthetic_update(seq)),
                    )
                    &&& final(arena).generation_map() == bumped(touched(old(arena).generation_map(), off), off)
                },
            }
        }),
{
    let update = OrderUpdate::synthetic(seq);
    let ghost a0 = *arena;
    assert(layout == ArenaLayout { size: OrderUpdate::spec_size() as usize, align: OrderUpdate::spec_align() as usize });
    let handle = match arena.allocate_value(update) {
        Ok(h) => h,
        Err(e) => {
            return Err(BenchError::Arena(e));
        },
    };
    let ghost a1 = *arena;
    assert(a0.allocation(layout).0 == Ok::<u64, ArenaError>(handle.offset()));
    assert(handle.offset() + 40 <= a0.mem().len());
    proof {
        OrderUpdate::lemma_codec(update);
    }
    assert(a1.mem().len() == a0.mem().len());
    proof {
        channel.lemma_queued_bounded();
    }
    match producer.send(channel, handle) {
        Ok(()) => {},
        Err(e) => {
            return Err(BenchError::Ring(e));
        },
    }
    let received = match consumer.try_recv(channel) {
        Ok(h) => h,
        Err(e) => {
            return Err(BenchError::Ring(e));
        },
    };
    let read = match arena.read_copy(received) {
        Ok(v) => v,
        Err(e) => {
            return Err(BenchError::Arena(e));
        },
    };
    if read.sequence != seq {
        return Err(BenchError::SequenceMismatch { expected: seq, got: read.sequence });
    }
    match arena.deallocate_layout(received, layout) {
        Ok(()) => {},
        Err(e) => {
            return Err(BenchError::Arena(e));
        },
    }
    Ok(())
}

/// On an arena without free blocks the first round trip bumps: the slot it
/// gets is aligned, fits, and leaves the free list empty.
proof fn lemma_fresh_first(a: SharedArena)
    requires
        a.wf(),
        a.free_blocks().len() == 0,
    ensures
        a.allocation(ArenaLayout { size: 40, align: 8 }).0 is Ok ==> {
            let off = a.allocation(ArenaLayout { size: 40, align: 8 }).0->Ok_0;
            &&& off % 8 == 0
            &&& off + 40 <= a.mem().len()
            &&& a.allocation(ArenaLayout { size: 40, align: 8 }).1 == off + 40
            &&& a.allocation(ArenaLayout { size: 40, align: 8 }).2 == Seq::<FreeBlock>::empty()
        },
{
    let layout = ArenaLayout { size: 40, align: 8 };
    OrderUpdate::lemma_shape();
    assert(crate::arena::allocator::first_fit(a.free_blocks(), layout) is None);
    assert(a.free_blocks() =~= Seq::<FreeBlock>::empty());
    assert(is_power_of_two(8u64));
    a.lemma_wf_len();
    if let Some(off) = bump_offset(a.tail_pos(), layout, a.mem().len()) {
        let x = a.tail_pos() as int;
        crate::arena::allocator::lemma_round_up_bounds(x, 8);
        assert((((x + 7) / 8) * 8) % 8 == 0) by (nonlinear_arith);
        assert(off as int == round_up(x, 8));
        assert(a.allocation(layout) == (Ok::<u64, ArenaError>(off), (off + 40) as u64, a.free_blocks()));
    }
}

/// With the freed slot as the only free block, the next round trip takes it
/// again and leaves the bump pointer where it was.
proof fn lemma_fresh_reuse(a: SharedArena, off: u64)
    requires
        a.free_blocks() == seq![FreeBlock { offset: off, size: 40 }],
        off % 8 == 0,
        off + 40 <= a.mem().len(),
    ensures
        a.allocation(ArenaLayout { size: 40, align: 8 }) == (
            Ok::<u64, ArenaError>(off),
            a.tail_pos(),
            Seq::<FreeBlock>::empty(),
        ),
{
    let layout = ArenaLayout { size: 40, align: 8 };
    OrderUpdate::lemma_shape();
    assert(block_fits(a.free_blocks()[0], layout));
    assert(crate::arena::allocator::first_fit(a.free_blocks(), layout) == Some(0int));
    assert(crate::arena::allocator::swap_removed(a.free_blocks(), 0) =~= Seq::<FreeBlock>::empty());
}

/// Writing the update of round `seq` over the slot that held the update of
/// the round before leaves the slot holding only the newer one.
proof fn lemma_splice_same_slot(m: Seq<u8>, off: int, seq: u64)
    requires
        seq > 0,
        0 <= off,
        off + 40 <= m.len(),
    ensures
        splice(
            splice(m, off, OrderUpdate::spec_encode(synthetic_update((seq - 1) as u64))),
            off,
            OrderUpdate::spec_encode(synthetic_update(seq)),
        ) == splice(m, off, OrderUpdate::spec_encode(synthetic_update(seq))),
{
    OrderUpdate::lemma_codec(synthetic_update((seq - 1) as u64));
    OrderUpdate::lemma_codec(synthetic_update(seq));
    assert(splice(
        splice(m, off, OrderUpdate::spec_encode(synthetic_update((seq - 1) as u64))),
        off,
        OrderUpdate::spec_encode(synthetic_update(seq)),
    ) =~= splice(m, off, OrderUpdate::spec_encode(synthetic_update(seq))));
}

/// Runs `iterations` round trips of synthetic updates `0..iterations`.
/// Only allocation can fail: every handle sent is the one received, every
/// value read back is the value written, and every slot is freed again.
/// The first round trip fails exactly when the arena cannot serve its
/// allocation.  On an arena whose free blocks are sound every later round
/// trip finds a free slot that fits, so the run succeeds once the first
/// round trip did.  On an arena without free blocks the slot it frees serves
/// every later round trip, so the run then succeeds and ends with that one
/// slot free, holding the last update, and the bump pointer just past it.
pub fn plexus_roundtrips(
    arena: &mut SharedArena,
    channel: &mut SharedChannel<OrderUpdate>,
    iterations: u64,
) -> (r: Result<(), BenchError>)
    requires
        old(arena).wf(),
        old(channel).wf(),
        old(channel).queued().len() == 0,
        old(channel).sent() + iterations + old(channel).spec_capacity() < u64::MAX,
    ensures
        final(arena).wf(),
        final(channel).wf(),
        final(channel).queued().len() == 0,
        r matches Err(e) ==> (e matches BenchError::Arena(_)),
        iterations == 0 ==> r is Ok,
        iterations > 0 ==> match old(arena).allocation(ArenaLayout { size: 40, align: 8 }).0 {
            Err(e) => r == Err::<(), BenchError>(BenchError::Arena(e)),
            Ok(off) => off + 40 > old(arena).mem().len() ==> r == Err::<(), BenchError>(
                BenchError::Arena(ArenaError::OutOfBounds(off as usize)),
            ),
        },
        old(arena).free_blocks().len() == 0 ==> (r is Ok <==> (iterations == 0 || old(arena).allocation(
            ArenaLayout { size: 40, align: 8 },
        ).0 is Ok)),
        blocks_sound(*old(arena)) ==> (r is Ok <==> (iterations == 0 || old(arena).allocation(
            ArenaLayout { size: 40, align: 8 },
        ).0 is Ok)),
        blocks_sound(*old(arena)) && r is Ok ==> blocks_sound(*final(arena)),
        final(channel).sent() <= old(channel).sent() + iterations,
        r is Ok ==> final(channel).sent() == old(channel).sent() + iterations,
        final(arena).mem().len() == old(arena).mem().len(),
        old(arena).free_blocks().len() == 0 && iterations > 0 && r is Ok ==> ({
            let off = old(arena).allocation(ArenaLayout { size: 40, align: 8 }).0->Ok_0;
            &&& final(arena).free_blocks() == seq![FreeBlock { offset: off, size: 40 }]
            &&& final(arena).tail_pos() == off + 40
            &&& final(arena).mem() == splice(
                old(arena).mem(),
                off as int,
                OrderUpdate::spec_encode(synthetic_update((iterations - 1) as u64)),
            )
        }),
{
    let (producer, consumer) = channel.split();
    let layout = ArenaLayout::of::<OrderUpdate>();
    let ghost sent0 = channel.sent();
    let ghost a0 = *arena;
    let ghost fresh = a0.free_blocks().len() == 0;
    let ghost sound = blocks_sound(a0);
    let mut seq: u64 = 0;
    while seq < iterations
        invariant
            arena.wf(),
            channel.wf(),
            channel.queued().len() == 0,
            channel.sent() == sent0 + seq,
            sent0 + iterations + channel.spec_capacity() < u64::MAX,
            seq <= iterations,
            layout == (ArenaLayout { size: 40, align: 8 }),
            a0 == *old(arena),
            sent0 == old(channel).sent(),
            seq == 0 ==> *arena == a0,
            seq > 0 ==> (a0.allocation(layout).0 matches Ok(off) && off + 40 <= a0.mem().len()),
            fresh == (a0.free_blocks().len() == 0),
            sound == blocks_sound(a0),
            sound ==> blocks_sound(*arena),
            sound && seq > 0 ==> arena.free_blocks().len() > 0 && block_fits(arena.free_blocks().last(), layout),
            arena.mem().len() == a0.mem().len(),
            fresh && seq > 0 ==> {
                let off = a0.allocation(layout).0->Ok_0;
                &&& arena.free_blocks() == seq![FreeBlock { offset: off, size: 40 }]
                &&& block_fits(arena.free_blocks()[0], layout)
                &&& off + 40 <= arena.mem().len()
                &&& arena.tail_pos() == off + 40
                &&& arena.mem() == splice(
                    a0.mem(),
                    off as int,
                    OrderUpdate::spec_encode(synthetic_update((seq - 1) as u64)),
                )
            },
        decreases iterations - seq,
    {
        let ghost before = *arena;
        proof {
            if sound {
                lemma_allocation_frame(before, layout);
                OrderUpdate::lemma_shape();
                if seq > 0 {
                    let f = before.free_blocks();
                    lemma_first_fit_finds(f, layout, 0, f.len() - 1);
                }
            }
            if fresh {
                if seq > 0 {
                    lemma_fresh_reuse(before, a0.allocation(layout).0->Ok_0);
                } else {
                    lemma_fresh_first(before);
                }
            }
        }
        match roundtrip_once(arena, channel, &producer, &consumer, seq, layout) {
            Ok(()) => {},
            Err(e) => {
                return Err(e);
            },
        }
        proof {
            if sound {
                let (res, tail, free) = before.allocation(layout);
                let off = res->Ok_0;
                lemma_release_parts(tail, free, off, 40);
                assert(arena.free_blocks().last() == FreeBlock { offset: off, size: 40 });
            }
            if fresh {
                let off = a0.allocation(layout).0->Ok_0;
                assert(arena.free_blocks() =~= seq![FreeBlock { offset: off, size: 40 }]);
                if seq > 0 {
                    lemma_splice_same_slot(a0.mem(), off as int, seq);
                }
            }
        }
        seq = seq + 1;
    }
    Ok(())
}

} // verus!
