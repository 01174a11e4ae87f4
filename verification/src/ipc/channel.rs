//! A channel of arena handles with its producer and consumer roles, and the
//! endpoint that publishes values into an arena and passes their handles
//! through a channel.

use vstd::prelude::*;
use core::marker::PhantomData;
use crate::arena::allocator::{ArenaError, SharedArena, publication};
use crate::arena::frame::{blocks_sound, lemma_publication_frame};
use crate::arena::header::{PublishState, header_state};
use crate::codec::ArenaValue;
use crate::ptr::handle::Handle;
use crate::sync::ring_mpmc::{RingError, SharedRing};
use crate::sys::mapping::MappingError;
use crate::telemetry::metrics::{Metrics, MetricSnapshot, wrapping_add_u64};
use crate::telemetry::clock::{instant_now, instant_elapsed, duration_as_nanos};

verus! {

pub struct SharedChannel<T> {
    ring: SharedRing<Handle<T>>,
}

/// The sending role of a channel.
pub struct Producer<T> {
    _marker: PhantomData<T>,
}

/// The receiving role of a channel.
pub struct Consumer<T> {
    _marker: PhantomData<T>,
}

#[derive(Debug, Clone, Copy, PartialEq, Eq, Structural)]
pub enum IpcError {
    Arena(ArenaError),
    Ring(RingError),
    PoisonedLock,
    Mapping(MappingError),
}

#[derive(Debug, Clone, Copy, PartialEq, Eq, Structural)]
pub enum ErrorClass {
    Recoverable,
    Fatal,
    Programmer,
}

/// How an error should be handled: a full or empty ring is transient,
/// misuse of layouts or handles is a programming error, the rest is fatal.
pub open spec fn error_class(e: IpcError) -> ErrorClass {
    match e {
        IpcError::Ring(_) => ErrorClass::Recoverable,
        IpcError::Arena(ArenaError::BadLayout) => ErrorClass::Programmer,
        IpcError::Arena(ArenaError::OutOfBounds(_)) => ErrorClass::Programmer,
        IpcError::Arena(ArenaError::StaleHandle) => ErrorClass::Programmer,
        IpcError::Arena(_) => ErrorClass::Fatal,
        IpcError::PoisonedLock => ErrorClass::Fatal,
        IpcError::Mapping(_) => ErrorClass::Fatal,
    }
}

impl IpcError {
    pub fn class(&self) -> (r: ErrorClass)
        ensures
            r == error_class(*self),
    {
        match self {
            IpcError::Ring(RingError::Full) => ErrorClass::Recoverable,
            IpcError::Ring(RingError::Empty) => ErrorClass::Recoverable,
            IpcError::Arena(ArenaError::BadLayout) => ErrorClass::Programmer,
            IpcError::Arena(ArenaError::OutOfBounds(_)) => ErrorClass::Programmer,
            IpcError::Arena(ArenaError::StaleHandle) => ErrorClass::Programmer,
            IpcError::Mapping(_) => ErrorClass::Fatal,
            IpcError::PoisonedLock => ErrorClass::Fatal,
            IpcError::Arena(_) => ErrorClass::Fatal,
            IpcError::Ring(_) => ErrorClass::Recoverable,
        }
    }
}

impl<T> SharedChannel<T> {
    pub closed spec fn wf(&self) -> bool {
        self.ring.wf()
    }

    /// Handles waiting to be received, oldest first.
    pub closed spec fn queued(&self) -> Seq<Handle<T>> {
        self.ring.queued()
    }

    /// Number of handles sent so far.
    pub closed spec fn sent(&self) -> nat {
        self.ring.pushed()
    }

    pub closed spec fn spec_capacity(&self) -> nat {
        self.ring.spec_capacity()
    }

    /// A well-formed channel never holds more handles than its capacity, and
    /// that capacity is at least two.
    pub proof fn lemma_queued_bounded(&self)
        requires
            self.wf(),
        ensures
            self.queued().len() <= self.spec_capacity(),
            self.spec_capacity() >= 2,
    {
        self.ring.lemma_queued_bounded();
    }

    /// A channel holding at most `capacity` handles, a power of two above one.
    pub fn new(capacity: usize) -> (r: Result<SharedChannel<T>, RingError>)
        ensures
            (capacity <= 1 || !crate::bits::is_power_of_two(capacity as u64)) ==> r == Err::<
                SharedChannel<T>,
                RingError,
            >(RingError::InvalidCapacity),
            !(capacity <= 1 || !crate::bits::is_power_of_two(capacity as u64)) ==> (r matches Ok(c) && {
                &&& c.wf()
                &&& c.queued() == Seq::<Handle<T>>::empty()
                &&& c.sent() == 0
                &&& c.spec_capacity() == capacity
            }),
    {
        match SharedRing::with_capacity(capacity) {
            Ok(ring) => Ok(SharedChannel { ring }),
            Err(e) => Err(e),
        }
    }

    /// The producer and consumer roles of this channel.
    pub fn split(&self) -> (r: (Producer<T>, Consumer<T>)) {
        (Producer { _marker: PhantomData }, Consumer { _marker: PhantomData })
    }

    /// Number of handles waiting to be received.
    pub fn len(&self) -> (r: usize)
        requires
            self.wf(),
        ensures
            r as nat == self.queued().len(),
    {
        self.ring.len_estimate()
    }
}

impl<T> Producer<T> {
    /// Sends `handle` unless the channel is full.
    pub fn send(&self, channel: &mut SharedChannel<T>, handle: Handle<T>) -> (r: Result<(), RingError>)
        requires
            old(channel).wf(),
            old(channel).sent() + old(channel).spec_capacity() < u64::MAX,
        ensures
            final(channel).wf(),
            final(channel).spec_capacity() == old(channel).spec_capacity(),
            old(channel).queued().len() < old(channel).spec_capacity() ==> {
                &&& r == Ok::<(), RingError>(())
                &&& final(channel).queued() == old(channel).queued().push(handle)
                &&& final(channel).sent() == old(channel).sent() + 1
            },
            old(channel).queued().len() >= old(channel).spec_capacity() ==> {
                &&& r == Err::<(), RingError>(RingError::Full)
                &&& final(channel).queued() == old(channel).queued()
                &&& final(channel).sent() == old(channel).sent()
            },
    {
        proof {
            channel.ring.lemma_queued_bounded();
        }
        channel.ring.try_push(handle)
    }
}

impl<T> Consumer<T> {
    /// Receives the oldest handle unless the channel is empty.
    pub fn try_recv(&self, channel: &mut SharedChannel<T>) -> (r: Result<Handle<T>, RingError>)
        requires
            old(channel).wf(),
        ensures
            final(channel).wf(),
            final(channel).spec_capacity() == old(channel).spec_capacity(),
            final(channel).sent() == old(channel).sent(),
            old(channel).queued().len() > 0 ==> {
                &&& r == Ok::<Handle<T>, RingError>(old(channel).queued()[0])
                &&& final(channel).queued() == old(channel).queued().drop_first()
            },
            old(channel).queued().len() == 0 ==> {
                &&& r == Err::<Handle<T>, RingError>(RingError::Empty)
                &&& final(channel).queued() == old(channel).queued()
            },
    {
        channel.ring.try_pop()
    }
}

} // verus!

verus! {

/// An arena and a channel used together: values are published into the
/// arena and their handles passed through the channel.
pub struct SharedEndpoint<T> {
    arena: SharedArena,
    channel: SharedChannel<T>,
    producer: Producer<T>,
    consumer: Consumer<T>,
    metrics: Metrics,
}

/// The larger of two depths.
pub open spec fn max_u64(a: u64, b: u64) -> u64 {
    if a >= b {
        a
    } else {
        b
    }
}

impl<T: ArenaValue> SharedEndpoint<T> {
    pub closed spec fn wf(&self) -> bool {
        self.arena.wf() && self.channel.wf()
    }

    pub closed spec fn arena_view(&self) -> SharedArena {
        self.arena
    }

    /// Handles sent and not yet received, oldest first.
    pub closed spec fn queued(&self) -> Seq<Handle<T>> {
        self.channel.queued()
    }

    /// Number of handles sent so far.
    pub closed spec fn sent(&self) -> nat {
        self.channel.sent()
    }

    pub closed spec fn spec_capacity(&self) -> nat {
        self.channel.spec_capacity()
    }

    pub closed spec fn stats(&self) -> MetricSnapshot {
        self.metrics.view_snapshot()
    }

    pub closed spec fn latency_total(&self) -> u64 {
        self.metrics.latency_total()
    }

    /// What receiving yields: the value behind the oldest handle.
    pub open spec fn receive_outcome(&self) -> Result<T, IpcError> {
        if self.queued().len() == 0 {
            Err(IpcError::Ring(RingError::Empty))
        } else {
            match self.arena_view().read_result(self.queued()[0]) {
                Ok(v) => Ok(v),
                Err(e) => Err(IpcError::Arena(e)),
            }
        }
    }

    pub fn new(arena: SharedArena, channel_capacity: usize) -> (r: Result<SharedEndpoint<T>, IpcError>)
        requires
            arena.wf(),
        ensures
            (channel_capacity <= 1 || !crate::bits::is_power_of_two(channel_capacity as u64)) ==> r
                == Err::<SharedEndpoint<T>, IpcError>(IpcError::Ring(RingError::InvalidCapacity)),
            !(channel_capacity <= 1 || !crate::bits::is_power_of_two(channel_capacity as u64)) ==> (r matches Ok(e) && {
                &&& e.wf()
                &&& e.arena_view() == arena
                &&& e.queued() == Seq::<Handle<T>>::empty()
                &&& e.sent() == 0
                &&& e.spec_capacity() == channel_capacity
                &&& e.latency_total() == 0
                &&& e.stats() == (MetricSnapshot {
                    enqueue_ok: 0,
                    enqueue_full: 0,
                    dequeue_ok: 0,
                    dequeue_empty: 0,
                    send_latency_avg_ns: 0,
                    send_latency_samples: 0,
                    queue_depth_high_watermark: 0,
                    failed_attaches: 0,
                    reclaim_lag_current: 0,
                })
            }),
    {
        let channel = match SharedChannel::<T>::new(channel_capacity) {
            Ok(c) => c,
            Err(e) => {
                return Err(IpcError::Ring(e));
            },
        };
        let (producer, consumer) = channel.split();
        Ok(SharedEndpoint { arena, channel, producer, consumer, metrics: Metrics::default() })
    }

    pub fn arena(&self) -> (r: &SharedArena)
        ensures
            *r == self.arena_view(),
    {
        &self.arena
    }

    pub fn metrics(&self) -> (r: &Metrics)
        ensures
            r.view_snapshot() == self.stats(),
            r.latency_total() == self.latency_total(),
    {
        &self.metrics
    }

    pub fn metrics_mut(&mut self) -> (r: &mut Metrics)
        ensures
            r.view_snapshot() == old(self).stats(),
            r.latency_total() == old(self).latency_total(),
            final(self).stats() == final(r).view_snapshot(),
            final(self).latency_total() == final(r).latency_total(),
            final(self).arena_view() == old(self).arena_view(),
            final(self).queued() == old(self).queued(),
            final(self).sent() == old(self).sent(),
            final(self).spec_capacity() == old(self).spec_capacity(),
            final(self).wf() == old(self).wf(),
    {
        &mut self.metrics
    }

    /// Records a completed send that took `latency_ns`: one more successful
    /// enqueue, one more latency sample, and the current queue depth.
    pub fn record_send_success(&mut self, latency_ns: u64)
        requires
            old(self).wf(),
        ensures
            final(self).wf(),
            final(self).latency_total() == wrapping_add_u64(old(self).latency_total(), latency_ns),
            final(self).stats() == (MetricSnapshot {
                enqueue_ok: wrapping_add_u64(old(self).stats().enqueue_ok, 1),
                send_latency_samples: wrapping_add_u64(old(self).stats().send_latency_samples, 1),
                send_latency_avg_ns: crate::telemetry::metrics::average_latency(
                    final(self).latency_total(),
                    wrapping_add_u64(old(self).stats().send_latency_samples, 1),
                ),
                queue_depth_high_watermark: max_u64(
                    old(self).stats().queue_depth_high_watermark,
                    old(self).queued().len() as u64,
                ),
                ..old(self).stats()
            }),
            final(self).arena_view() == old(self).arena_view(),
            final(self).queued() == old(self).queued(),
            final(self).sent() == old(self).sent(),
            final(self).spec_capacity() == old(self).spec_capacity(),
    {
        self.metrics.observe_send_latency_ns(latency_ns);
        self.metrics.on_enqueue_ok();
        let depth = self.channel.len() as u64;
        self.metrics.observe_queue_depth(depth);
    }

    /// Publishes `value` into the arena (prepare, allocate and write, commit)
    /// and sends its handle.
    pub fn send_copy(&mut self, value: T, owner_pid: u32, now_ns: u64) -> (r: Result<(), IpcError>)
        requires
            old(self).wf(),
            old(self).sent() + old(self).spec_capacity() < u64::MAX,
        ensures
            final(self).wf(),
            final(self).spec_capacity() == old(self).spec_capacity(),
            r matches Err(IpcError::Arena(e)) ==> publication(
                old(self).arena_view(),
                final(self).arena_view(),
                value,
                owner_pid,
                now_ns,
                Err(e),
            ),
            r is Ok ==> publication(
                old(self).arena_view(),
                final(self).arena_view(),
                value,
                owner_pid,
                now_ns,
                Ok(final(self).queued().last()),
            ),
            r matches Err(IpcError::Ring(_)) ==> exists|h: Handle<T>|
                #[trigger] publication(
                    old(self).arena_view(),
                    final(self).arena_view(),
                    value,
                    owner_pid,
                    now_ns,
                    Ok(h),
                ),
            ({
                let a0 = old(self).arena_view();
                let a1 = final(self).arena_view();
                let layout = crate::arena::layout::ArenaLayout {
                    size: T::spec_size() as usize,
                    align: T::spec_align() as usize,
                };
                let (res, tail, free) = a0.allocation(layout);
                let prepared = crate::arena::header::prepared_header(
                    a0.stored_header(),
                    a0.tail_pos(),
                    owner_pid,
                    now_ns,
                );
                match res {
                    Err(e) => {
                        &&& r == Err::<(), IpcError>(IpcError::Arena(e))
                        &&& a1.stored_header() == prepared
                        &&& final(self).queued() == old(self).queued()
                        &&& final(self).stats() == old(self).stats()
                    },
                    Ok(off) => if off + T::spec_size() > a0.mem().len() {
                        &&& r == Err::<(), IpcError>(IpcError::Arena(ArenaError::OutOfBounds(off as usize)))
                        &&& a1.stored_header() == prepared
                        &&& final(self).queued() == old(self).queued()
                        &&& final(self).stats() == old(self).stats()
                    } else {
                        &&& a1.tail_pos() == tail
                        &&& a1.free_blocks() == free
                        &&& off >= crate::arena::header::ARENA_HEADER_SIZE ==> a1.stored_header()
                            == crate::arena::header::committed_header(prepared, tail, owner_pid, now_ns)
                        &&& header_state(a1.stored_header()) == PublishState::Clean
                        &&& if old(self).queued().len() >= old(self).spec_capacity() {
                            &&& r == Err::<(), IpcError>(IpcError::Ring(RingError::Full))
                            &&& final(self).queued() == old(self).queued()
                            &&& final(self).stats() == (MetricSnapshot {
                                enqueue_full: wrapping_add_u64(old(self).stats().enqueue_full, 1),
                                ..old(self).stats()
                            })
                        } else {
                            &&& r == Ok::<(), IpcError>(())
                            &&& final(self).queued().len() == old(self).queued().len() + 1
                            &&& final(self).queued().drop_last() == old(self).queued()
                            &&& final(self).queued().last().offset() == off
                            &&& final(self).queued().last().generation()
                                == crate::arena::allocator::generation_of(a0.generation_map(), off)
                            &&& off >= crate::arena::header::ARENA_HEADER_SIZE ==> a1.read_result(
                                final(self).queued().last(),
                            ) == Ok::<T, ArenaError>(value)
                            &&& final(self).stats() == (MetricSnapshot {
                                enqueue_ok: wrapping_add_u64(old(self).stats().enqueue_ok, 1),
                                send_latency_samples: wrapping_add_u64(
                                    old(self).stats().send_latency_samples,
                                    1,
                                ),
                                send_latency_avg_ns: crate::telemetry::metrics::average_latency(
                                    final(self).latency_total(),
                                    wrapping_add_u64(old(self).stats().send_latency_samples, 1),
                                ),
                                queue_depth_high_watermark: max_u64(
                                    old(self).stats().queue_depth_high_watermark,
                                    (old(self).queued().len() + 1) as u64,
                                ),
                                ..old(self).stats()
                            })
                        }
                    },
                }
            }),
    {
        let started = instant_now();
        let handle = match self.arena.publish_value(value, owner_pid, now_ns) {
            Ok(h) => h,
            Err(e) => {
                return Err(IpcError::Arena(e));
            },
        };
        match self.producer.send(&mut self.channel, handle) {
            Ok(()) => {},
            Err(e) => {
                self.metrics.on_enqueue_full();
                return Err(IpcError::Ring(e));
            },
        }
        let elapsed = instant_elapsed(&started);
        let latency_ns = duration_as_nanos(&elapsed) as u64;
        self.record_send_success(latency_ns);
        Ok(())
    }

    /// Receives the oldest handle and reads a copy of its value.
    pub fn try_recv_copy(&mut self) -> (r: Result<T, IpcError>)
        requires
            old(self).wf(),
        ensures
            final(self).wf(),
            r == old(self).receive_outcome(),
            final(self).arena_view() == old(self).arena_view(),
            final(self).sent() == old(self).sent(),
            final(self).spec_capacity() == old(self).spec_capacity(),
            final(self).latency_total() == old(self).latency_total(),
            old(self).queued().len() == 0 ==> {
                &&& final(self).queued() == old(self).queued()
                &&& final(self).stats() == (MetricSnapshot {
                    dequeue_empty: wrapping_add_u64(old(self).stats().dequeue_empty, 1),
                    ..old(self).stats()
                })
            },
            old(self).queued().len() > 0 ==> final(self).queued() == old(self).queued().drop_first(),
            old(self).queued().len() > 0 && r is Err ==> final(self).stats() == old(self).stats(),
            old(self).queued().len() > 0 && r is Ok ==> final(self).stats() == (MetricSnapshot {
                dequeue_ok: wrapping_add_u64(old(self).stats().dequeue_ok, 1),
                queue_depth_high_watermark: max_u64(
                    old(self).stats().queue_depth_high_watermark,
                    (old(self).queued().len() - 1) as u64,
                ),
                ..old(self).stats()
            }),
    {
        let handle = match self.consumer.try_recv(&mut self.channel) {
            Ok(h) => h,
            Err(e) => {
                self.metrics.on_dequeue_empty();
                return Err(IpcError::Ring(e));
            },
        };
        let value = match self.arena.read_copy(handle) {
            Ok(v) => v,
            Err(e) => {
                return Err(IpcError::Arena(e));
            },
        };
        self.metrics.on_dequeue_ok();
        let depth = self.channel.len() as u64;
        self.metrics.observe_queue_depth(depth);
        Ok(value)
    }
}

/// Sending into an endpoint with nothing queued and then receiving gives
/// back the value sent: when `e1` is what a successful `send_copy(value)`
/// leaves of `e0` (the value published with handle `h`, and `h` queued),
/// receiving from `e1` yields `value`.  The arena's free blocks must be
/// sound, as they are for a freshly initialised arena.
pub proof fn law_send_then_receive<T: ArenaValue>(
    e0: SharedEndpoint<T>,
    e1: SharedEndpoint<T>,
    value: T,
    owner_pid: u32,
    now_ns: u64,
    h: Handle<T>,
)
    requires
        e0.arena_view().wf(),
        blocks_sound(e0.arena_view()),
        e0.queued().len() == 0,
        e1.queued() == e0.queued().push(h),
        publication(e0.arena_view(), e1.arena_view(), value, owner_pid, now_ns, Ok(h)),
    ensures
        e1.receive_outcome() == Ok::<T, IpcError>(value),
{
    lemma_publication_frame(e0.arena_view(), e1.arena_view(), value, owner_pid, now_ns, Ok(h));
    assert(e1.queued()[0] == h);
}

} // verus!
