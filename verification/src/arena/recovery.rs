//! Attach-time inspection of an arena header and rollback of publications
//! that a dead writer left half done.

use vstd::prelude::*;
use crate::arena::header::{
    ArenaHeader, PublishState, header_is_valid, header_state, owner_is_stale, rolled_back,
    lemma_sealed_validity,
};

verus! {

#[derive(Debug, Clone, Copy, PartialEq, Eq, Structural)]
pub enum RecoveryReport {
    Healthy,
    HeaderCorrupted,
    TailOutOfBounds,
    PendingPublication,
}

/// Both tails lie within the arena size recorded in the header.
pub open spec fn tails_in_bounds(h: ArenaHeader) -> bool {
    h.committed_tail <= h.arena_size && h.prepared_tail <= h.arena_size
}

/// What `inspect` reports for `h`.
pub open spec fn inspect_report(h: ArenaHeader) -> RecoveryReport {
    if !header_is_valid(h) {
        RecoveryReport::HeaderCorrupted
    } else if !tails_in_bounds(h) {
        RecoveryReport::TailOutOfBounds
    } else if header_state(h) == PublishState::Preparing {
        RecoveryReport::PendingPublication
    } else {
        RecoveryReport::Healthy
    }
}

/// A publication is orphaned when the header is sound, it is still being
/// prepared and its owner has not sent a heartbeat within `timeout_ns`.
pub open spec fn orphaned_publication(h: ArenaHeader, now_ns: u64, timeout_ns: u64) -> bool {
    &&& header_is_valid(h)
    &&& tails_in_bounds(h)
    &&& header_state(h) == PublishState::Preparing
    &&& owner_is_stale(h, now_ns, timeout_ns)
}

/// What recovery reports for `h` at `now_ns`.
pub open spec fn recovery_report(h: ArenaHeader, now_ns: u64, timeout_ns: u64) -> RecoveryReport {
    if !header_is_valid(h) {
        RecoveryReport::HeaderCorrupted
    } else if !tails_in_bounds(h) {
        RecoveryReport::TailOutOfBounds
    } else if orphaned_publication(h, now_ns, timeout_ns) {
        RecoveryReport::PendingPublication
    } else {
        RecoveryReport::Healthy
    }
}

/// The header recovery leaves behind.
pub open spec fn recovered_header(h: ArenaHeader, now_ns: u64, timeout_ns: u64) -> ArenaHeader {
    if orphaned_publication(h, now_ns, timeout_ns) {
        rolled_back(h)
    } else {
        h
    }
}

impl RecoveryReport {
    pub fn inspect(header: &ArenaHeader) -> (r: RecoveryReport)
        ensures
            r == inspect_report(*header),
    {
        if !header.is_valid() {
            return RecoveryReport::HeaderCorrupted;
        }
        if header.committed_tail > header.arena_size {
            return RecoveryReport::TailOutOfBounds;
        }
        if header.prepared_tail > header.arena_size {
            return RecoveryReport::TailOutOfBounds;
        }
        if header.state() == PublishState::Preparing {
            return RecoveryReport::PendingPublication;
        }
        RecoveryReport::Healthy
    }

    /// Recovery with an owner that always counts as stale.
    pub fn recover_in_place(header: &mut ArenaHeader) -> (r: RecoveryReport)
        ensures
            r == recovery_report(*old(header), u64::MAX, 0),
            *final(header) == recovered_header(*old(header), u64::MAX, 0),
    {
        Self::recover_in_place_with_timeout(header, u64::MAX, 0)
    }

    pub fn recover_in_place_with_timeout(header: &mut ArenaHeader, now_ns: u64, timeout_ns: u64) -> (r:
        RecoveryReport)
        ensures
            r == recovery_report(*old(header), now_ns, timeout_ns),
            *final(header) == recovered_header(*old(header), now_ns, timeout_ns),
    {
        if !header.is_valid() {
            return RecoveryReport::HeaderCorrupted;
        }
        if header.committed_tail > header.arena_size || header.prepared_tail > header.arena_size {
            return RecoveryReport::TailOutOfBounds;
        }
        if header.state() == PublishState::Preparing && header.is_owner_stale(now_ns, timeout_ns) {
            header.rollback_to_committed();
            return RecoveryReport::PendingPublication;
        }
        RecoveryReport::Healthy
    }
}

/// Recovery reports what inspection reports, except that a publication whose
/// owner is still alive is left alone and reported healthy.
pub proof fn lemma_recovery_refines_inspection(h: ArenaHeader, now_ns: u64, timeout_ns: u64)
    ensures
        recovery_report(h, now_ns, timeout_ns) == (if inspect_report(h)
            == RecoveryReport::PendingPublication && !owner_is_stale(h, now_ns, timeout_ns) {
            RecoveryReport::Healthy
        } else {
            inspect_report(h)
        }),
{
}

/// A rolled-back publication leaves a valid, clean header whose prepared tail
/// equals the committed tail, which itself is unchanged.
pub proof fn lemma_rollback_restores_committed_state(h: ArenaHeader, now_ns: u64, timeout_ns: u64)
    requires
        recovery_report(h, now_ns, timeout_ns) == RecoveryReport::PendingPublication,
    ensures
        header_is_valid(recovered_header(h, now_ns, timeout_ns)),
        header_state(recovered_header(h, now_ns, timeout_ns)) == PublishState::Clean,
        recovered_header(h, now_ns, timeout_ns).committed_tail == h.committed_tail,
        recovered_header(h, now_ns, timeout_ns).prepared_tail == h.committed_tail,
{
    lemma_sealed_validity(ArenaHeader { prepared_tail: h.committed_tail, publish_state: 0, ..h });
}

/// A sound header with no publication in progress passes recovery
/// untouched: whatever was committed survives a reattachment.
pub proof fn lemma_clean_header_survives_recovery(h: ArenaHeader, now_ns: u64, timeout_ns: u64)
    requires
        header_is_valid(h),
        tails_in_bounds(h),
        header_state(h) == PublishState::Clean,
    ensures
        recovery_report(h, now_ns, timeout_ns) == RecoveryReport::Healthy,
        recovered_header(h, now_ns, timeout_ns) == h,
{
}

/// Recovering twice at the same instant: the second pass changes nothing and
/// reports `Healthy` after a rollback, or the same report otherwise.
pub proof fn lemma_recovery_idempotent(h: ArenaHeader, now_ns: u64, timeout_ns: u64)
    ensures
        ({
            let h1 = recovered_header(h, now_ns, timeout_ns);
            let r1 = recovery_report(h, now_ns, timeout_ns);
            &&& recovered_header(h1, now_ns, timeout_ns) == h1
            &&& recovery_report(h1, now_ns, timeout_ns) == (if r1
                == RecoveryReport::PendingPublication {
                RecoveryReport::Healthy
            } else {
                r1
            })
        }),
{
    if orphaned_publication(h, now_ns, timeout_ns) {
        lemma_rollback_restores_committed_state(h, now_ns, timeout_ns);
    }
}

} // verus!
