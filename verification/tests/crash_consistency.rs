use plexus::{Handle, PublishState, RecoveryReport, SharedArena};

const PID: u32 = 31;
const NOW: u64 = 1_000_000;

#[test]
fn pending_publication_is_rolled_back_on_reattach() {
    let backing = vec![0_u8; 4096];

    let (memory, committed_tail, orphan_handle_offset) = {
        let mut arena =
            SharedArena::from_raw_parts(backing, true, PID, NOW).expect("arena init");
        let first = arena.allocate_value(7_u64).expect("allocate first");
        arena.begin_publish(PID, NOW);
        arena.commit(PID, NOW);
        assert_eq!(arena.read_copy(first).expect("read first"), 7);

        let committed_tail = arena.current_tail();
        arena.begin_publish(PID, NOW);
        // Simulate crash after prepare/allocation and before commit.
        let orphan = arena.allocate_value(99_u64).expect("allocate orphan");
        assert_eq!(arena.header().state(), PublishState::Preparing);
        (arena.into_memory(), committed_tail, orphan.offset())
    };

    // The same memory attached again by another "process", shortly after.
    let mut recovered =
        SharedArena::from_raw_parts(memory, false, PID + 1, NOW + 1).expect("reopen");
    let report = recovered.cleanup_orphaned_publication(1, NOW + 3);
    assert_eq!(report, RecoveryReport::PendingPublication);
    assert_eq!(recovered.header().state(), PublishState::Clean);
    assert_eq!(recovered.current_tail(), committed_tail);

    let next = recovered
        .allocate_value(123_u64)
        .expect("allocate after recover");
    assert_eq!(next.offset(), orphan_handle_offset);
}

#[test]
fn committed_publication_survives_writer_crash_before_notify() {
    let backing = vec![0_u8; 4096];

    let (memory, committed_tail) = {
        let mut arena =
            SharedArena::from_raw_parts(backing, true, PID, NOW).expect("arena init");
        arena.begin_publish(PID, NOW);
        let _ = arena
            .allocate_value(55_u64)
            .expect("allocate committed value");
        arena.commit(PID, NOW);
        let tail = arena.current_tail();
        (arena.into_memory(), tail)
    };

    let recovered = SharedArena::from_raw_parts(memory, false, PID, NOW + 1).expect("reopen");
    assert_eq!(recovered.header().state(), PublishState::Clean);
    assert_eq!(recovered.current_tail(), committed_tail);

    let handle = Handle::<u64>::from_offset(committed_tail - std::mem::size_of::<u64>() as u64);
    assert_eq!(recovered.read_copy(handle).expect("read committed"), 55);
}

#[test]
fn stale_owner_orphan_cleanup_rolls_back_prepared_tail() {
    let backing = vec![0_u8; 4096];
    let mut arena = SharedArena::from_raw_parts(backing, true, PID, NOW).expect("arena init");

    arena.begin_publish(PID, NOW);
    let orphan = arena.allocate_value(9_u64).expect("orphan");
    assert_eq!(arena.header().state(), PublishState::Preparing);

    // Two milliseconds later, with a one-nanosecond timeout.
    let report = arena.cleanup_orphaned_publication(1, NOW + 2_000_000);
    assert_eq!(report, RecoveryReport::PendingPublication);
    assert_eq!(arena.header().state(), PublishState::Clean);

    let next = arena.allocate_value(17_u64).expect("post cleanup alloc");
    assert_eq!(next.offset(), orphan.offset());
}

#[test]
fn recovery_on_reattach_is_deterministic_across_cycles() {
    let backing = vec![0_u8; 4096];

    let (mut memory, committed_tail) = {
        let mut arena =
            SharedArena::from_raw_parts(backing, true, PID, NOW).expect("arena init");
        arena.begin_publish(PID, NOW);
        let _ = arena.allocate_value(77_u64).expect("allocate committed");
        arena.commit(PID, NOW);
        let committed = arena.current_tail();
        arena.begin_publish(PID, NOW);
        let _ = arena.allocate_value(88_u64).expect("allocate orphan");
        (arena.into_memory(), committed)
    };

    for idx in 0..5 {
        let mut recovered =
            SharedArena::from_raw_parts(memory, false, PID, NOW + 1).expect("reopen");
        let report = recovered.cleanup_orphaned_publication(1, NOW + 10);
        // First attach performs rollback; later attaches should remain healthy and idempotent.
        if idx == 0 {
            assert_eq!(report, RecoveryReport::PendingPublication);
        } else {
            assert_eq!(report, RecoveryReport::Healthy);
        }
        assert_eq!(recovered.header().state(), PublishState::Clean);
        assert_eq!(recovered.current_tail(), committed_tail);
        memory = recovered.into_memory();
    }
}

#[test]
fn attach_rolls_back_a_publication_of_a_long_silent_owner() {
    let mut arena = SharedArena::from_raw_parts(vec![0_u8; 4096], true, PID, NOW).expect("init");
    arena.begin_publish(PID, NOW);
    let committed = arena.header().committed_tail;
    let _ = arena.allocate_value(1_u64).expect("orphan");
    let memory = arena.into_memory();
    // More than the five-second attach timeout later.
    let recovered =
        SharedArena::from_raw_parts(memory, false, PID, NOW + 5_000_000_001).expect("reopen");
    assert_eq!(recovered.header().state(), PublishState::Clean);
    assert_eq!(recovered.header().prepared_tail, committed);
    assert_eq!(recovered.current_tail(), committed);
    assert!(recovered.header().is_valid());
}

#[test]
fn abort_publish_restores_committed_tail() {
    let mut arena = SharedArena::from_raw_parts(vec![0_u8; 4096], true, PID, NOW).expect("init");
    arena.begin_publish(PID, NOW);
    let _ = arena.allocate_value(1_u64).expect("value");
    arena.commit(PID, NOW + 1);
    let committed = arena.current_tail();
    assert_eq!(arena.header().committed_tail, committed);
    assert_eq!(arena.header().epoch, 2);
    arena.begin_publish(PID, NOW + 2);
    assert_eq!(arena.header().prepared_tail, committed);
    let _ = arena.allocate_value(2_u64).expect("value");
    assert!(arena.current_tail() > committed);
    arena.abort_publish();
    assert_eq!(arena.current_tail(), committed);
    assert_eq!(arena.header().state(), PublishState::Clean);
    assert!(arena.header().is_valid());
}
