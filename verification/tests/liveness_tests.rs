use plexus::{Handle, SharedArena};

const PID: u32 = 2;
const NOW: u64 = 7_000_000;

#[test]
fn owner_liveness_detects_stale_heartbeat() {
    let backing = vec![0_u8; 4096];
    let mut arena = SharedArena::from_raw_parts(backing, true, PID, NOW).expect("arena");
    arena.heartbeat(PID, NOW);
    assert!(!arena.detect_dead_owner(3_600_000_000_000, NOW));
}

#[test]
fn silent_owner_is_detected_after_timeout() {
    let mut arena = SharedArena::from_raw_parts(vec![0_u8; 4096], true, PID, NOW).expect("arena");
    arena.heartbeat(PID + 1, NOW + 10);
    assert_eq!(arena.header().owner_pid, PID + 1);
    assert!(!arena.detect_dead_owner(100, NOW + 110));
    assert!(arena.detect_dead_owner(100, NOW + 111));
    // A clock that went backwards counts as no time passed.
    assert!(!arena.detect_dead_owner(0, NOW));
}

#[test]
fn reader_polling_survives_missing_notify_after_writer_crash() {
    let backing = vec![0_u8; 4096];
    let memory = {
        let mut writer = SharedArena::from_raw_parts(backing, true, PID, NOW).expect("writer");
        writer.begin_publish(PID, NOW);
        let _ = writer.allocate_value(4242_u64).expect("value");
        writer.commit(PID, NOW);
        // Simulated crash point: commit persisted, no explicit notify path.
        writer.into_memory()
    };

    let reader = SharedArena::from_raw_parts(memory, false, PID + 1, NOW + 1).expect("reader");
    let committed_tail = reader.header().committed_tail;
    assert!(committed_tail > 0);
    // Reader derives latest committed value directly from committed tail.
    let offset = committed_tail - std::mem::size_of::<u64>() as u64;
    let value = reader
        .read_copy(Handle::<u64>::from_offset(offset))
        .expect("read committed");
    assert_eq!(value, 4242);
}

#[test]
fn repeated_recovery_cycles_complete_without_liveness_regression() {
    let mut memory = vec![0_u8; 16 * 1024];
    for cycle in 0..256_u64 {
        let mut writer =
            SharedArena::from_raw_parts(memory, true, PID, NOW + cycle).expect("writer");
        writer.begin_publish(PID, NOW + cycle);
        let _ = writer.allocate_value(11_u64).expect("alloc");
        memory = writer.into_memory();

        let reader = SharedArena::from_raw_parts(memory, false, PID, NOW + cycle)
            .expect("reader recover");
        memory = reader.into_memory();
    }
}
