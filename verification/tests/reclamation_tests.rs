use plexus::EpochManager;

#[test]
fn retired_records_are_collected_without_readers() {
    let mut manager = EpochManager::new();
    manager.retire_offset(11);
    manager.advance_epoch();
    manager.retire_offset(22);
    manager.advance_epoch();

    let reclaimed = manager.try_collect();
    assert_eq!(reclaimed.len(), 2);
}

#[test]
fn retired_records_wait_for_reader_guards() {
    let mut manager = EpochManager::new();
    let _guard = manager.pin();
    manager.retire_offset(44);
    manager.advance_epoch();
    assert!(manager.try_collect().is_empty());
}

/// The interleaving of readers, writers and a collector, run in one thread:
/// every retired record is reclaimed exactly once.
#[test]
fn no_use_after_free_in_reclamation_stress() {
    let mut manager = EpochManager::new();
    let mut retired_total = 0_u64;
    let mut reclaimed_offsets: Vec<u64> = Vec::new();
    for i in 0..5000_u64 {
        let guards: Vec<_> = (0..4).map(|_| manager.pin()).collect();
        for writer_id in 0..3_u64 {
            let offset = writer_id * 1_000_000 + i;
            manager.retire_offset(offset);
            retired_total += 1;
            if i % 2 == 0 {
                manager.advance_epoch();
            }
        }
        // Pinned readers hold reclamation back.
        assert!(manager.try_collect().is_empty());
        for guard in guards {
            manager.unpin(guard);
        }
        if i % 7 == 0 {
            reclaimed_offsets.extend(manager.try_collect().into_iter().map(|r| r.handle_offset));
        }
    }
    manager.advance_epoch();
    manager.advance_epoch();
    reclaimed_offsets.extend(manager.try_collect().into_iter().map(|r| r.handle_offset));

    let count = reclaimed_offsets.len() as u64;
    reclaimed_offsets.sort_unstable();
    reclaimed_offsets.dedup();
    assert_eq!(count, retired_total, "no record reclaimed twice");
    assert_eq!(
        reclaimed_offsets.len() as u64,
        retired_total,
        "every retired record must be reclaimed once"
    );
}

#[test]
fn collected_records_are_older_than_the_current_epoch() {
    let mut manager = EpochManager::new();
    manager.retire_offset(1);
    manager.advance_epoch();
    manager.retire_offset(2);
    // Record 2 was retired in the current epoch and stays pending.
    let reclaimed = manager.try_collect();
    assert_eq!(reclaimed.len(), 1);
    assert_eq!(reclaimed[0].handle_offset, 1);
    assert_eq!(reclaimed[0].retire_epoch, 1);
    manager.advance_epoch();
    let rest = manager.try_collect();
    assert_eq!(rest.len(), 1);
    assert_eq!(rest[0].handle_offset, 2);
}

#[test]
fn unpinning_releases_reclamation() {
    let mut manager = EpochManager::new();
    let guard = manager.pin();
    manager.retire_offset(9);
    assert_eq!(manager.advance_epoch(), 2);
    assert!(manager.try_collect().is_empty());
    manager.unpin(guard);
    assert_eq!(manager.try_collect().len(), 1);
}

#[test]
fn default_manager_starts_at_epoch_zero() {
    let mut manager = EpochManager::default();
    manager.retire_offset(5);
    // Retired in epoch 0, collected once epoch 1 begins.
    assert!(manager.try_collect().is_empty());
    assert_eq!(manager.advance_epoch(), 1);
    assert_eq!(manager.try_collect().len(), 1);
}

#[test]
fn collection_order_follows_swap_removal() {
    let mut manager = EpochManager::new();
    manager.retire_offset(10);
    manager.advance_epoch();
    manager.retire_offset(20);
    manager.advance_epoch();
    manager.retire_offset(30);
    // Pending: 10 (epoch 1), 20 (epoch 2), 30 (epoch 3); the current epoch is 3.
    let collected: Vec<u64> = manager.try_collect().iter().map(|r| r.handle_offset).collect();
    // 10 is taken and 30 moves into its place; 30 stays, then 20 is taken.
    assert_eq!(collected, vec![10, 20]);
    manager.advance_epoch();
    let rest: Vec<u64> = manager.try_collect().iter().map(|r| r.handle_offset).collect();
    assert_eq!(rest, vec![30]);
}
