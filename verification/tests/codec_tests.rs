use plexus::bench::data::{OrderUpdate, Side};
use plexus::bench::roundtrip::{BenchError, plexus_roundtrips};
use plexus::codec::ArenaValue;
use plexus::{ArenaError, ArenaHeader, RecoveryReport, SharedArena, SharedChannel};

#[test]
fn integers_encode_little_endian() {
    assert_eq!(0x0102_u16.encode(), vec![0x02, 0x01]);
    assert_eq!(0x0A0B_0C0D_u32.encode(), vec![0x0D, 0x0C, 0x0B, 0x0A]);
    assert_eq!(u64::decode(&[1, 0, 0, 0, 0, 0, 0, 0x80]), 0x8000_0000_0000_0001);
    assert_eq!(u8::decode(&[0xFE]), 0xFE);
    assert_eq!(u64::size(), 8);
    assert_eq!(u32::align(), 4);
}

#[test]
fn synthetic_updates_are_deterministic() {
    let u = OrderUpdate::synthetic(2049);
    assert_eq!(u.sequence, 2049);
    assert_eq!(u.instrument_id, 2);
    assert_eq!(u.side, Side::Ask);
    assert_eq!(u.price_ticks, 102_049);
    assert_eq!(u.quantity, 2);
    assert_eq!(u.event_ts_ns, 1_700_000_000_000_002_049);
    assert_eq!(OrderUpdate::synthetic(10).side, Side::Bid);
    assert_eq!(OrderUpdate::synthetic(u64::MAX).event_ts_ns, u64::MAX);
}

#[test]
fn order_updates_roundtrip_through_bytes() {
    for seq in [0_u64, 1, 12345, u64::MAX] {
        let u = OrderUpdate::synthetic(seq);
        let bytes = u.encode();
        assert_eq!(bytes.len(), 40);
        assert_eq!(OrderUpdate::decode(&bytes), u);
    }
}

#[test]
fn roundtrip_loop_reuses_one_slot() {
    let mut arena = SharedArena::from_raw_parts(vec![0_u8; 4096], true, 1, 1).expect("arena");
    let mut channel = SharedChannel::<OrderUpdate>::new(4096).expect("channel");
    plexus_roundtrips(&mut arena, &mut channel, 1000).expect("roundtrips");
    // Every update went to the same freed slot.
    assert_eq!(arena.current_tail(), 120);
    assert_eq!(channel.len(), 0);
}

#[test]
fn roundtrip_loop_fails_when_no_slot_fits() {
    // 80 header bytes leave 16 bytes: too few for one 40-byte update.
    let mut arena = SharedArena::from_raw_parts(vec![0_u8; 96], true, 1, 1).expect("arena");
    let mut channel = SharedChannel::<OrderUpdate>::new(8).expect("channel");
    assert_eq!(
        plexus_roundtrips(&mut arena, &mut channel, 3),
        Err(BenchError::Arena(ArenaError::OutOfMemory))
    );
    assert_eq!(plexus_roundtrips(&mut arena, &mut channel, 0), Ok(()));
    // Exactly one slot is enough for any number of round trips.
    let mut snug = SharedArena::from_raw_parts(vec![0_u8; 120], true, 1, 1).expect("arena");
    assert_eq!(plexus_roundtrips(&mut snug, &mut channel, 50), Ok(()));
}

#[test]
fn recovery_is_idempotent() {
    let mut header = ArenaHeader::new(4096, 1, 100);
    header.mark_prepare(200, 1, 100);
    assert_eq!(RecoveryReport::inspect(&header), RecoveryReport::PendingPublication);
    // Owner still alive: left alone.
    let mut alive = header;
    assert_eq!(
        RecoveryReport::recover_in_place_with_timeout(&mut alive, 150, 100),
        RecoveryReport::Healthy
    );
    assert_eq!(alive, header);
    let mut first = header;
    assert_eq!(RecoveryReport::recover_in_place(&mut first), RecoveryReport::PendingPublication);
    assert_eq!(first.prepared_tail, first.committed_tail);
    assert!(first.is_valid());
    let mut second = first;
    assert_eq!(RecoveryReport::recover_in_place(&mut second), RecoveryReport::Healthy);
    assert_eq!(second, first);
}

#[test]
fn header_validity_survives_every_transition() {
    let mut header = ArenaHeader::new(4096, 1, 100);
    assert!(header.is_valid());
    header.mark_prepare(120, 2, 101);
    assert!(header.is_valid());
    header.heartbeat(3, 102);
    assert!(header.is_valid());
    header.mark_commit(120, 2, 103);
    assert!(header.is_valid());
    assert_eq!(header.epoch, 2);
    header.rollback_to_committed();
    assert!(header.is_valid());
    header.checksum ^= 1;
    assert!(!header.is_valid());
    assert_eq!(RecoveryReport::inspect(&header), RecoveryReport::HeaderCorrupted);
    let mut out_of_bounds = ArenaHeader::new(100, 1, 1);
    out_of_bounds.committed_tail = 101;
    out_of_bounds.checksum = out_of_bounds.calculate_checksum();
    assert_eq!(RecoveryReport::inspect(&out_of_bounds), RecoveryReport::TailOutOfBounds);
    let mut unknown = ArenaHeader::new(100, 1, 1);
    unknown.publish_state = 7;
    unknown.checksum = unknown.calculate_checksum();
    assert!(!unknown.is_valid());
    assert_eq!(unknown.state(), plexus::PublishState::Preparing);
}

#[test]
fn checksum_value_for_a_fresh_header() {
    let header = ArenaHeader::new(4096, 7, 0x1_0000_0002);
    let expected = 0x504C_4558_u32 ^ 4096 ^ 1 ^ 7 ^ 2 ^ 1 ^ 80 ^ 80 ^ 1;
    assert_eq!(header.calculate_checksum(), expected);
    assert_eq!(header.checksum, expected);
}
