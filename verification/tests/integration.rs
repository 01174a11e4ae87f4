use plexus::{ArenaError, ErrorClass, IpcError, MappingError, RingError};
use plexus::{SharedArena, SharedChannel, SharedEndpoint};

const PID: u32 = 9;
const NOW: u64 = 10_000;

#[test]
fn arena_allocation_and_channel_roundtrip() {
    let backing = vec![0_u8; 4096];
    let mut arena = SharedArena::from_raw_parts(backing, true, PID, NOW).expect("arena init");

    let value = 42_u64;
    let handle = arena.allocate_value(value).expect("allocate");
    arena.commit(PID, NOW);

    let mut channel = SharedChannel::<u64>::new(128).expect("channel");
    let (producer, consumer) = channel.split();
    producer.send(&mut channel, handle).expect("send");
    let received = consumer.try_recv(&mut channel).expect("recv");

    let read_back = arena.read_copy(received).expect("read");
    assert_eq!(read_back, 42);
}

#[test]
fn shared_endpoint_copy_roundtrip() {
    let backing = vec![0_u8; 8192];
    let arena = SharedArena::from_raw_parts(backing, true, PID, NOW).expect("arena init");

    let mut endpoint = SharedEndpoint::<u64>::new(arena, 128).expect("endpoint");
    endpoint.send_copy(123, PID, NOW).expect("send");
    let value = endpoint.try_recv_copy().expect("recv");
    assert_eq!(value, 123);

    let snapshot = endpoint.metrics().snapshot();
    assert_eq!(snapshot.enqueue_ok, 1);
    assert_eq!(snapshot.dequeue_ok, 1);
}

#[test]
fn endpoint_delivers_in_order_and_reports_empty() {
    let arena = SharedArena::from_raw_parts(vec![0_u8; 4096], true, PID, NOW).expect("arena");
    let mut endpoint = SharedEndpoint::<u32>::new(arena, 4).expect("endpoint");
    for v in [5_u32, 6, 7] {
        endpoint.send_copy(v, PID, NOW).expect("send");
    }
    assert_eq!(endpoint.try_recv_copy().expect("recv"), 5);
    assert_eq!(endpoint.try_recv_copy().expect("recv"), 6);
    assert_eq!(endpoint.try_recv_copy().expect("recv"), 7);
    let empty = endpoint.try_recv_copy();
    assert_eq!(empty, Err(plexus::IpcError::Ring(plexus::RingError::Empty)));
    assert_eq!(empty.unwrap_err().class(), plexus::ErrorClass::Recoverable);
    let snapshot = endpoint.metrics().snapshot();
    assert_eq!(snapshot.dequeue_empty, 1);
    assert_eq!(snapshot.queue_depth_high_watermark, 3);
}

#[test]
fn endpoint_reports_full_channel() {
    let arena = SharedArena::from_raw_parts(vec![0_u8; 4096], true, PID, NOW).expect("arena");
    let mut endpoint = SharedEndpoint::<u64>::new(arena, 2).expect("endpoint");
    endpoint.send_copy(1, PID, NOW).expect("send");
    endpoint.send_copy(2, PID, NOW).expect("send");
    let full = endpoint.send_copy(3, PID, NOW);
    assert_eq!(full, Err(plexus::IpcError::Ring(plexus::RingError::Full)));
    assert_eq!(endpoint.metrics().snapshot().enqueue_full, 1);
    assert_eq!(endpoint.metrics().snapshot().enqueue_ok, 2);
}

#[test]
fn endpoint_rejects_bad_capacity() {
    let arena = SharedArena::from_raw_parts(vec![0_u8; 4096], true, PID, NOW).expect("arena");
    let result = SharedEndpoint::<u64>::new(arena, 3);
    assert!(matches!(
        result,
        Err(plexus::IpcError::Ring(plexus::RingError::InvalidCapacity))
    ));
}

#[test]
fn error_classes() {
    assert_eq!(IpcError::Ring(RingError::Full).class(), ErrorClass::Recoverable);
    assert_eq!(IpcError::Ring(RingError::InvalidCapacity).class(), ErrorClass::Recoverable);
    assert_eq!(IpcError::Arena(ArenaError::BadLayout).class(), ErrorClass::Programmer);
    assert_eq!(IpcError::Arena(ArenaError::OutOfBounds(3)).class(), ErrorClass::Programmer);
    assert_eq!(IpcError::Arena(ArenaError::StaleHandle).class(), ErrorClass::Programmer);
    assert_eq!(IpcError::Arena(ArenaError::OutOfMemory).class(), ErrorClass::Fatal);
    assert_eq!(IpcError::PoisonedLock.class(), ErrorClass::Fatal);
    assert_eq!(IpcError::Mapping(MappingError::InvalidSize).class(), ErrorClass::Fatal);
}
