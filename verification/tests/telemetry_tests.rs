use plexus::{SharedArena, SharedEndpoint};

#[test]
fn endpoint_updates_latency_and_depth_metrics() {
    let backing = vec![0_u8; 8192];
    let arena = SharedArena::from_raw_parts(backing, true, 1, 1).expect("arena");
    let mut endpoint = SharedEndpoint::<u64>::new(arena, 64).expect("endpoint");

    endpoint.send_copy(10, 1, 1).expect("send");
    endpoint.send_copy(20, 1, 1).expect("send");
    let _ = endpoint.try_recv_copy().expect("recv");
    let _ = endpoint.try_recv_copy().expect("recv");

    let snapshot = endpoint.metrics().snapshot();
    assert!(snapshot.send_latency_samples >= 2);
    assert!(snapshot.send_latency_avg_ns > 0);
    assert!(snapshot.queue_depth_high_watermark >= 1);
}
