use plexus::telemetry::{AlertKind, AlertThresholds, Metrics};
use plexus::{SharedArena, SharedEndpoint};

const PID: u32 = 3;
const NOW: u64 = 1;

#[test]
fn alert_simulation_threshold_breaches_are_detected() {
    let backing = vec![0_u8; 1024 * 32];
    let arena = SharedArena::from_raw_parts(backing, true, PID, NOW).expect("arena");
    let mut endpoint = SharedEndpoint::<u64>::new(arena, 64).expect("endpoint");
    for i in 0..16_u64 {
        endpoint.send_copy(i, PID, NOW).expect("send");
    }
    endpoint.metrics_mut().on_failed_attach();
    endpoint.metrics_mut().set_reclaim_lag_current(120);

    let snapshot = endpoint.metrics().snapshot();
    let alerts = snapshot.evaluate_alerts(AlertThresholds {
        queue_depth_high_watermark: 8,
        send_latency_avg_ns: 0,
        failed_attaches: 1,
        reclaim_lag_current: 100,
    });

    assert!(alerts.contains(&AlertKind::QueueDepthHighWatermark));
    assert!(alerts.contains(&AlertKind::SendLatencyAverage));
    assert!(alerts.contains(&AlertKind::FailedAttaches));
    assert!(alerts.contains(&AlertKind::ReclaimLag));
}

#[test]
fn alerts_come_in_fixed_order_and_only_at_threshold() {
    let mut metrics = Metrics::default();
    metrics.observe_queue_depth(5);
    metrics.observe_send_latency_ns(30);
    metrics.observe_send_latency_ns(50);
    metrics.set_reclaim_lag_current(9);
    let snapshot = metrics.snapshot();
    assert_eq!(snapshot.send_latency_avg_ns, 40);
    assert_eq!(snapshot.send_latency_samples, 2);
    let alerts = snapshot.evaluate_alerts(AlertThresholds {
        queue_depth_high_watermark: 5,
        send_latency_avg_ns: 41,
        failed_attaches: 1,
        reclaim_lag_current: 9,
    });
    assert_eq!(alerts, vec![AlertKind::QueueDepthHighWatermark, AlertKind::ReclaimLag]);
}

#[test]
fn queue_depth_keeps_its_high_water_mark() {
    let mut metrics = Metrics::default();
    metrics.observe_queue_depth(7);
    metrics.observe_queue_depth(3);
    assert_eq!(metrics.snapshot().queue_depth_high_watermark, 7);
    metrics.observe_queue_depth(9);
    assert_eq!(metrics.snapshot().queue_depth_high_watermark, 9);
}

#[test]
fn counters_wrap_around() {
    let mut metrics = Metrics::default();
    metrics.observe_send_latency_ns(u64::MAX);
    metrics.observe_send_latency_ns(3);
    // The total wraps to 2.
    assert_eq!(metrics.snapshot().send_latency_avg_ns, 1);
    metrics.on_enqueue_ok();
    metrics.on_enqueue_full();
    metrics.on_dequeue_ok();
    metrics.on_dequeue_empty();
    let s = metrics.snapshot();
    assert_eq!((s.enqueue_ok, s.enqueue_full, s.dequeue_ok, s.dequeue_empty), (1, 1, 1, 1));
    assert_eq!(Metrics::default().snapshot().send_latency_avg_ns, 0);
}
