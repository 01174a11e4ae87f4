//! Endpoint metrics.  Counters wrap around on overflow, like the atomic
//! adds they model; the queue-depth gauge keeps its high-water mark.

use vstd::prelude::*;

verus! {

/// `x + y` modulo 2^64.
pub open spec fn wrapping_add_u64(x: u64, y: u64) -> u64 {
    if x + y > u64::MAX {
        (x + y - 0x1_0000_0000_0000_0000) as u64
    } else {
        (x + y) as u64
    }
}

pub struct Metrics {
    enqueue_ok: u64,
    enqueue_full: u64,
    dequeue_ok: u64,
    dequeue_empty: u64,
    send_latency_total_ns: u64,
    send_latency_samples: u64,
    queue_depth_high_watermark: u64,
    failed_attaches: u64,
    reclaim_lag_current: u64,
}

#[derive(Debug, Clone, Copy, PartialEq, Eq, Structural)]
pub struct MetricSnapshot {
    pub enqueue_ok: u64,
    pub enqueue_full: u64,
    pub dequeue_ok: u64,
    pub dequeue_empty: u64,
    pub send_latency_avg_ns: u64,
    pub send_latency_samples: u64,
    pub queue_depth_high_watermark: u64,
    pub failed_attaches: u64,
    pub reclaim_lag_current: u64,
}

#[derive(Debug, Clone, Copy, PartialEq, Eq, Structural)]
pub struct AlertThresholds {
    pub queue_depth_high_watermark: u64,
    pub send_latency_avg_ns: u64,
    pub failed_attaches: u64,
    pub reclaim_lag_current: u64,
}

#[derive(Debug, Clone, Copy, PartialEq, Eq, Structural)]
pub enum AlertKind {
    QueueDepthHighWatermark,
    SendLatencyAverage,
    FailedAttaches,
    ReclaimLag,
}

/// The alerts a snapshot raises, in a fixed order: each metric that reaches
/// its threshold contributes its alert.
pub open spec fn alerts_of(s: MetricSnapshot, t: AlertThresholds) -> Seq<AlertKind> {
    let a0 = Seq::<AlertKind>::empty();
    let a1 = if s.queue_depth_high_watermark >= t.queue_depth_high_watermark {
        a0.push(AlertKind::QueueDepthHighWatermark)
    } else {
        a0
    };
    let a2 = if s.send_latency_avg_ns >= t.send_latency_avg_ns {
        a1.push(AlertKind::SendLatencyAverage)
    } else {
        a1
    };
    let a3 = if s.failed_attaches >= t.failed_attaches {
        a2.push(AlertKind::FailedAttaches)
    } else {
        a2
    };
    if s.reclaim_lag_current >= t.reclaim_lag_current {
        a3.push(AlertKind::ReclaimLag)
    } else {
        a3
    }
}

/// Each alert is raised exactly when its metric has reached its threshold:
/// the queue-depth high-water mark, the average send latency, the failed
/// attaches and the current reclamation lag, each compared with the
/// threshold of the same name.  No alert is raised twice.
pub proof fn law_alert_raised_iff_threshold_reached(s: MetricSnapshot, t: AlertThresholds)
    ensures
        alerts_of(s, t).contains(AlertKind::QueueDepthHighWatermark) <==> s.queue_depth_high_watermark
            >= t.queue_depth_high_watermark,
        alerts_of(s, t).contains(AlertKind::SendLatencyAverage) <==> s.send_latency_avg_ns
            >= t.send_latency_avg_ns,
        alerts_of(s, t).contains(AlertKind::FailedAttaches) <==> s.failed_attaches >= t.failed_attaches,
        alerts_of(s, t).contains(AlertKind::ReclaimLag) <==> s.reclaim_lag_current >= t.reclaim_lag_current,
        alerts_of(s, t).no_duplicates(),
{
    let q = s.queue_depth_high_watermark >= t.queue_depth_high_watermark;
    let l = s.send_latency_avg_ns >= t.send_latency_avg_ns;
    let f = s.failed_attaches >= t.failed_attaches;
    let g = s.reclaim_lag_current >= t.reclaim_lag_current;
    let r = alerts_of(s, t);
    let expected = Seq::<AlertKind>::empty()
        + (if q { seq![AlertKind::QueueDepthHighWatermark] } else { Seq::<AlertKind>::empty() })
        + (if l { seq![AlertKind::SendLatencyAverage] } else { Seq::<AlertKind>::empty() })
        + (if f { seq![AlertKind::FailedAttaches] } else { Seq::<AlertKind>::empty() })
        + (if g { seq![AlertKind::ReclaimLag] } else { Seq::<AlertKind>::empty() });
    assert(r =~= expected);
    let kinds = seq![
        AlertKind::QueueDepthHighWatermark,
        AlertKind::SendLatencyAverage,
        AlertKind::FailedAttaches,
        AlertKind::ReclaimLag,
    ];
    assert forall|k: AlertKind| #[trigger] r.contains(k) <==> (match k {
        AlertKind::QueueDepthHighWatermark => q,
        AlertKind::SendLatencyAverage => l,
        AlertKind::FailedAttaches => f,
        AlertKind::ReclaimLag => g,
    }) by {
        if r.contains(k) {
            let i = choose|i: int| 0 <= i < r.len() && r[i] == k;
            assert(r[i] == k);
        } else {
            match k {
                AlertKind::QueueDepthHighWatermark => if q { assert(r[0] == k); },
                AlertKind::SendLatencyAverage => if l { assert(r[(if q { 1int } else { 0int })] == k); },
                AlertKind::FailedAttaches => if f {
                    assert(r[(if q { 1int } else { 0int }) + (if l { 1int } else { 0int })] == k);
                },
                AlertKind::ReclaimLag => if g {
                    assert(r[(if q { 1int } else { 0int }) + (if l { 1int } else { 0int }) + (if f {
                        1int
                    } else {
                        0int
                    })] == k);
                },
            }
        }
    }
    assert(r.contains(AlertKind::QueueDepthHighWatermark) == q);
    assert(r.contains(AlertKind::SendLatencyAverage) == l);
    assert(r.contains(AlertKind::FailedAttaches) == f);
    assert(r.contains(AlertKind::ReclaimLag) == g);
    assert forall|i: int, j: int| 0 <= i < r.len() && 0 <= j < r.len() && i != j implies r[i] != r[j] by {
    }
}

/// The alerts depend on the four measured metrics alone: two snapshots that
/// agree on them raise the same alerts, whatever their counters and sample
/// counts.
pub proof fn law_alerts_ignore_other_counters(s1: MetricSnapshot, s2: MetricSnapshot, t: AlertThresholds)
    requires
        s1.queue_depth_high_watermark == s2.queue_depth_high_watermark,
        s1.send_latency_avg_ns == s2.send_latency_avg_ns,
        s1.failed_attaches == s2.failed_attaches,
        s1.reclaim_lag_current == s2.reclaim_lag_current,
    ensures
        alerts_of(s1, t) == alerts_of(s2, t),
{
}

impl MetricSnapshot {
    pub fn evaluate_alerts(&self, thresholds: AlertThresholds) -> (r: Vec<AlertKind>)
        ensures
            r@ == alerts_of(*self, thresholds),
    {
        let mut alerts: Vec<AlertKind> = Vec::with_capacity(4);
        if self.queue_depth_high_watermark >= thresholds.queue_depth_high_watermark {
            alerts.push(AlertKind::QueueDepthHighWatermark);
        }
        if self.send_latency_avg_ns >= thresholds.send_latency_avg_ns {
            alerts.push(AlertKind::SendLatencyAverage);
        }
        if self.failed_attaches >= thresholds.failed_attaches {
            alerts.push(AlertKind::FailedAttaches);
        }
        if self.reclaim_lag_current >= thresholds.reclaim_lag_current {
            alerts.push(AlertKind::ReclaimLag);
        }
        alerts
    }
}

/// Total latency over the number of samples, or 0 without samples.
pub open spec fn average_latency(total: u64, samples: u64) -> u64 {
    if samples == 0 {
        0
    } else {
        (total / samples) as u64
    }
}

/// The snapshot a set of metrics reads as; the average latency is the total
/// divided by the number of samples (0 when there are none).
pub closed spec fn snapshot_of(m: Metrics) -> MetricSnapshot {
    MetricSnapshot {
        enqueue_ok: m.enqueue_ok,
        enqueue_full: m.enqueue_full,
        dequeue_ok: m.dequeue_ok,
        dequeue_empty: m.dequeue_empty,
        send_latency_avg_ns: average_latency(m.send_latency_total_ns, m.send_latency_samples),
        send_latency_samples: m.send_latency_samples,
        queue_depth_high_watermark: m.queue_depth_high_watermark,
        failed_attaches: m.failed_attaches,
        reclaim_lag_current: m.reclaim_lag_current,
    }
}

impl Metrics {
    pub closed spec fn view_snapshot(&self) -> MetricSnapshot {
        snapshot_of(*self)
    }

    /// Total latency recorded so far (wrapping).
    pub closed spec fn latency_total(&self) -> u64 {
        self.send_latency_total_ns
    }

    pub fn on_enqueue_ok(&mut self)
        ensures
            final(self).view_snapshot() == (MetricSnapshot {
                enqueue_ok: wrapping_add_u64(old(self).view_snapshot().enqueue_ok, 1),
                ..old(self).view_snapshot()
            }),
            final(self).latency_total() == old(self).latency_total(),
    {
        self.enqueue_ok = self.enqueue_ok.wrapping_add(1);
    }

    pub fn on_enqueue_full(&mut self)
        ensures
            final(self).view_snapshot() == (MetricSnapshot {
                enqueue_full: wrapping_add_u64(old(self).view_snapshot().enqueue_full, 1),
                ..old(self).view_snapshot()
            }),
            final(self).latency_total() == old(self).latency_total(),
    {
        self.enqueue_full = self.enqueue_full.wrapping_add(1);
    }

    pub fn on_dequeue_ok(&mut self)
        ensures
            final(self).view_snapshot() == (MetricSnapshot {
                dequeue_ok: wrapping_add_u64(old(self).view_snapshot().dequeue_ok, 1),
                ..old(self).view_snapshot()
            }),
            final(self).latency_total() == old(self).latency_total(),
    {
        self.dequeue_ok = self.dequeue_ok.wrapping_add(1);
    }

    pub fn on_dequeue_empty(&mut self)
        ensures
            final(self).view_snapshot() == (MetricSnapshot {
                dequeue_empty: wrapping_add_u64(old(self).view_snapshot().dequeue_empty, 1),
                ..old(self).view_snapshot()
            }),
            final(self).latency_total() == old(self).latency_total(),
    {
        self.dequeue_empty = self.dequeue_empty.wrapping_add(1);
    }

    /// Adds one latency sample.
    pub fn observe_send_latency_ns(&mut self, latency_ns: u64)
        ensures
            final(self).latency_total() == wrapping_add_u64(old(self).latency_total(), latency_ns),
            final(self).view_snapshot().send_latency_samples == wrapping_add_u64(
                old(self).view_snapshot().send_latency_samples,
                1,
            ),
            final(self).view_snapshot() == (MetricSnapshot {
                send_latency_avg_ns: average_latency(
                    final(self).latency_total(),
                    final(self).view_snapshot().send_latency_samples,
                ),
                send_latency_samples: final(self).view_snapshot().send_latency_samples,
                ..old(self).view_snapshot()
            }),
    {
        self.send_latency_total_ns = self.send_latency_total_ns.wrapping_add(latency_ns);
        self.send_latency_samples = self.send_latency_samples.wrapping_add(1);
    }

    /// Raises the queue-depth high-water mark to `depth` if it is higher.
    pub fn observe_queue_depth(&mut self, depth: u64)
        ensures
            final(self).view_snapshot() == (MetricSnapshot {
                queue_depth_high_watermark: if depth > old(self).view_snapshot().queue_depth_high_watermark {
                    depth
                } else {
                    old(self).view_snapshot().queue_depth_high_watermark
                },
                ..old(self).view_snapshot()
            }),
            final(self).latency_total() == old(self).latency_total(),
    {
        if depth > self.queue_depth_high_watermark {
            self.queue_depth_high_watermark = depth;
        }
    }

    pub fn on_failed_attach(&mut self)
        ensures
            final(self).view_snapshot() == (MetricSnapshot {
                failed_attaches: wrapping_add_u64(old(self).view_snapshot().failed_attaches, 1),
                ..old(self).view_snapshot()
            }),
            final(self).latency_total() == old(self).latency_total(),
    {
        self.failed_attaches = self.failed_attaches.wrapping_add(1);
    }

    pub fn set_reclaim_lag_current(&mut self, lag: u64)
        ensures
            final(self).view_snapshot() == (MetricSnapshot {
                reclaim_lag_current: lag,
                ..old(self).view_snapshot()
            }),
            final(self).latency_total() == old(self).latency_total(),
    {
        self.reclaim_lag_current = lag;
    }

    pub fn snapshot(&self) -> (r: MetricSnapshot)
        ensures
            r == self.view_snapshot(),
    {
        let samples = self.send_latency_samples;
        let latency_total = self.send_latency_total_ns;
        let avg = if samples == 0 {
            0
        } else {
            latency_total / samples
        };
        MetricSnapshot {
            enqueue_ok: self.enqueue_ok,
            enqueue_full: self.enqueue_full,
            dequeue_ok: self.dequeue_ok,
            dequeue_empty: self.dequeue_empty,
            send_latency_avg_ns: avg,
            send_latency_samples: samples,
            queue_depth_high_watermark: self.queue_depth_high_watermark,
            failed_attaches: self.failed_attaches,
            reclaim_lag_current: self.reclaim_lag_current,
        }
    }
}

impl Default for Metrics {
    fn default() -> (r: Metrics)
        ensures
            r.view_snapshot() == (MetricSnapshot {
                enqueue_ok: 0,
                enqueue_full: 0,
                dequeue_ok: 0,
                dequeue_empty: 0,
                send_latency_avg_ns: 0,
                send_latency_samples: 0,
                queue_depth_high_watermark: 0,
                failed_attaches: 0,
                reclaim_lag_current: 0,
            }),
            r.latency_total() == 0,
    {
        Metrics {
            enqueue_ok: 0,
            enqueue_full: 0,
            dequeue_ok: 0,
            dequeue_empty: 0,
            send_latency_total_ns: 0,
            send_latency_samples: 0,
            queue_depth_high_watermark: 0,
            failed_attaches: 0,
            reclaim_lag_current: 0,
        }
    }
}

} // verus!
