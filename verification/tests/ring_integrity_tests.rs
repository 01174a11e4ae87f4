use plexus::SharedRing;

/// Producers and consumers interleaved in one thread: every value comes out
/// exactly once and in order.
#[test]
fn mpmc_integrity_exactly_once_small_scale() {
    let mut ring = SharedRing::<usize>::with_capacity(1024).expect("ring");
    let total = 60_000_usize;
    let mut next_in = 0;
    let mut seen = vec![false; total];
    let mut next_out = 0;
    while next_out < total {
        // Push a burst until full or done.
        let burst = 1 + (next_in % 1500);
        for _ in 0..burst {
            if next_in == total || ring.try_push(next_in).is_err() {
                break;
            }
            next_in += 1;
        }
        assert!(ring.len_estimate() <= ring.capacity());
        let drain = 1 + (next_out % 700);
        for _ in 0..drain {
            match ring.try_pop() {
                Ok(value) => {
                    assert!(!seen[value], "duplicate value {value}");
                    assert_eq!(value, next_out);
                    seen[value] = true;
                    next_out += 1;
                }
                Err(_) => break,
            }
        }
    }
    for (idx, flag) in seen.iter().enumerate() {
        assert!(*flag, "value {idx} was lost or duplicated");
    }
}
