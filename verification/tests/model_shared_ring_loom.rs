use plexus::{RingError, SharedRing};

#[test]
fn loom_ring_bounded_backpressure_is_observable() {
    let mut ring = SharedRing::<u64>::with_capacity(2).expect("ring");
    assert!(ring.try_push(1).is_ok());
    assert!(ring.try_push(2).is_ok());
    assert!(matches!(ring.try_push(3), Err(RingError::Full)));
    assert_eq!(ring.try_pop().ok(), Some(1));
    assert_eq!(ring.try_pop().ok(), Some(2));
    assert!(matches!(ring.try_pop(), Err(RingError::Empty)));
}

#[test]
fn ring_capacity_must_be_a_power_of_two_above_one() {
    for bad in [0_usize, 1, 3, 6, 100] {
        assert!(matches!(SharedRing::<u8>::with_capacity(bad), Err(RingError::InvalidCapacity)));
    }
    for good in [2_usize, 4, 1024] {
        let ring = SharedRing::<u8>::with_capacity(good).expect("ring");
        assert_eq!(ring.capacity(), good);
        assert_eq!(ring.len_estimate(), 0);
    }
}

#[test]
fn empty_ring_accepts_capacity_pushes_in_a_row() {
    let mut ring = SharedRing::<u32>::with_capacity(8).expect("ring");
    for v in 0..8_u32 {
        assert_eq!(ring.try_push(v), Ok(()));
    }
    assert_eq!(ring.try_push(99), Err(RingError::Full));
    for v in 0..8_u32 {
        assert_eq!(ring.try_pop(), Ok(v));
    }
    assert_eq!(ring.try_pop(), Err(RingError::Empty));
}
