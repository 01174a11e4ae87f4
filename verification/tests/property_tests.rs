use rand::Rng;

use plexus::{ArenaLayout, SharedArena};

#[test]
fn property_alignment_and_bounds_hold_for_random_layouts() {
    let bytes_len = 1 << 20;
    let mut arena = SharedArena::from_raw_parts(vec![0_u8; bytes_len], true, 1, 1).expect("arena");
    let mut rng = rand::rng();

    for _ in 0..2048 {
        let size = rng.random_range(1..128);
        let align_pow = rng.random_range(0..=6);
        let align = 1usize << align_pow;
        let layout = ArenaLayout::from_size_align(size, align);
        let handle = arena.allocate_layout(layout).expect("allocate");
        assert_eq!(handle.offset() as usize % align, 0);
        assert!(handle.offset() as usize + size <= arena.len());
    }
}
