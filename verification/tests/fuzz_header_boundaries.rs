use rand::Rng;

use plexus::{ArenaHeader, RecoveryReport};

#[test]
fn fuzz_header_boundary_validation() {
    let mut rng = rand::rng();
    for _ in 0..10_000 {
        let mut header = ArenaHeader::new(1 << 20, 1234, rng.random());
        header.magic = rng.random();
        header.arena_size = rng.random();
        header.prepared_tail = rng.random();
        header.committed_tail = rng.random();
        header.publish_state = rng.random_range(0..=3);
        header.checksum = rng.random();

        let _ = RecoveryReport::inspect(&header);
    }
}

#[test]
fn header_bytes_roundtrip_for_random_headers() {
    let mut rng = rand::rng();
    for _ in 0..1_000 {
        let mut header = ArenaHeader::new(rng.random::<u32>() as usize, rng.random(), rng.random());
        header.feature_flags = rng.random();
        header.epoch = rng.random();
        header.prepared_tail = rng.random();
        header.committed_tail = rng.random();
        header.publish_state = rng.random();
        header._reserved_owner = rng.random();
        header._reserved0 = rng.random();
        header._reserved1 = rng.random();
        let bytes = header.to_bytes();
        assert_eq!(bytes.len(), 80);
        assert_eq!(ArenaHeader::from_bytes(&bytes), header);
    }
}

#[test]
fn checksum_changes_with_every_single_bit_of_control_fields() {
    let h = ArenaHeader::new(1 << 20, 1234, 99);
    let base = h.calculate_checksum();
    for b in 0..64_u32 {
        let mut g = h;
        g.arena_size ^= 1_u64 << b;
        assert_ne!(g.calculate_checksum(), base);
        let mut g = h;
        g.committed_tail ^= 1_u64 << b;
        assert_ne!(g.calculate_checksum(), base);
        if b < 32 {
            let mut g = h;
            g.magic ^= 1_u32 << b;
            assert_ne!(g.calculate_checksum(), base);
        }
        if b < 16 {
            let mut g = h;
            g.version.major ^= 1_u16 << b;
            assert_ne!(g.calculate_checksum(), base);
        }
    }
    let mut g = h;
    g._reserved0 = 7;
    g._reserved1 = 8;
    g._reserved_owner = 9;
    g.checksum = 10;
    assert_eq!(g.calculate_checksum(), base);
}
