use plexus::RelPtr;

/// Two nodes of 16 bytes each laid out from `base`: a relative pointer at
/// offset 0 of the first node and a value at offset 8.
struct Region {
    base: u64,
    values: [u64; 2],
}

impl Region {
    fn value_at(&self, addr: u64) -> u64 {
        self.values[((addr - self.base) / 16) as usize]
    }
}

#[test]
fn rel_ptr_roundtrip_in_same_region() {
    let region = Region { base: 0x7f00_0000_1000, values: [10, 20] };
    let rel_slot = region.base;
    let second = region.base + 16;
    let rel = RelPtr::<u64>::from_ptr(rel_slot, second);

    let resolved = rel.resolve(rel_slot).expect("must resolve");
    assert_eq!(region.value_at(resolved), 20);
}

#[test]
fn rel_ptr_remains_valid_after_simulated_remap_base() {
    let region = Region { base: 0x7f00_0000_1000, values: [10, 20] };
    let rel = RelPtr::<u64>::from_ptr(region.base, region.base + 16);

    // Simulate remap by placing the same bytes at a different base address.
    let remapped = Region { base: 0x5555_0000_8000, values: region.values };
    let resolved = rel.resolve(remapped.base).expect("must resolve after remap");
    assert_eq!(remapped.value_at(resolved), 20);
}

#[test]
fn null_and_backward_pointers() {
    let null = RelPtr::<u64>::null();
    assert!(null.is_null());
    assert_eq!(null.resolve(0x1000), None);
    let back = RelPtr::<u64>::from_ptr(0x2000, 0x1000);
    assert_eq!(back.raw_offset(), -0x1000);
    assert_eq!(back.resolve(0x2000), Some(0x1000));
    // A pointer to itself is indistinguishable from null.
    assert!(RelPtr::<u64>::from_ptr(0x2000, 0x2000).is_null());
    // Resolving to address zero yields nothing.
    assert_eq!(back.resolve(0x1000), None);
    assert_eq!(RelPtr::<u64>::byte_size(), 8);
}
