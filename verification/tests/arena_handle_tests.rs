use plexus::{ArenaError, ArenaLayout, Handle, SharedArena};

const PID: u32 = 4242;
const NOW: u64 = 1_000;

#[test]
fn stale_handle_is_rejected_after_deallocate() {
    let backing = vec![0_u8; 4096];
    let mut arena = SharedArena::from_raw_parts(backing, true, PID, NOW).expect("arena");

    let handle = arena.allocate_value(123_u64).expect("alloc");
    arena
        .deallocate_layout(handle, ArenaLayout::of::<u64>())
        .expect("deallocate");
    let read = arena.read_copy(handle);
    assert!(matches!(read, Err(ArenaError::StaleHandle)));
}

#[test]
fn too_small_region_is_refused() {
    let result = SharedArena::from_raw_parts(vec![0_u8; 87], true, PID, NOW);
    assert!(matches!(result, Err(ArenaError::TooSmall)));
    assert!(SharedArena::from_raw_parts(vec![0_u8; 88], true, PID, NOW).is_ok());
}

#[test]
fn attaching_to_garbage_reports_corrupted_header() {
    let result = SharedArena::from_raw_parts(vec![0xAB_u8; 4096], false, PID, NOW);
    assert!(matches!(result, Err(ArenaError::CorruptedHeader)));
}

#[test]
fn bad_alignment_is_refused() {
    let mut arena = SharedArena::from_raw_parts(vec![0_u8; 4096], true, PID, NOW).expect("arena");
    let result = arena.allocate_layout(ArenaLayout::from_size_align(8, 3));
    assert!(matches!(result, Err(ArenaError::BadLayout)));
    let result = arena.allocate_layout(ArenaLayout::from_size_align(8, 0));
    assert!(matches!(result, Err(ArenaError::BadLayout)));
}

#[test]
fn exhausted_arena_reports_out_of_memory() {
    let mut arena = SharedArena::from_raw_parts(vec![0_u8; 128], true, PID, NOW).expect("arena");
    // 80 header bytes, then 48 bytes of room.
    let first = arena.allocate_layout(ArenaLayout::from_size_align(40, 8)).expect("fits");
    assert_eq!(first.offset(), 80);
    assert_eq!(arena.current_tail(), 120);
    let second = arena.allocate_layout(ArenaLayout::from_size_align(16, 8));
    assert!(matches!(second, Err(ArenaError::OutOfMemory)));
    assert_eq!(arena.current_tail(), 120);
}

#[test]
fn out_of_bounds_handle_is_reported() {
    let arena = SharedArena::from_raw_parts(vec![0_u8; 256], true, PID, NOW).expect("arena");
    let read = arena.read_copy(Handle::<u64>::from_offset(250));
    assert!(matches!(read, Err(ArenaError::OutOfBounds(250))));
    let ok = arena.ptr_from_handle(&Handle::<u64>::from_offset(248));
    assert!(matches!(ok, Ok(248)));
}

#[test]
fn bump_allocation_rounds_up_to_alignment() {
    let mut arena = SharedArena::from_raw_parts(vec![0_u8; 1024], true, PID, NOW).expect("arena");
    let a = arena.allocate_layout(ArenaLayout::from_size_align(3, 1)).expect("a");
    assert_eq!(a.offset(), 80);
    let b = arena.allocate_layout(ArenaLayout::from_size_align(4, 16)).expect("b");
    assert_eq!(b.offset(), 96);
    assert_eq!(arena.current_tail(), 100);
}

#[test]
fn freed_block_is_reused_first_fit_with_new_generation() {
    let mut arena = SharedArena::from_raw_parts(vec![0_u8; 1024], true, PID, NOW).expect("arena");
    let a = arena.allocate_value(1_u64).expect("a");
    let _b = arena.allocate_value(2_u64).expect("b");
    assert_eq!(a.generation(), 1);
    arena.deallocate_layout(a, ArenaLayout::of::<u64>()).expect("free a");
    let c = arena.allocate_value(3_u64).expect("c");
    assert_eq!(c.offset(), a.offset());
    assert_eq!(c.generation(), 2);
    assert_eq!(arena.read_copy(c).expect("read c"), 3);
    assert!(matches!(arena.read_copy(a), Err(ArenaError::StaleHandle)));
    // Freeing a stale handle is refused too.
    assert!(matches!(
        arena.deallocate_layout(a, ArenaLayout::of::<u64>()),
        Err(ArenaError::StaleHandle)
    ));
}

#[test]
fn written_values_read_back() {
    let mut arena = SharedArena::from_raw_parts(vec![0_u8; 1024], true, PID, NOW).expect("arena");
    let h8 = arena.allocate_value(0xAB_u8).expect("u8");
    let h16 = arena.allocate_value(0xBEEF_u16).expect("u16");
    let h32 = arena.allocate_value(0xDEAD_BEEF_u32).expect("u32");
    let h64 = arena.allocate_value(0x0102_0304_0506_0708_u64).expect("u64");
    assert_eq!(arena.read_copy(h8).unwrap(), 0xAB);
    assert_eq!(arena.read_copy(h16).unwrap(), 0xBEEF);
    assert_eq!(arena.read_copy(h32).unwrap(), 0xDEAD_BEEF);
    assert_eq!(arena.read_copy(h64).unwrap(), 0x0102_0304_0506_0708);
    arena.write(&h64, 77).expect("overwrite");
    assert_eq!(arena.read_copy(h64).unwrap(), 77);
    // Little-endian layout in the region.
    let memory = arena.into_memory();
    let off = h32.offset() as usize;
    assert_eq!(&memory[off..off + 4], &[0xEF, 0xBE, 0xAD, 0xDE]);
}

#[test]
fn handle_cast_keeps_offset_and_generation() {
    let h = Handle::<u64>::from_parts(96, 7);
    let c = h.cast::<u8>();
    assert_eq!(c.offset(), 96);
    assert_eq!(c.generation(), 7);
    assert_eq!(Handle::<u8>::from_offset(5).generation(), 1);
}

#[test]
fn arena_bytes_show_the_region() {
    let mut arena = plexus::SharedArena::from_raw_parts(vec![0_u8; 256], true, 3, 4).expect("arena");
    let h = arena.allocate_value(0x0102_0304_u32).expect("alloc");
    let off = h.offset() as usize;
    assert_eq!(arena.bytes().len(), 256);
    assert_eq!(&arena.bytes()[off..off + 4], &[4, 3, 2, 1]);
    assert_eq!(&arena.bytes()[0..4], &arena.header().to_bytes()[0..4]);
}
