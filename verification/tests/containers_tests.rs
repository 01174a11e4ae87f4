use plexus::containers::{PlexusStringError, PlexusVecError};
use plexus::{ArenaError, PlexusMap, PlexusString, PlexusVec, SharedArena};

const PID: u32 = 77;
const NOW: u64 = 5_000;

fn arena(len: usize) -> SharedArena {
    SharedArena::from_raw_parts(vec![0_u8; len], true, PID, NOW).expect("arena")
}

#[test]
fn plexus_vec_roundtrip() {
    let mut vec = PlexusVec::new(arena(8192));
    vec.push(1_u64, PID, NOW).expect("push");
    vec.push(2_u64, PID, NOW).expect("push");
    assert_eq!(vec.get(1).expect("get"), Some(2));
}

#[test]
fn plexus_string_roundtrip() {
    let mut value = PlexusString::new(arena(8192));
    value.push_str("plexus", PID, NOW).expect("push");
    assert_eq!(value.as_string().expect("string"), "plexus");
}

#[test]
fn plexus_map_roundtrip() {
    let mut map = PlexusMap::new(arena(8192));
    map.insert(7_u32, 99_u64, PID, NOW).expect("insert");
    assert_eq!(map.get(7_u32).expect("get"), Some(99_u64));
}

#[test]
fn plexus_vec_get_past_end_and_pop() {
    let mut vec = PlexusVec::new(arena(1024));
    assert!(vec.is_empty());
    assert_eq!(vec.get(0).expect("get"), None);
    assert_eq!(vec.pop().expect("pop empty"), None);
    vec.push(10_u32, PID, NOW).expect("push");
    vec.push(20_u32, PID, NOW).expect("push");
    assert_eq!(vec.len(), 2);
    assert_eq!(vec.pop().expect("pop"), Some(20));
    assert_eq!(vec.len(), 1);
    assert_eq!(vec.get(0).expect("get"), Some(10));
    // The freed slot is reused by the next push.
    vec.push(30_u32, PID, NOW).expect("push");
    assert_eq!(vec.get(1).expect("get"), Some(30));
    assert_eq!(vec.arena().current_tail(), 88);
}

#[test]
fn plexus_vec_reports_exhaustion() {
    // 80 header bytes and room for exactly one u64.
    let mut vec = PlexusVec::new(arena(88));
    vec.push(1_u64, PID, NOW).expect("first fits");
    assert_eq!(
        vec.push(2_u64, PID, NOW),
        Err(PlexusVecError::Arena(ArenaError::OutOfMemory))
    );
    assert_eq!(vec.len(), 1);
}

#[test]
fn plexus_string_keeps_multibyte_text() {
    let mut value = PlexusString::new(arena(4096));
    value.push_str("zürich ", PID, NOW).expect("push");
    value.push_str("東京", PID, NOW).expect("push");
    assert_eq!(value.as_string().expect("string"), "zürich 東京");
}

#[test]
fn plexus_string_push_stops_at_first_failure() {
    // Room for 8 bytes after the header.
    let mut value = PlexusString::new(arena(88));
    let result = value.push_str("abcdefghij", PID, NOW);
    assert_eq!(
        result,
        Err(PlexusStringError::Vec(PlexusVecError::Arena(ArenaError::OutOfMemory)))
    );
    assert_eq!(value.as_string().expect("string"), "abcdefgh");
}

#[test]
fn plexus_string_rejects_invalid_utf8_prefix() {
    // Room for 8 bytes: the last one is the first half of a two-byte character.
    let mut value = PlexusString::new(arena(88));
    assert!(value.push_str("abcdefgü", PID, NOW).is_err());
    assert_eq!(value.as_string(), Err(PlexusStringError::InvalidUtf8));
}

#[test]
fn plexus_map_overwrites_and_keeps_other_keys() {
    let mut map = PlexusMap::new(arena(4096));
    map.insert(1_u32, 10_u64, PID, NOW).expect("insert");
    map.insert(2_u32, 20_u64, PID, NOW).expect("insert");
    map.insert(1_u32, 11_u64, PID, NOW).expect("overwrite");
    assert_eq!(map.get(1_u32).expect("get"), Some(11));
    assert_eq!(map.get(2_u32).expect("get"), Some(20));
    assert_eq!(map.get(3_u32).expect("get"), None);
}

#[test]
fn plexus_map_failed_insert_keeps_entries() {
    // Room for exactly one u64 after the header.
    let mut map = PlexusMap::new(arena(88));
    map.insert(1_u32, 10_u64, PID, NOW).expect("insert");
    assert!(map.insert(2_u32, 20_u64, PID, NOW).is_err());
    assert_eq!(map.get(1_u32).expect("get"), Some(10));
    assert_eq!(map.get(2_u32).expect("get"), None);
}

#[test]
fn plexus_vec_failed_push_keeps_elements() {
    let mut vec = PlexusVec::new(arena(96));
    vec.push(5_u64, PID, NOW).expect("push");
    vec.push(6_u64, PID, NOW).expect("push");
    assert!(vec.push(7_u64, PID, NOW).is_err());
    assert_eq!(vec.get(0).expect("get"), Some(5));
    assert_eq!(vec.get(1).expect("get"), Some(6));
}
