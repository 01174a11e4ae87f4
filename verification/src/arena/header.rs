//! The control header at offset 0 of every arena: versioning, the two-phase
//! publish state, owner liveness and an integrity checksum.

use vstd::prelude::*;
use crate::codec::{le_bytes, le_value, push_le, read_le, lemma_pow256_values, lemma_le_roundtrip, lemma_le_bytes_len};

verus! {

/// Magic number identifying an arena header ("PLEX").
pub const ARENA_MAGIC: u32 = 0x504C_4558;

/// Size in bytes of the encoded header; allocations start after it.
pub const ARENA_HEADER_SIZE: usize = 80;

/// Major version of the layout this library writes.
pub const CURRENT_MAJOR: u16 = 0;

/// Minor version of the layout this library writes.
pub const CURRENT_MINOR: u16 = 1;

#[derive(Debug, Clone, Copy, PartialEq, Eq, Structural)]
pub struct ArenaVersion {
    pub major: u16,
    pub minor: u16,
}

impl ArenaVersion {
    /// The version this library writes into new headers.
    pub fn current() -> (r: ArenaVersion)
        ensures
            r == (ArenaVersion { major: CURRENT_MAJOR, minor: CURRENT_MINOR }),
    {
        ArenaVersion { major: CURRENT_MAJOR, minor: CURRENT_MINOR }
    }
}

#[derive(Debug, Clone, Copy, PartialEq, Eq, Structural)]
pub enum CompatibilityResult {
    Compatible,
    ForwardCompatibleReadOnly,
    IncompatibleMajor,
    IncompatibleFeatureFlags,
}

#[derive(Debug, Clone, Copy, PartialEq, Eq, Structural)]
pub enum PublishState {
    Clean,
    Preparing,
}

/// The raw value a publish state is stored as.
pub open spec fn publish_state_raw(s: PublishState) -> u32 {
    match s {
        PublishState::Clean => 0,
        PublishState::Preparing => 1,
    }
}

/// The publish state a raw value denotes, if any.
pub open spec fn publish_state_from_raw(raw: u32) -> Option<PublishState> {
    if raw == 0 {
        Some(PublishState::Clean)
    } else if raw == 1 {
        Some(PublishState::Preparing)
    } else {
        None
    }
}

impl PublishState {
    pub fn from_raw(raw: u32) -> (r: Option<PublishState>)
        ensures
            r == publish_state_from_raw(raw),
    {
        match raw {
            0 => Some(PublishState::Clean),
            1 => Some(PublishState::Preparing),
            _ => None,
        }
    }

    pub fn as_raw(self) -> (r: u32)
        ensures
            r == publish_state_raw(self),
    {
        match self {
            PublishState::Clean => 0,
            PublishState::Preparing => 1,
        }
    }
}

#[derive(Debug, Clone, Copy, PartialEq, Eq, Structural)]
pub struct ArenaHeader {
    pub magic: u32,
    pub version: ArenaVersion,
    pub arena_size: u64,
    pub feature_flags: u64,
    pub epoch: u64,
    pub owner_pid: u32,
    pub _reserved_owner: u32,
    pub last_heartbeat_ns: u64,
    pub prepared_tail: u64,
    pub committed_tail: u64,
    pub publish_state: u32,
    pub _reserved0: u32,
    pub checksum: u32,
    pub _reserved1: u32,
}

/// XOR of the header's control fields, each 64-bit field folded as its two
/// 32-bit halves, with the version packed as `major << 16 | minor`.
pub open spec fn checksum_of(h: ArenaHeader) -> u32 {
    checksum_fields(
        h.magic,
        h.version.major,
        h.version.minor,
        h.arena_size,
        h.feature_flags,
        h.epoch,
        h.owner_pid,
        h.last_heartbeat_ns,
        h.prepared_tail,
        h.committed_tail,
        h.publish_state,
    )
}

/// The checksum of the control fields given one by one.
pub open spec fn checksum_fields(
    magic: u32, major: u16, minor: u16, size: u64, flags: u64, epoch: u64, pid: u32, beat: u64, prepared: u64, committed: u64, state: u32,
) -> u32 {
    let sum = magic ^ (size as u32) ^ ((size >> 32u64) as u32) ^ (flags as u32) ^ ((flags >> 32u64) as u32)
        ^ (epoch as u32) ^ ((epoch >> 32u64) as u32) ^ pid ^ (beat as u32) ^ ((beat >> 32u64) as u32) ^ (
    prepared as u32) ^ ((prepared >> 32u64) as u32) ^ (committed as u32) ^ ((committed >> 32u64) as u32)
        ^ state;
    sum ^ (((major as u32) << 16u32) | (minor as u32))
}

/// A header is valid when its magic, publish state and checksum all check out.
pub open spec fn header_is_valid(h: ArenaHeader) -> bool {
    &&& h.magic == ARENA_MAGIC
    &&& publish_state_from_raw(h.publish_state) is Some
    &&& h.checksum == checksum_of(h)
}

/// The publish state of a header; an unknown raw value counts as `Preparing`.
pub open spec fn header_state(h: ArenaHeader) -> PublishState {
    match publish_state_from_raw(h.publish_state) {
        Some(s) => s,
        None => PublishState::Preparing,
    }
}

/// The owner is stale when more than `timeout_ns` passed since its heartbeat
/// (a clock that went backwards counts as no time passed).
pub open spec fn owner_is_stale(h: ArenaHeader, now_ns: u64, timeout_ns: u64) -> bool {
    (if now_ns >= h.last_heartbeat_ns {
        now_ns - h.last_heartbeat_ns
    } else {
        0
    }) > timeout_ns
}

/// How a header written with version `h.version` and `h.feature_flags`
/// relates to a reader that expects `expected` and understands `supported`.
pub open spec fn compatibility_of(h: ArenaHeader, expected: ArenaVersion, supported: u64) -> CompatibilityResult {
    if h.version.major != expected.major {
        CompatibilityResult::IncompatibleMajor
    } else if h.feature_flags & !supported != 0 {
        CompatibilityResult::IncompatibleFeatureFlags
    } else if h.version.minor > expected.minor {
        CompatibilityResult::ForwardCompatibleReadOnly
    } else {
        CompatibilityResult::Compatible
    }
}

/// `h` with its checksum recomputed.
pub open spec fn sealed(h: ArenaHeader) -> ArenaHeader {
    ArenaHeader { checksum: checksum_of(h), ..h }
}

/// The header a new arena of `arena_size` bytes starts with.
pub open spec fn fresh_header(arena_size: usize, owner_pid: u32, now_ns: u64) -> ArenaHeader {
    sealed(
        ArenaHeader {
            magic: ARENA_MAGIC,
            version: ArenaVersion { major: CURRENT_MAJOR, minor: CURRENT_MINOR },
            arena_size: arena_size as u64,
            feature_flags: 0,
            epoch: 1,
            owner_pid,
            _reserved_owner: 0,
            last_heartbeat_ns: now_ns,
            prepared_tail: ARENA_HEADER_SIZE as u64,
            committed_tail: ARENA_HEADER_SIZE as u64,
            publish_state: 0,
            _reserved0: 0,
            checksum: 0,
            _reserved1: 0,
        },
    )
}

/// The checksum does not read the checksum field itself.
pub proof fn lemma_checksum_ignores_checksum(h: ArenaHeader, c: u32)
    ensures
        checksum_of(ArenaHeader { checksum: c, ..h }) == checksum_of(h),
{
}

proof fn lemma_flip_magic(magic: u32, major: u16, minor: u16, size: u64, flags: u64, epoch: u64, pid: u32, beat: u64, prepared: u64, committed: u64, state: u32, b: u32)
    by (bit_vector)
    requires
        b < 32,
    ensures
        checksum_fields(magic ^ (1u32 << b), major, minor, size, flags, epoch, pid, beat, prepared, committed, state) != checksum_fields(magic, major, minor, size, flags, epoch, pid, beat, prepared, committed, state),
{
}

proof fn lemma_flip_major(magic: u32, major: u16, minor: u16, size: u64, flags: u64, epoch: u64, pid: u32, beat: u64, prepared: u64, committed: u64, state: u32, b: u16)
    by (bit_vector)
    requires
        b < 16,
    ensures
        checksum_fields(magic, major ^ (1u16 << b), minor, size, flags, epoch, pid, beat, prepared, committed, state) != checksum_fields(magic, major, minor, size, flags, epoch, pid, beat, prepared, committed, state),
{
}

proof fn lemma_flip_minor(magic: u32, major: u16, minor: u16, size: u64, flags: u64, epoch: u64, pid: u32, beat: u64, prepared: u64, committed: u64, state: u32, b: u16)
    by (bit_vector)
    requires
        b < 16,
    ensures
        checksum_fields(magic, major, minor ^ (1u16 << b), size, flags, epoch, pid, beat, prepared, committed, state) != checksum_fields(magic, major, minor, size, flags, epoch, pid, beat, prepared, committed, state),
{
}

proof fn lemma_flip_size(magic: u32, major: u16, minor: u16, size: u64, flags: u64, epoch: u64, pid: u32, beat: u64, prepared: u64, committed: u64, state: u32, b: u64)
    by (bit_vector)
    requires
        b < 64,
    ensures
        checksum_fields(magic, major, minor, size ^ (1u64 << b), flags, epoch, pid, beat, prepared, committed, state) != checksum_fields(magic, major, minor, size, flags, epoch, pid, beat, prepared, committed, state),
{
}

proof fn lemma_flip_flags(magic: u32, major: u16, minor: u16, size: u64, flags: u64, epoch: u64, pid: u32, beat: u64, prepared: u64, committed: u64, state: u32, b: u64)
    by (bit_vector)
    requires
        b < 64,
    ensures
        checksum_fields(magic, major, minor, size, flags ^ (1u64 << b), epoch, pid, beat, prepared, committed, state) != checksum_fields(magic, major, minor, size, flags, epoch, pid, beat, prepared, committed, state),
{
}

proof fn lemma_flip_epoch(magic: u32, major: u16, minor: u16, size: u64, flags: u64, epoch: u64, pid: u32, beat: u64, prepared: u64, committed: u64, state: u32, b: u64)
    by (bit_vector)
    requires
        b < 64,
    ensures
        checksum_fields(magic, major, minor, size, flags, epoch ^ (1u64 << b), pid, beat, prepared, committed, state) != checksum_fields(magic, major, minor, size, flags, epoch, pid, beat, prepared, committed, state),
{
}

proof fn lemma_flip_pid(magic: u32, major: u16, minor: u16, size: u64, flags: u64, epoch: u64, pid: u32, beat: u64, prepared: u64, committed: u64, state: u32, b: u32)
    by (bit_vector)
    requires
        b < 32,
    ensures
        checksum_fields(magic, major, minor, size, flags, epoch, pid ^ (1u32 << b), beat, prepared, committed, state) != checksum_fields(magic, major, minor, size, flags, epoch, pid, beat, prepared, committed, state),
{
}

proof fn lemma_flip_beat(magic: u32, major: u16, minor: u16, size: u64, flags: u64, epoch: u64, pid: u32, beat: u64, prepared: u64, committed: u64, state: u32, b: u64)
    by (bit_vector)
    requires
        b < 64,
    ensures
        checksum_fields(magic, major, minor, size, flags, epoch, pid, beat ^ (1u64 << b), prepared, committed, state) != checksum_fields(magic, major, minor, size, flags, epoch, pid, beat, prepared, committed, state),
{
}

proof fn lemma_flip_prepared(magic: u32, major: u16, minor: u16, size: u64, flags: u64, epoch: u64, pid: u32, beat: u64, prepared: u64, committed: u64, state: u32, b: u64)
    by (bit_vector)
    requires
        b < 64,
    ensures
        checksum_fields(magic, major, minor, size, flags, epoch, pid, beat, prepared ^ (1u64 << b), committed, state) != checksum_fields(magic, major, minor, size, flags, epoch, pid, beat, prepared, committed, state),
{
}

proof fn lemma_flip_committed(magic: u32, major: u16, minor: u16, size: u64, flags: u64, epoch: u64, pid: u32, beat: u64, prepared: u64, committed: u64, state: u32, b: u64)
    by (bit_vector)
    requires
        b < 64,
    ensures
        checksum_fields(magic, major, minor, size, flags, epoch, pid, beat, prepared, committed ^ (1u64 << b), state) != checksum_fields(magic, major, minor, size, flags, epoch, pid, beat, prepared, committed, state),
{
}

proof fn lemma_flip_state(magic: u32, major: u16, minor: u16, size: u64, flags: u64, epoch: u64, pid: u32, beat: u64, prepared: u64, committed: u64, state: u32, b: u32)
    by (bit_vector)
    requires
        b < 32,
    ensures
        checksum_fields(magic, major, minor, size, flags, epoch, pid, beat, prepared, committed, state ^ (1u32 << b)) != checksum_fields(magic, major, minor, size, flags, epoch, pid, beat, prepared, committed, state),
{
}

/// The checksum ignores the checksum field and the reserved fields, and a
/// change of exactly one bit in any control field changes it.
pub proof fn lemma_checksum_detects_bit_flip(h: ArenaHeader, b: u32, c: u32, r1: u32, r2: u32, r3: u32)
    ensures
        checksum_of(ArenaHeader { checksum: c, _reserved_owner: r1, _reserved0: r2, _reserved1: r3, ..h })
            == checksum_of(h),
        b < 32 ==> checksum_of(ArenaHeader { magic: h.magic ^ (1u32 << b), ..h }) != checksum_of(h),
        b < 32 ==> checksum_of(ArenaHeader { owner_pid: h.owner_pid ^ (1u32 << b), ..h }) != checksum_of(h),
        b < 32 ==> checksum_of(ArenaHeader { publish_state: h.publish_state ^ (1u32 << b), ..h }) != checksum_of(h),
        b < 16 ==> checksum_of(
            ArenaHeader { version: ArenaVersion { major: h.version.major ^ (1u16 << b as u16), ..h.version }, ..h },
        ) != checksum_of(h),
        b < 16 ==> checksum_of(
            ArenaHeader { version: ArenaVersion { minor: h.version.minor ^ (1u16 << b as u16), ..h.version }, ..h },
        ) != checksum_of(h),
        b < 64 ==> checksum_of(ArenaHeader { arena_size: h.arena_size ^ (1u64 << b as u64), ..h }) != checksum_of(h),
        b < 64 ==> checksum_of(ArenaHeader { feature_flags: h.feature_flags ^ (1u64 << b as u64), ..h }) != checksum_of(h),
        b < 64 ==> checksum_of(ArenaHeader { epoch: h.epoch ^ (1u64 << b as u64), ..h }) != checksum_of(h),
        b < 64 ==> checksum_of(ArenaHeader { last_heartbeat_ns: h.last_heartbeat_ns ^ (1u64 << b as u64), ..h })
            != checksum_of(h),
        b < 64 ==> checksum_of(ArenaHeader { prepared_tail: h.prepared_tail ^ (1u64 << b as u64), ..h }) != checksum_of(h),
        b < 64 ==> checksum_of(ArenaHeader { committed_tail: h.committed_tail ^ (1u64 << b as u64), ..h })
            != checksum_of(h),
{
    let v = h.version;
    if b < 32 {
        lemma_flip_magic(h.magic, v.major, v.minor, h.arena_size, h.feature_flags, h.epoch, h.owner_pid, h.last_heartbeat_ns, h.prepared_tail, h.committed_tail, h.publish_state, b);
        lemma_flip_pid(h.magic, v.major, v.minor, h.arena_size, h.feature_flags, h.epoch, h.owner_pid, h.last_heartbeat_ns, h.prepared_tail, h.committed_tail, h.publish_state, b);
        lemma_flip_state(h.magic, v.major, v.minor, h.arena_size, h.feature_flags, h.epoch, h.owner_pid, h.last_heartbeat_ns, h.prepared_tail, h.committed_tail, h.publish_state, b);
    }
    if b < 16 {
        lemma_flip_major(h.magic, v.major, v.minor, h.arena_size, h.feature_flags, h.epoch, h.owner_pid, h.last_heartbeat_ns, h.prepared_tail, h.committed_tail, h.publish_state, b as u16);
        lemma_flip_minor(h.magic, v.major, v.minor, h.arena_size, h.feature_flags, h.epoch, h.owner_pid, h.last_heartbeat_ns, h.prepared_tail, h.committed_tail, h.publish_state, b as u16);
    }
    if b < 64 {
        let w = b as u64;
        lemma_flip_size(h.magic, v.major, v.minor, h.arena_size, h.feature_flags, h.epoch, h.owner_pid, h.last_heartbeat_ns, h.prepared_tail, h.committed_tail, h.publish_state, w);
        lemma_flip_flags(h.magic, v.major, v.minor, h.arena_size, h.feature_flags, h.epoch, h.owner_pid, h.last_heartbeat_ns, h.prepared_tail, h.committed_tail, h.publish_state, w);
        lemma_flip_epoch(h.magic, v.major, v.minor, h.arena_size, h.feature_flags, h.epoch, h.owner_pid, h.last_heartbeat_ns, h.prepared_tail, h.committed_tail, h.publish_state, w);
        lemma_flip_beat(h.magic, v.major, v.minor, h.arena_size, h.feature_flags, h.epoch, h.owner_pid, h.last_heartbeat_ns, h.prepared_tail, h.committed_tail, h.publish_state, w);
        lemma_flip_prepared(h.magic, v.major, v.minor, h.arena_size, h.feature_flags, h.epoch, h.owner_pid, h.last_heartbeat_ns, h.prepared_tail, h.committed_tail, h.publish_state, w);
        lemma_flip_committed(h.magic, v.major, v.minor, h.arena_size, h.feature_flags, h.epoch, h.owner_pid, h.last_heartbeat_ns, h.prepared_tail, h.committed_tail, h.publish_state, w);
    }
}

/// Committing at tail `t` leaves both tails at `t`, the state clean, the
/// owner and heartbeat those of the committer, and the identity of the arena
/// (magic, version, size, feature flags) as it was; the epoch moves on by
/// one unless it is already at its maximum.
pub proof fn law_commit_aligns_tails(h: ArenaHeader, t: u64, owner_pid: u32, now_ns: u64)
    ensures
        ({
            let c = committed_header(h, t, owner_pid, now_ns);
            &&& c.committed_tail == t
            &&& c.prepared_tail == t
            &&& c.prepared_tail == c.committed_tail
            &&& header_state(c) == PublishState::Clean
            &&& c.owner_pid == owner_pid
            &&& c.last_heartbeat_ns == now_ns
            &&& c.magic == h.magic
            &&& c.version == h.version
            &&& c.arena_size == h.arena_size
            &&& c.feature_flags == h.feature_flags
            &&& c.epoch == (if h.epoch == u64::MAX { u64::MAX } else { (h.epoch + 1) as u64 })
            &&& (header_is_valid(c) <==> h.magic == ARENA_MAGIC)
        }),
{
    lemma_sealed_validity(
        ArenaHeader {
            owner_pid,
            last_heartbeat_ns: now_ns,
            committed_tail: t,
            prepared_tail: t,
            publish_state: 0,
            epoch: if h.epoch == u64::MAX {
                u64::MAX
            } else {
                (h.epoch + 1) as u64
            },
            ..h
        },
    );
}

/// With the major version matching, feature flags are refused exactly when
/// some flag bit lies outside the supported mask: every such bit makes the
/// header incompatible, and flags that are a subset of the mask never do.
/// A different major version is always refused first.
pub proof fn law_feature_flags_compatibility(h: ArenaHeader, expected: ArenaVersion, supported: u64)
    ensures
        h.version.major != expected.major ==> compatibility_of(h, expected, supported)
            == CompatibilityResult::IncompatibleMajor,
        h.version.major == expected.major ==> ((compatibility_of(h, expected, supported)
            == CompatibilityResult::IncompatibleFeatureFlags) <==> (h.feature_flags | supported)
            != supported),
        h.version.major == expected.major ==> forall|i: u64|
            i < 64 && #[trigger] ((h.feature_flags >> i) & 1) == 1 && (supported >> i) & 1 == 0
                ==> compatibility_of(h, expected, supported) == CompatibilityResult::IncompatibleFeatureFlags,
        h.version.major == expected.major && h.feature_flags & supported == h.feature_flags
            ==> compatibility_of(h, expected, supported) != CompatibilityResult::IncompatibleFeatureFlags,
        h.version.major == expected.major && h.feature_flags & supported == h.feature_flags
            ==> compatibility_of(h, expected, supported) == (if h.version.minor > expected.minor {
            CompatibilityResult::ForwardCompatibleReadOnly
        } else {
            CompatibilityResult::Compatible
        }),
{
    let f = h.feature_flags;
    let s = supported;
    assert((f & !s != 0) == ((f | s) != s)) by (bit_vector);
    assert(f & s == f ==> f & !s == 0) by (bit_vector);
    assert forall|i: u64| i < 64 && #[trigger] ((f >> i) & 1) == 1 && (s >> i) & 1 == 0 implies f & !s != 0 by {
        assert(f & !s != 0) by (bit_vector)
            requires
                i < 64,
                (f >> i) & 1 == 1,
                (s >> i) & 1 == 0,
        ;
    }
}

/// Resealing a header makes it valid exactly when its magic and raw publish
/// state are well formed.
pub proof fn lemma_sealed_validity(h: ArenaHeader)
    ensures
        header_is_valid(sealed(h)) <==> (h.magic == ARENA_MAGIC && publish_state_from_raw(
            h.publish_state,
        ) is Some),
{
    lemma_checksum_ignores_checksum(h, checksum_of(h));
}

/// The header after `mark_prepare`.
pub open spec fn prepared_header(h: ArenaHeader, prepared_tail: u64, owner_pid: u32, now_ns: u64) -> ArenaHeader {
    sealed(
        ArenaHeader { owner_pid, last_heartbeat_ns: now_ns, prepared_tail, publish_state: 1, ..h },
    )
}

/// The header after `mark_commit`.
pub open spec fn committed_header(h: ArenaHeader, committed_tail: u64, owner_pid: u32, now_ns: u64) -> ArenaHeader {
    sealed(
        ArenaHeader {
            owner_pid,
            last_heartbeat_ns: now_ns,
            committed_tail,
            prepared_tail: committed_tail,
            publish_state: 0,
            epoch: if h.epoch == u64::MAX {
                u64::MAX
            } else {
                (h.epoch + 1) as u64
            },
            ..h
        },
    )
}

/// The header after `rollback_to_committed`.
pub open spec fn rolled_back(h: ArenaHeader) -> ArenaHeader {
    sealed(ArenaHeader { prepared_tail: h.committed_tail, publish_state: 0, ..h })
}

/// The header after `heartbeat`.
pub open spec fn heartbeat_header(h: ArenaHeader, owner_pid: u32, now_ns: u64) -> ArenaHeader {
    sealed(ArenaHeader { owner_pid, last_heartbeat_ns: now_ns, ..h })
}

impl ArenaHeader {
    pub fn new(arena_size: usize, owner_pid: u32, now_ns: u64) -> (r: ArenaHeader)
        ensures
            r == fresh_header(arena_size, owner_pid, now_ns),
            header_is_valid(r),
            header_state(r) == PublishState::Clean,
    {
        let mut header = ArenaHeader {
            magic: ARENA_MAGIC,
            version: ArenaVersion::current(),
            arena_size: arena_size as u64,
            feature_flags: 0,
            epoch: 1,
            owner_pid,
            _reserved_owner: 0,
            last_heartbeat_ns: now_ns,
            prepared_tail: ARENA_HEADER_SIZE as u64,
            committed_tail: ARENA_HEADER_SIZE as u64,
            publish_state: PublishState::Clean.as_raw(),
            _reserved0: 0,
            checksum: 0,
            _reserved1: 0,
        };
        header.checksum = header.calculate_checksum();
        proof {
            lemma_checksum_ignores_checksum(header, 0);
        }
        header
    }

    pub fn calculate_checksum(&self) -> (r: u32)
        ensures
            r == checksum_of(*self),
    {
        let mut sum = self.magic ^ self.arena_size as u32 ^ (self.arena_size >> 32) as u32
            ^ self.feature_flags as u32 ^ (self.feature_flags >> 32) as u32 ^ self.epoch as u32 ^ (
        self.epoch >> 32) as u32 ^ self.owner_pid ^ self.last_heartbeat_ns as u32 ^ (
        self.last_heartbeat_ns >> 32) as u32 ^ self.prepared_tail as u32 ^ (self.prepared_tail
            >> 32) as u32 ^ self.committed_tail as u32 ^ (self.committed_tail >> 32) as u32
            ^ self.publish_state;
        sum = sum ^ ((self.version.major as u32) << 16 | self.version.minor as u32);
        sum
    }

    pub fn is_valid(&self) -> (r: bool)
        ensures
            r == header_is_valid(*self),
    {
        self.magic == ARENA_MAGIC && PublishState::from_raw(self.publish_state).is_some()
            && self.checksum == self.calculate_checksum()
    }

    pub fn state(&self) -> (r: PublishState)
        ensures
            r == header_state(*self),
    {
        match PublishState::from_raw(self.publish_state) {
            Some(s) => s,
            None => PublishState::Preparing,
        }
    }

    /// Records the start of a publication that will end at `prepared_tail`.
    pub fn mark_prepare(&mut self, prepared_tail: u64, owner_pid: u32, now_ns: u64)
        ensures
            *final(self) == prepared_header(*old(self), prepared_tail, owner_pid, now_ns),
            header_is_valid(*final(self)) <==> old(self).magic == ARENA_MAGIC,
            header_state(*final(self)) == PublishState::Preparing,
    {
        self.owner_pid = owner_pid;
        self.last_heartbeat_ns = now_ns;
        self.prepared_tail = prepared_tail;
        self.publish_state = PublishState::Preparing.as_raw();
        self.checksum = self.calculate_checksum();
        proof {
            lemma_sealed_validity(
                ArenaHeader {
                    owner_pid,
                    last_heartbeat_ns: now_ns,
                    prepared_tail,
                    publish_state: 1,
                    ..*old(self)
                },
            );
        }
    }

    /// Completes a publication: both tails become `committed_tail`, the state
    /// returns to `Clean` and the epoch advances (saturating).
    pub fn mark_commit(&mut self, committed_tail: u64, owner_pid: u32, now_ns: u64)
        ensures
            *final(self) == committed_header(*old(self), committed_tail, owner_pid, now_ns),
            final(self).committed_tail == committed_tail,
            final(self).prepared_tail == committed_tail,
            header_is_valid(*final(self)) <==> old(self).magic == ARENA_MAGIC,
            header_state(*final(self)) == PublishState::Clean,
    {
        self.owner_pid = owner_pid;
        self.last_heartbeat_ns = now_ns;
        self.committed_tail = committed_tail;
        self.prepared_tail = committed_tail;
        self.publish_state = PublishState::Clean.as_raw();
        self.epoch = self.epoch.saturating_add(1);
        self.checksum = self.calculate_checksum();
        proof {
            lemma_sealed_validity(*final(self));
        }
    }

    /// Abandons a prepared publication: the prepared tail falls back to the
    /// committed one and the state returns to `Clean`.
    pub fn rollback_to_committed(&mut self)
        ensures
            *final(self) == rolled_back(*old(self)),
            header_is_valid(*final(self)) <==> old(self).magic == ARENA_MAGIC,
            header_state(*final(self)) == PublishState::Clean,
    {
        self.prepared_tail = self.committed_tail;
        self.publish_state = PublishState::Clean.as_raw();
        self.checksum = self.calculate_checksum();
        proof {
            lemma_sealed_validity(*final(self));
        }
    }

    /// Records that `owner_pid` is alive at `now_ns`.
    pub fn heartbeat(&mut self, owner_pid: u32, now_ns: u64)
        ensures
            *final(self) == heartbeat_header(*old(self), owner_pid, now_ns),
            header_is_valid(*final(self)) <==> header_is_valid(sealed(*old(self))),
    {
        self.owner_pid = owner_pid;
        self.last_heartbeat_ns = now_ns;
        self.checksum = self.calculate_checksum();
        proof {
            lemma_sealed_validity(*final(self));
            lemma_sealed_validity(*old(self));
        }
    }

    pub fn is_owner_stale(&self, now_ns: u64, timeout_ns: u64) -> (r: bool)
        ensures
            r == owner_is_stale(*self, now_ns, timeout_ns),
    {
        now_ns.saturating_sub(self.last_heartbeat_ns) > timeout_ns
    }

    pub fn compatibility_with(&self, expected: ArenaVersion, supported_flags_mask: u64) -> (r:
        CompatibilityResult)
        ensures
            r == compatibility_of(*self, expected, supported_flags_mask),
            self.version.major == expected.major ==> (r == CompatibilityResult::IncompatibleFeatureFlags
                <==> (self.feature_flags | supported_flags_mask) != supported_flags_mask),
    {
        proof {
            law_feature_flags_compatibility(*self, expected, supported_flags_mask);
        }
        if self.version.major != expected.major {
            return CompatibilityResult::IncompatibleMajor;
        }
        if self.feature_flags & !supported_flags_mask != 0 {
            return CompatibilityResult::IncompatibleFeatureFlags;
        }
        if self.version.minor > expected.minor {
            return CompatibilityResult::ForwardCompatibleReadOnly;
        }
        CompatibilityResult::Compatible
    }
}

/// The 80 bytes a header is stored as: every field little-endian, in
/// declaration order, with no padding.
pub open spec fn header_bytes(h: ArenaHeader) -> Seq<u8> {
    le_bytes(h.magic as nat, 4) + le_bytes(h.version.major as nat, 2) + le_bytes(
        h.version.minor as nat,
        2,
    ) + le_bytes(h.arena_size as nat, 8) + le_bytes(h.feature_flags as nat, 8) + le_bytes(
        h.epoch as nat,
        8,
    ) + le_bytes(h.owner_pid as nat, 4) + le_bytes(h._reserved_owner as nat, 4) + le_bytes(
        h.last_heartbeat_ns as nat,
        8,
    ) + le_bytes(h.prepared_tail as nat, 8) + le_bytes(h.committed_tail as nat, 8) + le_bytes(
        h.publish_state as nat,
        4,
    ) + le_bytes(h._reserved0 as nat, 4) + le_bytes(h.checksum as nat, 4) + le_bytes(
        h._reserved1 as nat,
        4,
    )
}

/// The little-endian number in `b[off..off + n]`.
pub open spec fn le_field(b: Seq<u8>, off: int, n: int) -> nat {
    le_value(b.subrange(off, off + n))
}

/// The header stored in the first 80 bytes of `b`.
#[verifier::opaque]
pub open spec fn header_from_bytes(b: Seq<u8>) -> ArenaHeader {
    ArenaHeader {
        magic: le_field(b, 0, 4) as u32,
        version: ArenaVersion {
            major: le_field(b, 4, 2) as u16,
            minor: le_field(b, 6, 2) as u16,
        },
        arena_size: le_field(b, 8, 8) as u64,
        feature_flags: le_field(b, 16, 8) as u64,
        epoch: le_field(b, 24, 8) as u64,
        owner_pid: le_field(b, 32, 4) as u32,
        _reserved_owner: le_field(b, 36, 4) as u32,
        last_heartbeat_ns: le_field(b, 40, 8) as u64,
        prepared_tail: le_field(b, 48, 8) as u64,
        committed_tail: le_field(b, 56, 8) as u64,
        publish_state: le_field(b, 64, 4) as u32,
        _reserved0: le_field(b, 68, 4) as u32,
        checksum: le_field(b, 72, 4) as u32,
        _reserved1: le_field(b, 76, 4) as u32,
    }
}

/// Reading back the bytes a header is stored as gives the same header, and
/// those bytes are exactly `ARENA_HEADER_SIZE` long.
pub proof fn lemma_header_roundtrip(h: ArenaHeader)
    ensures
        header_bytes(h).len() == ARENA_HEADER_SIZE,
        header_from_bytes(header_bytes(h)) == h,
{
    lemma_pow256_values();
    lemma_le_roundtrip(h.magic as nat, 4);
    lemma_le_roundtrip(h.version.major as nat, 2);
    lemma_le_roundtrip(h.version.minor as nat, 2);
    lemma_le_roundtrip(h.arena_size as nat, 8);
    lemma_le_roundtrip(h.feature_flags as nat, 8);
    lemma_le_roundtrip(h.epoch as nat, 8);
    lemma_le_roundtrip(h.owner_pid as nat, 4);
    lemma_le_roundtrip(h._reserved_owner as nat, 4);
    lemma_le_roundtrip(h.last_heartbeat_ns as nat, 8);
    lemma_le_roundtrip(h.prepared_tail as nat, 8);
    lemma_le_roundtrip(h.committed_tail as nat, 8);
    lemma_le_roundtrip(h.publish_state as nat, 4);
    lemma_le_roundtrip(h._reserved0 as nat, 4);
    lemma_le_roundtrip(h.checksum as nat, 4);
    lemma_le_roundtrip(h._reserved1 as nat, 4);
    reveal(header_from_bytes);
    let b = header_bytes(h);
    assert(b.subrange(0, 4) =~= le_bytes(h.magic as nat, 4));
    assert(b.subrange(4, 6) =~= le_bytes(h.version.major as nat, 2));
    assert(b.subrange(6, 8) =~= le_bytes(h.version.minor as nat, 2));
    assert(b.subrange(8, 16) =~= le_bytes(h.arena_size as nat, 8));
    assert(b.subrange(16, 24) =~= le_bytes(h.feature_flags as nat, 8));
    assert(b.subrange(24, 32) =~= le_bytes(h.epoch as nat, 8));
    assert(b.subrange(32, 36) =~= le_bytes(h.owner_pid as nat, 4));
    assert(b.subrange(36, 40) =~= le_bytes(h._reserved_owner as nat, 4));
    assert(b.subrange(40, 48) =~= le_bytes(h.last_heartbeat_ns as nat, 8));
    assert(b.subrange(48, 56) =~= le_bytes(h.prepared_tail as nat, 8));
    assert(b.subrange(56, 64) =~= le_bytes(h.committed_tail as nat, 8));
    assert(b.subrange(64, 68) =~= le_bytes(h.publish_state as nat, 4));
    assert(b.subrange(68, 72) =~= le_bytes(h._reserved0 as nat, 4));
    assert(b.subrange(72, 76) =~= le_bytes(h.checksum as nat, 4));
    assert(b.subrange(76, 80) =~= le_bytes(h._reserved1 as nat, 4));
}

/// Only the first `ARENA_HEADER_SIZE` bytes matter to the stored header.
pub proof fn lemma_header_from_prefix(b: Seq<u8>)
    requires
        b.len() >= ARENA_HEADER_SIZE,
    ensures
        header_from_bytes(b) == header_from_bytes(b.subrange(0, ARENA_HEADER_SIZE as int)),
{
    reveal(header_from_bytes);
    let p = b.subrange(0, ARENA_HEADER_SIZE as int);
    assert(b.subrange(0, 4) =~= p.subrange(0, 4));
    assert(b.subrange(4, 6) =~= p.subrange(4, 6));
    assert(b.subrange(6, 8) =~= p.subrange(6, 8));
    assert(b.subrange(8, 16) =~= p.subrange(8, 16));
    assert(b.subrange(16, 24) =~= p.subrange(16, 24));
    assert(b.subrange(24, 32) =~= p.subrange(24, 32));
    assert(b.subrange(32, 36) =~= p.subrange(32, 36));
    assert(b.subrange(36, 40) =~= p.subrange(36, 40));
    assert(b.subrange(40, 48) =~= p.subrange(40, 48));
    assert(b.subrange(48, 56) =~= p.subrange(48, 56));
    assert(b.subrange(56, 64) =~= p.subrange(56, 64));
    assert(b.subrange(64, 68) =~= p.subrange(64, 68));
    assert(b.subrange(68, 72) =~= p.subrange(68, 72));
    assert(b.subrange(72, 76) =~= p.subrange(72, 76));
    assert(b.subrange(76, 80) =~= p.subrange(76, 80));
}

/// Writing past the header leaves the stored header as it was.
pub proof fn lemma_header_unaffected_by_later_write(mem: Seq<u8>, off: int, data: Seq<u8>)
    requires
        mem.len() >= ARENA_HEADER_SIZE,
        ARENA_HEADER_SIZE <= off,
        off + data.len() <= mem.len(),
    ensures
        header_from_bytes(crate::arena::layout::splice(mem, off, data)) == header_from_bytes(mem),
{
    let m2 = crate::arena::layout::splice(mem, off, data);
    lemma_header_from_prefix(mem);
    lemma_header_from_prefix(m2);
    assert(m2.subrange(0, ARENA_HEADER_SIZE as int) =~= mem.subrange(0, ARENA_HEADER_SIZE as int));
}

/// Overwriting the start of `mem` with the bytes of `h` stores `h`.
pub proof fn lemma_header_written(mem: Seq<u8>, h: ArenaHeader)
    requires
        mem.len() >= ARENA_HEADER_SIZE,
    ensures
        header_from_bytes(
            mem.subrange(0, 0) + header_bytes(h) + mem.subrange(
                ARENA_HEADER_SIZE as int,
                mem.len() as int,
            ),
        ) == h,
{
    lemma_header_roundtrip(h);
    let b = mem.subrange(0, 0) + header_bytes(h) + mem.subrange(
        ARENA_HEADER_SIZE as int,
        mem.len() as int,
    );
    lemma_header_from_prefix(b);
    assert(b.subrange(0, ARENA_HEADER_SIZE as int) =~= header_bytes(h));
}

impl ArenaHeader {
    /// The 80 bytes this header is stored as.
    pub fn to_bytes(&self) -> (r: Vec<u8>)
        ensures
            r@ == header_bytes(*self),
            r@.len() == ARENA_HEADER_SIZE,
    {
        proof {
            lemma_pow256_values();
            lemma_header_roundtrip(*self);
        }
        let mut out: Vec<u8> = Vec::new();
        push_le(&mut out, self.magic as u64, 4);
        push_le(&mut out, self.version.major as u64, 2);
        push_le(&mut out, self.version.minor as u64, 2);
        push_le(&mut out, self.arena_size, 8);
        push_le(&mut out, self.feature_flags, 8);
        push_le(&mut out, self.epoch, 8);
        push_le(&mut out, self.owner_pid as u64, 4);
        push_le(&mut out, self._reserved_owner as u64, 4);
        push_le(&mut out, self.last_heartbeat_ns, 8);
        push_le(&mut out, self.prepared_tail, 8);
        push_le(&mut out, self.committed_tail, 8);
        push_le(&mut out, self.publish_state as u64, 4);
        push_le(&mut out, self._reserved0 as u64, 4);
        push_le(&mut out, self.checksum as u64, 4);
        push_le(&mut out, self._reserved1 as u64, 4);
        assert(out@ =~= header_bytes(*self));
        out
    }

    /// The header stored at the start of `bytes`.
    pub fn from_bytes(bytes: &[u8]) -> (r: ArenaHeader)
        requires
            bytes@.len() >= ARENA_HEADER_SIZE,
        ensures
            r == header_from_bytes(bytes@),
    {
        reveal(header_from_bytes);
        ArenaHeader {
            magic: read_le(bytes, 0, 4) as u32,
            version: ArenaVersion {
                major: read_le(bytes, 4, 2) as u16,
                minor: read_le(bytes, 6, 2) as u16,
            },
            arena_size: read_le(bytes, 8, 8),
            feature_flags: read_le(bytes, 16, 8),
            epoch: read_le(bytes, 24, 8),
            owner_pid: read_le(bytes, 32, 4) as u32,
            _reserved_owner: read_le(bytes, 36, 4) as u32,
            last_heartbeat_ns: read_le(bytes, 40, 8),
            prepared_tail: read_le(bytes, 48, 8),
            committed_tail: read_le(bytes, 56, 8),
            publish_state: read_le(bytes, 64, 4) as u32,
            _reserved0: read_le(bytes, 68, 4) as u32,
            checksum: read_le(bytes, 72, 4) as u32,
            _reserved1: read_le(bytes, 76, 4) as u32,
        }
    }
}

} // verus!
