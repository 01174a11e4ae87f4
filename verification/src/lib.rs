//! Shared-memory IPC building blocks: a versioned arena with a two-phase
//! publish protocol, generation-checked handles, a bounded ring of handles,
//! and containers that keep their elements inside the arena.

pub mod arena;
pub mod bench;
pub mod bits;
pub mod codec;
pub mod containers;
pub mod ipc;
pub mod ptr;
pub mod sync;
pub mod sys;
pub mod telemetry;

pub use arena::{
    ArenaError, ArenaHeader, ArenaLayout, ArenaVersion, CompatibilityResult, EpochGuard,
    EpochManager, PublishState, RecoveryReport, RetiredRecord, SharedArena,
};
pub use codec::ArenaValue;
pub use containers::{PlexusMap, PlexusString, PlexusVec};
pub use ipc::{Consumer, ErrorClass, IpcError, Producer, SharedChannel, SharedEndpoint};
pub use ptr::{Handle, RelPtr};
pub use sync::ring_mpmc::{RingError, SharedRing};
pub use sys::{MapAccess, MappingError, MappingMetadata, MappingSecurityProfile};

use vstd::prelude::*;

verus! {

/// A handle into an arena.
pub type ArenaHandle<T> = Handle<T>;

} // verus!
