//! The shared arena: its control header, crash recovery, the allocator,
//! which of its slots are in use, and epoch-based reclamation.

pub mod allocator;
pub mod frame;
pub mod header;
pub mod layout;
pub mod reclamation;
pub mod recovery;

pub use allocator::{ArenaError, SharedArena};
pub use header::{ArenaHeader, ArenaVersion, CompatibilityResult, PublishState};
pub use layout::ArenaLayout;
pub use reclamation::{EpochGuard, EpochManager, RetiredRecord};
pub use recovery::RecoveryReport;
