//! Position-independent references into shared memory.

pub mod handle;
pub mod rel_ptr;

pub use handle::Handle;
pub use rel_ptr::RelPtr;
