//! Channels of arena handles and the endpoint that copies values through
//! an arena and a channel.

pub mod channel;
pub mod process;

pub use channel::{Consumer, ErrorClass, IpcError, Producer, SharedChannel, SharedEndpoint};
pub use process::{PeerRole, ProcessIdentity};
