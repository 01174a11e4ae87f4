//! Who takes part in an exchange.

use vstd::prelude::*;

verus! {

#[derive(Debug, Clone, Copy, PartialEq, Eq, Structural)]
pub enum PeerRole {
    Producer,
    Consumer,
    Mixed,
}

#[derive(Debug, Clone)]
pub struct ProcessIdentity {
    pub process_id: u32,
    pub role: PeerRole,
    pub segment_name: String,
}

} // verus!
